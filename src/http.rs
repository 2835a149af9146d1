//! The small HTTP/1.x layer that the data phase carries: recognising a request head and
//! writing a response head.
use vstd::prelude::*;
use vstd::string::StringSliceAdditionalSpecFns;
use crate::wire::{copy_range, push_all};

verus! {

pub open spec fn is_crlf(b: Seq<u8>, i: int) -> bool {
    0 <= i && i + 2 <= b.len() && b[i] == 13 && b[i + 1] == 10
}

pub open spec fn is_blank_line(b: Seq<u8>, i: int) -> bool {
    is_crlf(b, i) && is_crlf(b, i + 2)
}

/// The first position at or after `from` where an empty line (CR LF CR LF) starts.
pub open spec fn head_end(b: Seq<u8>, from: int) -> Option<int>
    decreases b.len() - from,
{
    if from < 0 || from + 4 > b.len() {
        None
    } else if is_blank_line(b, from) {
        Some(from)
    } else {
        head_end(b, from + 1)
    }
}

/// The first position at or after `from` where a line break starts, or the end of `b`.
pub open spec fn line_end(b: Seq<u8>, from: int) -> int
    decreases b.len() - from,
{
    if from < 0 || from + 2 > b.len() {
        b.len() as int
    } else if is_crlf(b, from) {
        from
    } else {
        line_end(b, from + 1)
    }
}

/// The first position at or after `from` that holds `c`, or the end of `b`.
pub open spec fn find_byte(b: Seq<u8>, c: u8, from: int) -> int
    decreases b.len() - from,
{
    if from < 0 || from >= b.len() {
        b.len() as int
    } else if b[from] == c {
        from
    } else {
        find_byte(b, c, from + 1)
    }
}

/// The last position before `to` that holds `c`, or -1.
pub open spec fn rfind_byte(b: Seq<u8>, c: u8, to: int) -> int
    decreases to,
{
    if to <= 0 || to > b.len() {
        -1
    } else if b[to - 1] == c {
        to - 1
    } else {
        rfind_byte(b, c, to - 1)
    }
}

pub open spec fn is_digit(c: u8) -> bool {
    48 <= c <= 57
}

/// The version that a request line ends with, written `HTTP/` digit `.` digit.
pub open spec fn version_of(line: Seq<u8>) -> Option<HTTPVersion> {
    let n = line.len() as int;
    if n >= 8 && line.subrange(n - 8, n - 3) == "HTTP/".spec_bytes() && is_digit(line[n - 3])
        && line[n - 2] == 46 && is_digit(line[n - 1]) {
        Some(HTTPVersion { major: (line[n - 3] - 48) as u8, minor: (line[n - 1] - 48) as u8 })
    } else {
        None
    }
}

pub open spec fn ascii_upper(c: u8) -> u8 {
    if 97 <= c <= 122 {
        (c - 32) as u8
    } else {
        c
    }
}

/// Whether `token` is `word`, ignoring the case of ASCII letters.
pub open spec fn same_word(token: Seq<u8>, word: Seq<u8>) -> bool {
    token.len() == word.len() && forall|i: int| 0 <= i < token.len() ==> ascii_upper(#[trigger] token[i]) == word[i]
}

/// The method that the first word of a request line names.
pub open spec fn method_of(line: Seq<u8>) -> Option<HTTPMethod> {
    let token = line.subrange(0, find_byte(line, 32, 0));
    if same_word(token, "GET".spec_bytes()) {
        Some(HTTPMethod::Get)
    } else if same_word(token, "POST".spec_bytes()) {
        Some(HTTPMethod::Post)
    } else {
        None
    }
}

/// The decimal digits of `n`, most significant first.
pub open spec fn decimal(n: nat) -> Seq<u8>
    decreases n,
{
    if n < 10 {
        seq![(48 + n) as u8]
    } else {
        decimal(n / 10).push((48 + n % 10) as u8)
    }
}

/// The bytes of one header line.
pub open spec fn header_line(h: (Seq<u8>, Seq<u8>)) -> Seq<u8> {
    h.0 + ": ".spec_bytes() + h.1 + "\r\n".spec_bytes()
}

pub open spec fn header_lines(hs: Seq<(Seq<u8>, Seq<u8>)>) -> Seq<u8>
    decreases hs.len(),
{
    if hs.len() == 0 {
        Seq::empty()
    } else {
        header_lines(hs.drop_last()) + header_line(hs.last())
    }
}

pub open spec fn headers_model(hs: Seq<(Vec<u8>, Vec<u8>)>) -> Seq<(Seq<u8>, Seq<u8>)> {
    hs.map_values(|h: (Vec<u8>, Vec<u8>)| (h.0@, h.1@))
}

/// A response head as written: status line, header lines, empty line.
pub open spec fn response_bytes(h: HTTPResponseHeader) -> Seq<u8> {
    "HTTP/".spec_bytes() + seq![(48 + h.version.major % 10) as u8, 46u8, (48 + h.version.minor % 10) as u8, 32u8]
        + decimal(h.code as nat) + seq![32u8] + h.reason@ + "\r\n".spec_bytes() + header_lines(
        headers_model(h.headers@),
    ) + "\r\n".spec_bytes()
}

/// The lines of `b`, split at each CR LF.
pub open spec fn split_lines(b: Seq<u8>) -> Seq<Seq<u8>>
    decreases b.len(),
{
    let e = line_end(b, 0);
    if e < 0 || e + 2 > b.len() {
        seq![b]
    } else {
        seq![b.subrange(0, e)] + split_lines(b.subrange(e + 2, b.len() as int))
    }
}

/// A header line split at its first colon, the value as written after it.
pub open spec fn split_header(line: Seq<u8>) -> Option<(Seq<u8>, Seq<u8>)> {
    let c = find_byte(line, 58, 0);
    if c < line.len() {
        Some((line.subrange(0, c), line.subrange(c + 1, line.len() as int)))
    } else {
        None
    }
}

pub open spec fn lines_model(v: Seq<&[u8]>) -> Seq<Seq<u8>> {
    v.map_values(|l: &[u8]| l@)
}

/// The request method.
#[derive(Debug, Clone, Copy, PartialEq, Eq, Structural)]
pub enum HTTPMethod {
    Get,
    Post,
}

impl HTTPMethod {
    pub fn as_str(&self) -> (r: &'static str)
        ensures
            *self == HTTPMethod::Get ==> r@ == "GET"@,
            *self == HTTPMethod::Post ==> r@ == "POST"@,
    {
        match self {
            HTTPMethod::Get => "GET",
            HTTPMethod::Post => "POST",
        }
    }
}

/// A protocol version, one digit each.
#[derive(Debug, Clone, Copy, PartialEq, Eq, Structural)]
pub struct HTTPVersion {
    pub major: u8,
    pub minor: u8,
}

/// A payload that holds no complete request head.
#[derive(Debug, Clone, Copy, PartialEq, Eq, Structural)]
pub struct ParseHTTPError;

/// One `key: value` header line of a request, the value as written after the colon.
#[derive(Debug, Clone, Copy)]
pub struct HTTPHeaderView<'a> {
    pub key: &'a [u8],
    pub value: &'a [u8],
}

/// A request head: the bytes before the first empty line of a payload.
#[derive(Debug, Clone, Copy)]
pub struct HTTPRequestHeaderView<'a> {
    pub content: &'a [u8],
}

fn find_crlf(b: &[u8]) -> (r: usize)
    ensures
        r == line_end(b@, 0),
{
    let n = b.len();
    let mut i: usize = 0;
    while n - i >= 2
        invariant
            n == b@.len(),
            i <= n,
            line_end(b@, 0) == line_end(b@, i as int),
        decreases n - i,
    {
        if b[i] == 13 && b[i + 1] == 10 {
            return i;
        }
        i = i + 1;
    }
    n
}

fn find(b: &[u8], c: u8) -> (r: usize)
    ensures
        r == find_byte(b@, c, 0),
{
    let n = b.len();
    let mut i: usize = 0;
    while i < n
        invariant
            n == b@.len(),
            i <= n,
            find_byte(b@, c, 0) == find_byte(b@, c, i as int),
        decreases n - i,
    {
        if b[i] == c {
            return i;
        }
        i = i + 1;
    }
    n
}

fn rfind(b: &[u8], c: u8) -> (r: Option<usize>)
    ensures
        match r {
            Some(i) => i == rfind_byte(b@, c, b@.len() as int),
            None => rfind_byte(b@, c, b@.len() as int) == -1,
        },
{
    let mut i: usize = b.len();
    while i > 0
        invariant
            i <= b@.len(),
            rfind_byte(b@, c, b@.len() as int) == rfind_byte(b@, c, i as int),
        decreases i,
    {
        if b[i - 1] == c {
            return Some(i - 1);
        }
        i = i - 1;
    }
    None
}

impl<'a> HTTPRequestHeaderView<'a> {
    /// Finds the end of the request head in a payload; a payload without an empty line is
    /// no request.
    pub fn try_from(value: &'a [u8]) -> (r: Result<HTTPRequestHeaderView<'a>, ParseHTTPError>)
        ensures
            r is Ok <==> head_end(value@, 0) is Some,
            r matches Ok(v) ==> v.content@ == value@.subrange(0, head_end(value@, 0).unwrap()),
    {
        let n = value.len();
        let mut i: usize = 0;
        while n - i >= 4
            invariant
                n == value@.len(),
                i <= n,
                head_end(value@, 0) == head_end(value@, i as int),
            decreases n - i,
        {
            if value[i] == 13 && value[i + 1] == 10 && value[i + 2] == 13 && value[i + 3] == 10 {
                return Ok(HTTPRequestHeaderView { content: value.split_at(i).0 });
            }
            i = i + 1;
        }
        Err(ParseHTTPError)
    }

    /// The request line.
    pub fn get_first_line(&self) -> (r: &'a [u8])
        ensures
            r@ == self.content@.subrange(0, line_end(self.content@, 0)),
    {
        let e = find_crlf(self.content);
        proof {
            lemma_line_end_bound(self.content@, 0);
        }
        self.content.split_at(e).0
    }

    /// The header lines after the request line, without the line break that ends it.
    pub fn get_headers_raw(&self) -> (r: &'a [u8])
        ensures
            line_end(self.content@, 0) + 2 <= self.content@.len() ==> r@ == self.content@.subrange(
                line_end(self.content@, 0) + 2,
                self.content@.len() as int,
            ),
            line_end(self.content@, 0) + 2 > self.content@.len() ==> r@.len() == 0,
    {
        let e = find_crlf(self.content);
        proof {
            lemma_line_end_bound(self.content@, 0);
        }
        if self.content.len() - e >= 2 {
            self.content.split_at(e + 2).1
        } else {
            self.content.split_at(self.content.len()).1
        }
    }

    /// The header lines, split at each line break.
    pub fn get_headers(&self) -> (r: Vec<&'a [u8]>)
        ensures
            lines_model(r@) == split_lines(self.get_headers_raw_spec()),
    {
        let raw = self.get_headers_raw();
        let mut out: Vec<&'a [u8]> = Vec::new();
        let mut rest: &'a [u8] = raw;
        loop
            invariant_except_break
                lines_model(out@) + split_lines(rest@) == split_lines(raw@),
            invariant
                raw@ == self.get_headers_raw_spec(),
            ensures
                lines_model(out@) == split_lines(raw@),
            decreases rest@.len(),
        {
            let e = find_crlf(rest);
            proof {
                lemma_line_end_bound(rest@, 0);
            }
            if rest.len() - e < 2 {
                let ghost before = out@;
                out.push(rest);
                proof {
                    assert(split_lines(rest@) == seq![rest@]);
                    assert(lines_model(out@) =~= lines_model(before) + seq![rest@]);
                }
                break;
            }
            let line = rest.split_at(e).0;
            let next = rest.split_at(e + 2).1;
            let ghost before = out@;
            out.push(line);
            proof {
                assert(split_lines(rest@) == seq![line@] + split_lines(next@));
                assert(lines_model(out@) =~= lines_model(before).push(line@));
                assert(lines_model(out@) + split_lines(next@) =~= lines_model(before) + split_lines(rest@));
            }
            rest = next;
        }
        out
    }

    /// What `get_headers_raw` returns.
    pub open spec fn get_headers_raw_spec(&self) -> Seq<u8> {
        let e = line_end(self.content@, 0);
        if e + 2 <= self.content@.len() {
            self.content@.subrange(e + 2, self.content@.len() as int)
        } else {
            Seq::empty()
        }
    }

    /// The header lines split at their first colon; `None` when a line has no colon.
    pub fn get_headers_parsed(&self) -> (r: Option<Vec<HTTPHeaderView<'a>>>)
        ensures
            ({
                let lines = split_lines(self.get_headers_raw_spec());
                match r {
                    Some(v) => v@.len() == lines.len() && forall|i: int|
                        0 <= i < lines.len() ==> split_header(lines[i]) == Some(
                            ((#[trigger] v@[i]).key@, v@[i].value@),
                        ),
                    None => !(forall|i: int| 0 <= i < lines.len() ==> (#[trigger] split_header(lines[i])) is Some),
                }
            }),
    {
        let lines = self.get_headers();
        let ghost model = split_lines(self.get_headers_raw_spec());
        let mut out: Vec<HTTPHeaderView<'a>> = Vec::new();
        let mut i: usize = 0;
        while i < lines.len()
            invariant
                model == split_lines(self.get_headers_raw_spec()),
                lines_model(lines@) == model,
                i <= lines@.len(),
                out@.len() == i,
                forall|j: int| 0 <= j < i ==> split_header(model[j]) == Some(((#[trigger] out@[j]).key@, out@[j].value@)),
            decreases lines@.len() - i,
        {
            let line = lines[i];
            assert(line@ == model[i as int]);
            let c = find(line, 58);
            proof {
                lemma_find_bound(line@, 58, 0);
            }
            if c >= line.len() {
                assert(split_header(model[i as int]) is None);
                assert(model.len() == lines@.len());
                return None;
            }
            let key = line.split_at(c).0;
            let value = line.split_at(c + 1).1;
            out.push(HTTPHeaderView { key, value });
            i = i + 1;
        }
        Some(out)
    }

    /// Copies the request out: `None` unless the method, target, version and every header
    /// line read.
    #[verifier::loop_isolation(false)]
    pub fn to_mutable(&self) -> (r: Option<HTTPRequestHeader>)
        ensures
            ({
                let line = self.content@.subrange(0, line_end(self.content@, 0));
                let first = find_byte(line, 32, 0);
                let last = rfind_byte(line, 32, line.len() as int);
                let lines = split_lines(self.get_headers_raw_spec());
                let ok = method_of(line) is Some && first < last && version_of(line) is Some && forall|i: int|
                    0 <= i < lines.len() ==> (#[trigger] split_header(lines[i])) is Some;
                &&& (r is Some <==> ok)
                &&& r matches Some(h) ==> {
                    &&& Some(h.method) == method_of(line)
                    &&& h.path@ == line.subrange(first + 1, last)
                    &&& Some(h.version) == version_of(line)
                    &&& h.headers@.len() == lines.len()
                    &&& forall|i: int|
                        0 <= i < lines.len() ==> split_header(lines[i]) == Some(
                            ((#[trigger] h.headers@[i]).0@, h.headers@[i].1@),
                        )
                }
            }),
    {
        let method = match self.get_method() {
            Some(m) => m,
            None => {
                return None;
            },
        };
        let path = match self.get_path() {
            Some(p) => copy_range(p, 0, p.len()),
            None => {
                return None;
            },
        };
        let version = match self.get_version() {
            Some(v) => v,
            None => {
                return None;
            },
        };
        let parsed = match self.get_headers_parsed() {
            Some(v) => v,
            None => {
                return None;
            },
        };
        let mut headers: Vec<(Vec<u8>, Vec<u8>)> = Vec::new();
        let mut i: usize = 0;
        while i < parsed.len()
            invariant
                i <= parsed@.len(),
                headers@.len() == i,
                forall|j: int|
                    0 <= j < i ==> (#[trigger] headers@[j]).0@ == parsed@[j].key@ && headers@[j].1@
                        == parsed@[j].value@,
            decreases parsed@.len() - i,
        {
            let h = parsed[i];
            headers.push((copy_range(h.key, 0, h.key.len()), copy_range(h.value, 0, h.value.len())));
            i = i + 1;
        }
        let r = HTTPRequestHeader { method, path, version, headers };
        proof {
            let line = self.content@.subrange(0, line_end(self.content@, 0));
            let lines = split_lines(self.get_headers_raw_spec());
            assert forall|i: int| 0 <= i < lines.len() implies (#[trigger] split_header(lines[i])) is Some by {
                assert(split_header(lines[i]) == Some((r.headers@[i].0@, r.headers@[i].1@)));
            }
        }
        Some(r)
    }

    /// The method the request line names, if this layer knows it; case is ignored.
    pub fn get_method(&self) -> (r: Option<HTTPMethod>)
        ensures
            r == method_of(self.content@.subrange(0, line_end(self.content@, 0))),
    {
        let line = self.get_first_line();
        let end = find(line, 32);
        proof {
            lemma_find_bound(line@, 32, 0);
        }
        let token = line.split_at(end).0;
        proof {
            reveal_strlit("GET");
            reveal_strlit("POST");
        }
        if matches_word(token, "GET") {
            Some(HTTPMethod::Get)
        } else if matches_word(token, "POST") {
            Some(HTTPMethod::Post)
        } else {
            None
        }
    }

    /// The version the request line ends with, if it is well formed.
    pub fn get_version(&self) -> (r: Option<HTTPVersion>)
        ensures
            r == version_of(self.content@.subrange(0, line_end(self.content@, 0))),
    {
        let line = self.get_first_line();
        let n = line.len();
        if n < 8 {
            return None;
        }
        let prefix = "HTTP/".as_bytes();
        proof {
            reveal_strlit("HTTP/");
            vstd::string::is_ascii_spec_bytes("HTTP/");
        }
        let mut k: usize = 0;
        while k < 5
            invariant
                prefix@ == "HTTP/".spec_bytes(),
                prefix@.len() == 5,
                line@ == self.content@.subrange(0, line_end(self.content@, 0)),
                n == line@.len(),
                n >= 8,
                k <= 5,
                forall|j: int| 0 <= j < k ==> line@[n - 8 + j] == prefix@[j],
            decreases 5 - k,
        {
            if line[n - 8 + k] != prefix[k] {
                assert(line@.subrange(n - 8, n - 3)[k as int] != "HTTP/".spec_bytes()[k as int]);
                assert(line@.subrange(n - 8, n - 3) != "HTTP/".spec_bytes());
                return None;
            }
            k = k + 1;
        }
        assert(line@.subrange(n - 8, n - 3) =~= "HTTP/".spec_bytes());
        let major = line[n - 3];
        let dot = line[n - 2];
        let minor = line[n - 1];
        if 48 <= major && major <= 57 && dot == 46 && 48 <= minor && minor <= 57 {
            Some(HTTPVersion { major: major - 48, minor: minor - 48 })
        } else {
            None
        }
    }

    /// The target between the first and the last space of the request line.
    pub fn get_path(&self) -> (r: Option<&'a [u8]>)
        ensures
            ({
                let line = self.content@.subrange(0, line_end(self.content@, 0));
                let first = find_byte(line, 32, 0);
                let last = rfind_byte(line, 32, line.len() as int);
                match r {
                    Some(p) => first < last && p@ == line.subrange(first + 1, last),
                    None => !(first < last),
                }
            }),
    {
        let line = self.get_first_line();
        let first = find(line, 32);
        proof {
            lemma_find_bound(line@, 32, 0);
        }
        match rfind(line, 32) {
            Some(last) => {
                proof {
                    lemma_rfind_bound(line@, 32, line@.len() as int);
                }
                if first < last {
                    let rest = line.split_at(last).0;
                    Some(rest.split_at(first + 1).1)
                } else {
                    None
                }
            },
            None => None,
        }
    }
}

proof fn lemma_line_end_bound(b: Seq<u8>, from: int)
    requires
        0 <= from,
    ensures
        line_end(b, from) <= b.len(),
        line_end(b, from) >= 0,
    decreases b.len() - from,
{
    if from + 2 <= b.len() && !is_crlf(b, from) {
        lemma_line_end_bound(b, from + 1);
    }
}

proof fn lemma_find_bound(b: Seq<u8>, c: u8, from: int)
    requires
        0 <= from,
    ensures
        0 <= find_byte(b, c, from) <= b.len(),
    decreases b.len() - from,
{
    if from < b.len() && b[from] != c {
        lemma_find_bound(b, c, from + 1);
    }
}

proof fn lemma_rfind_bound(b: Seq<u8>, c: u8, to: int)
    requires
        to <= b.len(),
    ensures
        -1 <= rfind_byte(b, c, to) < to || rfind_byte(b, c, to) == -1,
        rfind_byte(b, c, to) < b.len(),
    decreases to,
{
    if to > 0 && b[to - 1] != c {
        lemma_rfind_bound(b, c, to - 1);
    }
}

/// Whether `token` spells `word` (upper-case ASCII), ignoring case.
fn matches_word(token: &[u8], word: &str) -> (r: bool)
    requires
        vstd::string::is_ascii(word),
    ensures
        r == same_word(token@, word.spec_bytes()),
{
    proof {
        vstd::string::is_ascii_spec_bytes(word);
    }
    let w = word.as_bytes();
    if token.len() != w.len() {
        return false;
    }
    let mut i: usize = 0;
    while i < token.len()
        invariant
            w@ == word.spec_bytes(),
            token@.len() == w@.len(),
            i <= token@.len(),
            forall|j: int| 0 <= j < i ==> ascii_upper(#[trigger] token@[j]) == w@[j],
        decreases token@.len() - i,
    {
        let c = token[i];
        let up = if 97 <= c && c <= 122 {
            c - 32
        } else {
            c
        };
        if up != w[i] {
            return false;
        }
        i = i + 1;
    }
    true
}

/// A request head that owns its parts; header lines keep their order.
#[derive(Debug, Clone)]
pub struct HTTPRequestHeader {
    pub method: HTTPMethod,
    pub path: Vec<u8>,
    pub version: HTTPVersion,
    pub headers: Vec<(Vec<u8>, Vec<u8>)>,
}

/// A response head to be written before a body.
#[derive(Debug, Clone)]
pub struct HTTPResponseHeader {
    pub version: HTTPVersion,
    pub code: u16,
    pub reason: Vec<u8>,
    pub headers: Vec<(Vec<u8>, Vec<u8>)>,
}

/// Appends the decimal digits of `n`.
pub fn push_decimal(out: &mut Vec<u8>, n: u64)
    ensures
        final(out)@ == old(out)@ + decimal(n as nat),
    decreases n,
{
    if n >= 10 {
        push_decimal(out, n / 10);
    }
    out.push((48 + n % 10) as u8);
    assert(final(out)@ =~= old(out)@ + decimal(n as nat));
}

/// Appends the bytes of `s`.
pub fn push_str(out: &mut Vec<u8>, s: &str)
    ensures
        final(out)@ == old(out)@ + s.spec_bytes(),
{
    push_all(out, s.as_bytes());
}

proof fn lemma_header_lines_push(hs: Seq<(Vec<u8>, Vec<u8>)>, i: int)
    requires
        0 <= i < hs.len(),
    ensures
        header_lines(headers_model(hs.take(i + 1))) == header_lines(headers_model(hs.take(i)))
            + header_line((hs[i].0@, hs[i].1@)),
{
    assert(headers_model(hs.take(i + 1)).drop_last() =~= headers_model(hs.take(i)));
}

impl HTTPResponseHeader {
    /// Fills in the reason phrase of codes 200 and 500 when none is set.
    pub fn prepare(&mut self)
        ensures
            old(self).reason@.len() == 0 && old(self).code == 200 ==> final(self).reason@ == "OK".spec_bytes(),
            old(self).reason@.len() == 0 && old(self).code == 500 ==> final(self).reason@
                == "SERVER ERROR".spec_bytes(),
            !(old(self).reason@.len() == 0 && (old(self).code == 200 || old(self).code == 500))
                ==> final(self).reason@ == old(self).reason@,
            final(self).version == old(self).version,
            final(self).code == old(self).code,
            final(self).headers@ == old(self).headers@,
    {
        if self.reason.len() == 0 {
            if self.code == 200 {
                push_str(&mut self.reason, "OK");
            } else if self.code == 500 {
                push_str(&mut self.reason, "SERVER ERROR");
            }
        }
    }

    /// The number of bytes the head is written as.
    pub fn size(&self) -> (r: usize)
        ensures
            r == response_bytes(*self).len(),
    {
        let mut out: Vec<u8> = Vec::new();
        self.write_to(&mut out);
        assert(out@ =~= response_bytes(*self));
        out.len()
    }

    /// Appends the head in its wire layout.
    pub fn write_to(&self, out: &mut Vec<u8>)
        ensures
            final(out)@ == old(out)@ + response_bytes(*self),
    {
        let ghost start = out@;
        push_str(out, "HTTP/");
        out.push(48 + self.version.major % 10);
        out.push(46);
        out.push(48 + self.version.minor % 10);
        out.push(32);
        push_decimal(out, self.code as u64);
        out.push(32);
        push_all(out, self.reason.as_slice());
        push_str(out, "\r\n");
        let ghost lines_start = out@;
        let mut i: usize = 0;
        while i < self.headers.len()
            invariant
                i <= self.headers@.len(),
                out@ == lines_start + header_lines(headers_model(self.headers@.take(i as int))),
            decreases self.headers@.len() - i,
        {
            let h = &self.headers[i];
            push_all(out, h.0.as_slice());
            push_str(out, ": ");
            push_all(out, h.1.as_slice());
            push_str(out, "\r\n");
            proof {
                lemma_header_lines_push(self.headers@, i as int);
            }
            i = i + 1;
            assert(out@ =~= lines_start + header_lines(headers_model(self.headers@.take(i as int))));
        }
        assert(self.headers@.take(i as int) =~= self.headers@);
        push_str(out, "\r\n");
        assert(out@ =~= start + response_bytes(*self));
    }
}

/// The demonstration response of version `version`: a 200 head with the content type, the
/// length of `body` and `Connection: close`, then `body`.
pub open spec fn demo_bytes(version: HTTPVersion, body: Seq<u8>) -> Seq<u8> {
    "HTTP/".spec_bytes() + seq![(48 + version.major % 10) as u8, 46u8, (48 + version.minor % 10) as u8, 32u8]
        + decimal(200) + seq![32u8] + "OK".spec_bytes() + "\r\n".spec_bytes() + header_line(
        ("Content-Type".spec_bytes(), "text/html; charset=UTF-8".spec_bytes()),
    ) + header_line(("Content-Length".spec_bytes(), decimal(body.len()))) + header_line(
        ("Connection".spec_bytes(), "close".spec_bytes()),
    ) + "\r\n".spec_bytes() + body
}

/// The version of the request that a payload holds, when it holds a well-formed one: a head
/// ended by an empty line, valid UTF-8, whose request line names a known method, a target
/// between two spaces, and ends in `HTTP/` digit `.` digit.
pub open spec fn request_version(p: Seq<u8>) -> Option<HTTPVersion> {
    match head_end(p, 0) {
        Some(e) => {
            let head = p.subrange(0, e);
            let line = head.subrange(0, line_end(head, 0));
            if vstd::utf8::valid_utf8(head) && method_of(line) is Some && find_byte(line, 32, 0)
                < rfind_byte(line, 32, line.len() as int) {
                version_of(line)
            } else {
                None
            }
        },
        None => None,
    }
}

/// Relies on std::str::from_utf8: it returns `Ok` exactly when the bytes are valid UTF-8.
#[verifier::external_body]
fn is_utf8(b: &[u8]) -> (r: bool)
    ensures
        r == vstd::utf8::valid_utf8(b@),
{
    std::str::from_utf8(b).is_ok()
}

/// The version of the request that `payload` holds, when it holds a well-formed one.
pub fn request_of(payload: &[u8]) -> (r: Option<HTTPVersion>)
    ensures
        r == request_version(payload@),
{
    let head = match HTTPRequestHeaderView::try_from(payload) {
        Ok(h) => h,
        Err(_) => {
            return None;
        },
    };
    if !is_utf8(head.content) {
        return None;
    }
    if head.get_method().is_none() {
        return None;
    }
    if head.get_path().is_none() {
        return None;
    }
    head.get_version()
}

/// The body of the demonstration page.
pub const DEMO_BODY: &'static str = "<html><b>Hello</b> World !</html>";

/// The demonstration response to a request of version `version`: a 200 head that describes
/// `body`, then `body`.
pub fn demo_response(version: HTTPVersion, body: &str) -> (r: Vec<u8>)
    requires
        body.spec_bytes().len() <= 0xFFFF,
    ensures
        r@ == demo_bytes(version, body.spec_bytes()),
{
    let mut headers: Vec<(Vec<u8>, Vec<u8>)> = Vec::new();
    let mut len_digits: Vec<u8> = Vec::new();
    let bytes = body.as_bytes();
    push_decimal(&mut len_digits, bytes.len() as u64);
    let mut k1: Vec<u8> = Vec::new();
    push_str(&mut k1, "Content-Type");
    let mut v1: Vec<u8> = Vec::new();
    push_str(&mut v1, "text/html; charset=UTF-8");
    headers.push((k1, v1));
    let mut k2: Vec<u8> = Vec::new();
    push_str(&mut k2, "Content-Length");
    headers.push((k2, len_digits));
    let mut k3: Vec<u8> = Vec::new();
    push_str(&mut k3, "Connection");
    let mut v3: Vec<u8> = Vec::new();
    push_str(&mut v3, "close");
    headers.push((k3, v3));
    let mut reason: Vec<u8> = Vec::new();
    push_str(&mut reason, "OK");
    let head = HTTPResponseHeader { version, code: 200, reason, headers };
    let mut out: Vec<u8> = Vec::new();
    head.write_to(&mut out);
    push_all(&mut out, bytes);
    proof {
        let m = headers_model(head.headers@);
        let a = ("Content-Type".spec_bytes(), "text/html; charset=UTF-8".spec_bytes());
        let b = ("Content-Length".spec_bytes(), decimal(bytes@.len() as nat));
        let c = ("Connection".spec_bytes(), "close".spec_bytes());
        assert(m =~= seq![a, b, c]);
        assert(seq![a, b, c].drop_last() =~= seq![a, b]);
        assert(seq![a, b].drop_last() =~= seq![a]);
        assert(seq![a].drop_last() =~= Seq::<(Seq<u8>, Seq<u8>)>::empty());
        assert(header_lines(Seq::<(Seq<u8>, Seq<u8>)>::empty()) == Seq::<u8>::empty());
        assert(header_lines(seq![a]) == Seq::<u8>::empty() + header_line(a));
        assert(header_lines(seq![a, b]) == header_lines(seq![a]) + header_line(b));
        assert(header_lines(seq![a, b, c]) == header_lines(seq![a, b]) + header_line(c));
        assert(header_lines(m) =~= header_line(a) + header_line(b) + header_line(c));
    }
    assert(out@ =~= demo_bytes(version, body.spec_bytes()));
    out
}

} // verus!
