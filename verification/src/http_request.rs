use vstd::prelude::*;
use vstd::utf8::{decode_utf8, valid_utf8};

verus! {

/// The request methods the parser knows.
#[derive(Debug, Clone, Copy, PartialEq, Eq, Structural)]
pub enum Method {
    POST,
    GET,
}

/// The protocol versions the parser knows.
#[allow(non_camel_case_types)]
#[derive(Debug, Clone, Copy, PartialEq, Eq, Structural)]
pub enum Version {
    HTTP1_0,
    HTTP1_1,
}

/// Why a request was rejected.
#[derive(Debug, Clone, Copy, PartialEq, Eq, Structural)]
pub enum ParseError {
    MissingCRLF,
    InvalidRequest,
    InvalidMethod,
    InvalidTarget,
    InvalidVersion,
    InvalidHeader,
}

/// One header line.
#[derive(Debug)]
pub struct Header {
    pub name: String,
    pub value: String,
}

/// A parsed request; its text fields borrow from the raw bytes.
#[derive(Debug)]
pub struct Request<'a> {
    pub method: Method,
    pub path: &'a str,
    pub query: Option<&'a str>,
    pub version: Version,
    pub headers: Vec<Header>,
    pub body: Option<&'a [u8]>,
}

/// Whether a CR LF pair starts at `i`.
pub open spec fn crlf_at(b: Seq<u8>, i: int) -> bool {
    0 <= i && i + 1 < b.len() && b[i] == 13 && b[i + 1] == 10
}

/// Whether `i` is where the first CR LF pair starts.
pub open spec fn first_crlf(b: Seq<u8>, i: int) -> bool {
    crlf_at(b, i) && forall|j: int| 0 <= j < i ==> !crlf_at(b, j)
}

/// The bytes `u8::is_ascii_whitespace` accepts: space, tab, line feed, form
/// feed and carriage return.
pub open spec fn ascii_ws(c: u8) -> bool {
    c == 32 || c == 9 || c == 10 || c == 12 || c == 13
}

/// The pieces between whitespace bytes, as `<[u8]>::split` yields them: one
/// more piece than there are whitespace bytes, empty pieces included.
pub open spec fn split_ws(s: Seq<u8>) -> Seq<Seq<u8>>
    decreases s.len(),
{
    if s.len() == 0 {
        seq![Seq::empty()]
    } else {
        let prev = split_ws(s.drop_last());
        if ascii_ws(s.last()) {
            prev.push(Seq::empty())
        } else {
            prev.update(prev.len() - 1, prev.last().push(s.last()))
        }
    }
}

/// The method named by `w`, if any.
pub open spec fn method_of(w: Seq<u8>) -> Option<Method> {
    if w == seq![71u8, 69u8, 84u8] {
        Some(Method::GET)
    } else if w == seq![80u8, 79u8, 83u8, 84u8] {
        Some(Method::POST)
    } else {
        None
    }
}

/// The version named by `w`, if any.
pub open spec fn version_of(w: Seq<u8>) -> Option<Version> {
    if w == seq![72u8, 84u8, 84u8, 80u8, 47u8, 49u8, 46u8, 48u8] {
        Some(Version::HTTP1_0)
    } else if w == seq![72u8, 84u8, 84u8, 80u8, 47u8, 49u8, 46u8, 49u8] {
        Some(Version::HTTP1_1)
    } else {
        None
    }
}

/// Whether `i` is the position of the first `?` in `t`.
pub open spec fn first_question(t: Seq<u8>, i: int) -> bool {
    0 <= i < t.len() && t[i] == 63 && forall|j: int| 0 <= j < i ==> t[j] != 63
}

/// The path and the query of a request target: the target splits at its first
/// `?`, and has no query when it holds none.
pub open spec fn split_target(t: Seq<u8>) -> (Seq<u8>, Option<Seq<u8>>) {
    if exists|i: int| first_question(t, i) {
        let i = choose|i: int| first_question(t, i);
        (t.take(i), Some(t.skip(i + 1)))
    } else {
        (t, None)
    }
}

/// What the request line of `raw` yields: the method, the path bytes, the
/// query bytes and the version, or the error.
pub open spec fn request_line_spec(raw: Seq<u8>) -> Result<(Method, Seq<u8>, Option<Seq<u8>>, Version), ParseError> {
    if !exists|i: int| crlf_at(raw, i) {
        Err(ParseError::MissingCRLF)
    } else {
        let end = choose|i: int| first_crlf(raw, i);
        let words = split_ws(raw.take(end));
        if words.len() != 3 {
            Err(ParseError::InvalidRequest)
        } else if method_of(words[0]) is None {
            Err(ParseError::InvalidMethod)
        } else if version_of(words[2]) is None {
            Err(ParseError::InvalidVersion)
        } else {
            let (path, query) = split_target(words[1]);
            if !valid_utf8(path) {
                Err(ParseError::InvalidTarget)
            } else if query matches Some(q) && !valid_utf8(q) {
                Err(ParseError::InvalidTarget)
            } else {
                Ok((method_of(words[0])->0, path, query, version_of(words[2])->0))
            }
        }
    }
}

/// Whether `c` is optional whitespace around a header value: space or tab.
pub open spec fn ows(c: u8) -> bool {
    c == 32 || c == 9
}

/// `s` without its leading spaces and tabs.
pub open spec fn trim_start_ows(s: Seq<u8>) -> Seq<u8>
    decreases s.len(),
{
    if s.len() > 0 && ows(s[0]) {
        trim_start_ows(s.drop_first())
    } else {
        s
    }
}

/// `s` without its trailing spaces and tabs.
pub open spec fn trim_end_ows(s: Seq<u8>) -> Seq<u8>
    decreases s.len(),
{
    if s.len() > 0 && ows(s.last()) {
        trim_end_ows(s.drop_last())
    } else {
        s
    }
}

/// Whether `i` is the position of the first `:` in `line`.
pub open spec fn first_colon(line: Seq<u8>, i: int) -> bool {
    0 <= i < line.len() && line[i] == 58 && forall|j: int| 0 <= j < i ==> line[j] != 58
}

/// The name and the value of a header line: the name is what comes before
/// the first `:` and must not be empty, the value is what follows it without
/// surrounding spaces and tabs; both must be UTF-8. `None` for a line that is
/// no header.
pub open spec fn header_of(line: Seq<u8>) -> Option<(Seq<u8>, Seq<u8>)> {
    if exists|i: int| first_colon(line, i) {
        let i = choose|i: int| first_colon(line, i);
        let name = line.take(i);
        let value = trim_end_ows(trim_start_ows(line.skip(i + 1)));
        if name.len() > 0 && valid_utf8(name) && valid_utf8(value) {
            Some((name, value))
        } else {
            None
        }
    } else {
        None
    }
}

/// Whether `i` is where the first CR LF pair at or after `start` begins.
pub open spec fn first_crlf_from(b: Seq<u8>, start: int, i: int) -> bool {
    start <= i && crlf_at(b, i) && forall|j: int| start <= j < i ==> !crlf_at(b, j)
}

/// The header lines of `raw` from position `start` up to the blank line, and
/// the body after it: each line ends with CR LF (the last one may end with the
/// input instead), a line that is no header is an error, and the body is what
/// follows the blank line when anything does.
pub open spec fn header_lines(raw: Seq<u8>, start: int) -> Result<(Seq<(Seq<u8>, Seq<u8>)>, Option<Seq<u8>>), ParseError>
    decreases raw.len() - start,
{
    if start < 0 || start >= raw.len() {
        Ok((Seq::empty(), None))
    } else if crlf_at(raw, start) {
        Ok((Seq::empty(), if start + 2 < raw.len() { Some(raw.skip(start + 2)) } else { None }))
    } else if exists|i: int| first_crlf_from(raw, start, i) {
        let i = choose|i: int| first_crlf_from(raw, start, i);
        match header_of(raw.subrange(start, i)) {
            None => Err(ParseError::InvalidHeader),
            Some(h) => match header_lines(raw, i + 2) {
                Ok((hs, body)) => Ok((seq![h] + hs, body)),
                Err(e) => Err(e),
            },
        }
    } else {
        match header_of(raw.skip(start)) {
            None => Err(ParseError::InvalidHeader),
            Some(h) => Ok((seq![h], None)),
        }
    }
}

/// `r` with the headers `hs` put in front of its headers.
pub open spec fn prepend_headers(
    hs: Seq<(Seq<u8>, Seq<u8>)>,
    r: Result<(Seq<(Seq<u8>, Seq<u8>)>, Option<Seq<u8>>), ParseError>,
) -> Result<(Seq<(Seq<u8>, Seq<u8>)>, Option<Seq<u8>>), ParseError> {
    match r {
        Ok((t, body)) => Ok((hs + t, body)),
        Err(e) => Err(e),
    }
}

/// What parsing `raw` yields: the method, the path bytes, the query bytes,
/// the version, the header names and values and the body bytes, or the error.
/// The request line is checked first, then the headers.
pub open spec fn parse_spec(raw: Seq<u8>) -> Result<
    (Method, Seq<u8>, Option<Seq<u8>>, Version, Seq<(Seq<u8>, Seq<u8>)>, Option<Seq<u8>>),
    ParseError,
> {
    match request_line_spec(raw) {
        Err(e) => Err(e),
        Ok((m, p, q, v)) => {
            let end = choose|i: int| first_crlf(raw, i);
            match header_lines(raw, end + 2) {
                Err(e) => Err(e),
                Ok((hs, body)) => Ok((m, p, q, v, hs, body)),
            }
        },
    }
}

/// The first CR LF pair is unique.
proof fn lemma_first_crlf_unique(b: Seq<u8>, i: int, j: int)
    requires
        first_crlf(b, i),
        first_crlf(b, j),
    ensures
        i == j,
{
    if i < j {
        assert(!crlf_at(b, i));
    } else if j < i {
        assert(!crlf_at(b, j));
    }
}

/// Law (the request line alone decides method, target and version): two
/// requests that agree up to and including their first CR LF have the same
/// request-line result, whatever headers and body follow.
pub proof fn lemma_parse_reads_request_line_only(raw1: Seq<u8>, raw2: Seq<u8>, i: int)
    requires
        first_crlf(raw1, i),
        raw2.len() >= i + 2,
        raw2.take(i + 2) == raw1.take(i + 2),
    ensures
        request_line_spec(raw1) == request_line_spec(raw2),
{
    assert(raw1.len() >= i + 2);
    assert forall|j: int| 0 <= j < i + 2 implies raw2[j] == raw1[j] by {
        let t1 = raw1.take(i + 2);
        let t2 = raw2.take(i + 2);
        assert(t1[j] == raw1[j]);
        assert(t2[j] == raw2[j]);
        assert(t1[j] == t2[j]);
    }
    assert(crlf_at(raw2, i));
    assert forall|j: int| 0 <= j < i implies !crlf_at(raw2, j) by {
        assert(!crlf_at(raw1, j));
    }
    assert(first_crlf(raw2, i));
    let e1 = choose|k: int| first_crlf(raw1, k);
    let e2 = choose|k: int| first_crlf(raw2, k);
    lemma_first_crlf_unique(raw1, e1, i);
    lemma_first_crlf_unique(raw2, e2, i);
    assert(raw1.take(i) =~= raw2.take(i));
}

/// `u8::is_ascii_whitespace`: the documentation lists space, tab, line feed,
/// form feed and carriage return.
#[verifier::external_body]
fn is_ascii_whitespace(c: u8) -> (ws: bool)
    ensures
        ws == ascii_ws(c),
{
    c.is_ascii_whitespace()
}

/// `std::str::from_utf8`: the documentation states it succeeds exactly on
/// valid UTF-8, and the text is then the decoding of the bytes.
#[verifier::external_body]
fn str_from_utf8<'a>(bytes: &'a [u8]) -> (s: Option<&'a str>)
    ensures
        s is Some <==> valid_utf8(bytes@),
        s matches Some(t) ==> t@ == decode_utf8(bytes@),
{
    std::str::from_utf8(bytes).ok()
}

/// The first CR LF pair: its position, or `None`.
fn find_crlf(raw: &[u8]) -> (pos: Option<usize>)
    ensures
        pos matches Some(i) ==> first_crlf(raw@, i as int),
        pos is None ==> forall|i: int| !crlf_at(raw@, i),
{
    let n = raw.len();
    let mut i: usize = 0;
    while n - i > 1
        invariant
            i <= n,
            n == raw@.len(),
            forall|j: int| 0 <= j < i ==> !crlf_at(raw@, j),
        decreases n - i,
    {
        if raw[i] == 13 && raw[i + 1] == 10 {
            return Some(i);
        }
        i += 1;
    }
    assert forall|j: int| !crlf_at(raw@, j) by {
        if 0 <= j && j >= i as int {
        }
    }
    None
}

/// The sequence of sub-slices named by `ranges`.
pub open spec fn pieces_of(line: Seq<u8>, ranges: Seq<(usize, usize)>) -> Seq<Seq<u8>> {
    ranges.map_values(|r: (usize, usize)| line.subrange(r.0 as int, r.1 as int))
}

/// The bounds of the pieces of `line` between whitespace bytes.
fn split_whitespace_ranges(line: &[u8]) -> (ranges: Vec<(usize, usize)>)
    ensures
        pieces_of(line@, ranges@) == split_ws(line@),
        forall|k: int| 0 <= k < ranges@.len() ==> #[trigger] ranges@[k].0 <= ranges@[k].1 <= line@.len(),
{
    let n = line.len();
    let mut ranges: Vec<(usize, usize)> = Vec::new();
    let mut start: usize = 0;
    let mut i: usize = 0;
    assert(line@.take(0) =~= Seq::<u8>::empty());
    assert(pieces_of(line@, ranges@).push(line@.subrange(0, 0)) =~= split_ws(line@.take(0)));
    while i < n
        invariant
            n == line@.len(),
            start <= i <= n,
            forall|k: int| 0 <= k < ranges@.len() ==> #[trigger] ranges@[k].0 <= ranges@[k].1 <= n,
            pieces_of(line@, ranges@).push(line@.subrange(start as int, i as int)) == split_ws(
                line@.take(i as int),
            ),
        decreases n - i,
    {
        let ghost prev_pieces = pieces_of(line@, ranges@);
        assert(line@.take(i + 1).drop_last() =~= line@.take(i as int));
        assert(line@.take(i + 1).last() == line@[i as int]);
        if is_ascii_whitespace(line[i]) {
            let ghost old_ranges = ranges@;
            ranges.push((start, i));
            assert forall|k: int| 0 <= k < ranges@.len() implies #[trigger] ranges@[k].0 <= ranges@[k].1
                <= n by {
                if k < old_ranges.len() {
                    assert(ranges@[k] == old_ranges[k]);
                }
            }
            assert(pieces_of(line@, ranges@) =~= prev_pieces.push(line@.subrange(start as int, i as int)));
            start = i + 1;
            assert(line@.subrange(start as int, i + 1) =~= Seq::<u8>::empty());
            assert(pieces_of(line@, ranges@).push(line@.subrange(start as int, i + 1)) =~= split_ws(
                line@.take(i + 1),
            ));
        } else {
            assert(line@.subrange(start as int, i + 1) =~= line@.subrange(start as int, i as int).push(
                line@[i as int],
            ));
            assert(pieces_of(line@, ranges@).push(line@.subrange(start as int, i + 1)) =~= split_ws(
                line@.take(i + 1),
            ));
        }
        i += 1;
    }
    ranges.push((start, n));
    assert(line@.take(n as int) =~= line@);
    assert(pieces_of(line@, ranges@) =~= split_ws(line@));
    ranges
}

/// Whether `w` holds exactly the bytes `lit`.
fn bytes_equal(w: &[u8], lit: &[u8]) -> (eq: bool)
    ensures
        eq == (w@ == lit@),
{
    if w.len() != lit.len() {
        return false;
    }
    let mut i: usize = 0;
    while i < w.len()
        invariant
            w@.len() == lit@.len(),
            forall|j: int| 0 <= j < i ==> w@[j] == lit@[j],
        decreases w@.len() - i,
    {
        if w[i] != lit[i] {
            return false;
        }
        i += 1;
    }
    assert(w@ =~= lit@);
    true
}

/// Recognises the method word.
fn parse_method(w: &[u8]) -> (m: Option<Method>)
    ensures
        m == method_of(w@),
{
    let get: [u8; 3] = [71, 69, 84];
    let post: [u8; 4] = [80, 79, 83, 84];
    assert(get@ =~= seq![71u8, 69u8, 84u8]);
    assert(post@ =~= seq![80u8, 79u8, 83u8, 84u8]);
    if bytes_equal(w, get.as_slice()) {
        Some(Method::GET)
    } else if bytes_equal(w, post.as_slice()) {
        Some(Method::POST)
    } else {
        None
    }
}

/// Recognises the version word.
fn parse_version(w: &[u8]) -> (v: Option<Version>)
    ensures
        v == version_of(w@),
{
    let v10: [u8; 8] = [72, 84, 84, 80, 47, 49, 46, 48];
    let v11: [u8; 8] = [72, 84, 84, 80, 47, 49, 46, 49];
    assert(v10@ =~= seq![72u8, 84u8, 84u8, 80u8, 47u8, 49u8, 46u8, 48u8]);
    assert(v11@ =~= seq![72u8, 84u8, 84u8, 80u8, 47u8, 49u8, 46u8, 49u8]);
    if bytes_equal(w, v10.as_slice()) {
        Some(Version::HTTP1_0)
    } else if bytes_equal(w, v11.as_slice()) {
        Some(Version::HTTP1_1)
    } else {
        None
    }
}

/// The position of the first `?`, or `None`.
fn find_question(t: &[u8]) -> (pos: Option<usize>)
    ensures
        pos matches Some(i) ==> first_question(t@, i as int),
        pos is None ==> !exists|i: int| first_question(t@, i),
{
    let mut i: usize = 0;
    while i < t.len()
        invariant
            forall|j: int| 0 <= j < i ==> t@[j] != 63,
        decreases t@.len() - i,
    {
        if t[i] == 63 {
            return Some(i);
        }
        i += 1;
    }
    None
}

/// The first CR LF pair at or after `start`: its position, or `None`.
fn find_crlf_from(raw: &[u8], start: usize) -> (pos: Option<usize>)
    requires
        start <= raw@.len(),
    ensures
        pos matches Some(i) ==> first_crlf_from(raw@, start as int, i as int),
        pos is None ==> forall|i: int| start <= i ==> !crlf_at(raw@, i),
{
    let n = raw.len();
    let mut i: usize = start;
    while n - i > 1
        invariant
            start <= i <= n,
            n == raw@.len(),
            forall|j: int| start <= j < i ==> !crlf_at(raw@, j),
        decreases n - i,
    {
        if raw[i] == 13 && raw[i + 1] == 10 {
            return Some(i);
        }
        i += 1;
    }
    assert forall|j: int| start <= j implies !crlf_at(raw@, j) by {
        if j >= i as int {
        }
    }
    None
}

/// The first CR LF pair from a position is unique.
proof fn lemma_first_crlf_from_unique(b: Seq<u8>, start: int, i: int, j: int)
    requires
        first_crlf_from(b, start, i),
        first_crlf_from(b, start, j),
    ensures
        i == j,
{
    if i < j {
        assert(!crlf_at(b, i));
    } else if j < i {
        assert(!crlf_at(b, j));
    }
}

/// The position of the first `:`, or `None`.
fn find_colon(t: &[u8]) -> (pos: Option<usize>)
    ensures
        pos matches Some(i) ==> first_colon(t@, i as int),
        pos is None ==> !exists|i: int| first_colon(t@, i),
{
    let mut i: usize = 0;
    while i < t.len()
        invariant
            forall|j: int| 0 <= j < i ==> t@[j] != 58,
        decreases t@.len() - i,
    {
        if t[i] == 58 {
            return Some(i);
        }
        i += 1;
    }
    None
}

/// Parses one header line into its name and value.
fn parse_header(line: &[u8]) -> (h: Option<Header>)
    ensures
        match header_of(line@) {
            None => h is None,
            Some((name, value)) => h matches Some(hd) && hd.name@ == decode_utf8(name)
                && hd.value@ == decode_utf8(value),
        },
{
    let n = line.len();
    let colon = match find_colon(line) {
        Some(c) => c,
        None => {
            return None;
        },
    };
    proof {
        let c = choose|i: int| first_colon(line@, i);
        if c < colon {
            assert(line@[c] == 58);
        } else if c > colon {
            assert(line@[colon as int] == 58);
        }
    }
    let mut i: usize = colon + 1;
    assert(line@.subrange(i as int, n as int) =~= line@.skip(colon + 1));
    while i < n && (line[i] == 32 || line[i] == 9)
        invariant
            colon < i <= n,
            n == line@.len(),
            trim_start_ows(line@.skip(colon + 1)) == trim_start_ows(line@.subrange(i as int, n as int)),
        decreases n - i,
    {
        assert(line@.subrange(i as int, n as int).drop_first() =~= line@.subrange(i + 1, n as int));
        i += 1;
    }
    let mut j: usize = n;
    while j > i && (line[j - 1] == 32 || line[j - 1] == 9)
        invariant
            colon < i <= j <= n,
            n == line@.len(),
            i < n ==> !ows(line@[i as int]),
            trim_end_ows(trim_start_ows(line@.skip(colon + 1))) == trim_end_ows(
                line@.subrange(i as int, j as int),
            ),
        decreases j - i,
    {
        assert(line@.subrange(i as int, j as int).drop_last() =~= line@.subrange(i as int, j - 1));
        j -= 1;
    }
    if colon == 0 {
        return None;
    }
    let name_bytes = &line[0..colon];
    let value_bytes = &line[i..j];
    assert(name_bytes@ =~= line@.take(colon as int));
    let name = match str_from_utf8(name_bytes) {
        Some(s) => s,
        None => {
            return None;
        },
    };
    let value = match str_from_utf8(value_bytes) {
        Some(s) => s,
        None => {
            return None;
        },
    };
    Some(Header { name: name.to_owned(), value: value.to_owned() })
}

/// The body bytes, as a sequence, if any.
pub open spec fn body_bytes(body: Option<&[u8]>) -> Option<Seq<u8>> {
    match body {
        Some(b) => Some(b@),
        None => None,
    }
}

/// Whether the parsed headers carry the names and values `hs`, decoded, in order.
pub open spec fn headers_match(headers: Seq<Header>, hs: Seq<(Seq<u8>, Seq<u8>)>) -> bool {
    &&& headers.len() == hs.len()
    &&& forall|k: int|
        0 <= k < hs.len() ==> #[trigger] headers[k].name@ == decode_utf8(hs[k].0)
            && headers[k].value@ == decode_utf8(hs[k].1)
}

/// Appending a parsed header and its bytes keeps the two lists matched.
proof fn lemma_headers_push(headers: Seq<Header>, h: Header, hs: Seq<(Seq<u8>, Seq<u8>)>, hb: (Seq<u8>, Seq<u8>))
    requires
        headers_match(headers, hs),
        h.name@ == decode_utf8(hb.0),
        h.value@ == decode_utf8(hb.1),
    ensures
        headers_match(headers.push(h), hs.push(hb)),
{
    assert forall|k: int| 0 <= k < hs.len() + 1 implies #[trigger] headers.push(h)[k].name@
        == decode_utf8(hs.push(hb)[k].0) && headers.push(h)[k].value@ == decode_utf8(
        hs.push(hb)[k].1,
    ) by {
        if k < hs.len() {
            assert(headers.push(h)[k] == headers[k]);
            assert(hs.push(hb)[k] == hs[k]);
            assert(headers[k].name@ == decode_utf8(hs[k].0));
        } else {
            assert(headers.push(h)[k] == h);
            assert(hs.push(hb)[k] == hb);
        }
    }
}

impl<'a> Request<'a> {
    /// Parses a raw HTTP request: the request line (method, target with path
    /// and optional query, version), then the header lines up to the blank
    /// line, then the body, which is everything after the blank line.
    pub fn parse(raw_request_bytes: &'a [u8]) -> (result: Result<Request<'a>, ParseError>)
        ensures
            match (result, parse_spec(raw_request_bytes@)) {
                (Err(e), Err(f)) => e == f,
                (Ok(req), Ok((m, p, q, v, hs, b))) => {
                    &&& req.method == m
                    &&& req.path@ == decode_utf8(p)
                    &&& (q matches Some(qb) ==> req.query matches Some(s) && s@ == decode_utf8(qb))
                    &&& (q is None ==> req.query is None)
                    &&& req.version == v
                    &&& headers_match(req.headers@, hs)
                    &&& body_bytes(req.body) == b
                },
                _ => false,
            },
    {
        let line_end = match find_crlf(raw_request_bytes) {
            Some(i) => i,
            None => {
                return Err(ParseError::MissingCRLF);
            },
        };
        proof {
            let end = choose|i: int| first_crlf(raw_request_bytes@, i);
            if end < line_end {
                assert(!crlf_at(raw_request_bytes@, end));
            } else if end > line_end {
                assert(!crlf_at(raw_request_bytes@, line_end as int));
            }
            assert(end == line_end);
        }
        let request_line = &raw_request_bytes[0..line_end];
        assert(request_line@ == raw_request_bytes@.take(line_end as int));
        let ranges = split_whitespace_ranges(request_line);
        if ranges.len() != 3 {
            return Err(ParseError::InvalidRequest);
        }
        let ghost words = split_ws(request_line@);
        let method_bytes = &request_line[ranges[0].0..ranges[0].1];
        let target_bytes = &request_line[ranges[1].0..ranges[1].1];
        let version_bytes = &request_line[ranges[2].0..ranges[2].1];
        assert(method_bytes@ == words[0]);
        assert(target_bytes@ == words[1]);
        assert(version_bytes@ == words[2]);
        let method = match parse_method(method_bytes) {
            Some(m) => m,
            None => {
                return Err(ParseError::InvalidMethod);
            },
        };
        let version = match parse_version(version_bytes) {
            Some(v) => v,
            None => {
                return Err(ParseError::InvalidVersion);
            },
        };
        let (path_bytes, query_bytes) = match find_question(target_bytes) {
            Some(q) => {
                let tail = &target_bytes[q + 1..target_bytes.len()];
                (&target_bytes[0..q], Some(tail))
            },
            None => (target_bytes, None),
        };
        proof {
            let t = target_bytes@;
            if exists|i: int| first_question(t, i) {
                let i = choose|i: int| first_question(t, i);
                let q = path_bytes@.len() as int;
                if i < q {
                    assert(t[i] == 63);
                } else if i > q {
                    assert(t[q] == 63);
                }
                assert(path_bytes@ =~= t.take(i));
            }
        }
        let path = match str_from_utf8(path_bytes) {
            Some(p) => p,
            None => {
                return Err(ParseError::InvalidTarget);
            },
        };
        let query = match query_bytes {
            Some(qb) => match str_from_utf8(qb) {
                Some(s) => Some(s),
                None => {
                    return Err(ParseError::InvalidTarget);
                },
            },
            None => None,
        };
        let n = raw_request_bytes.len();
        let ghost start0 = line_end + 2;
        let mut headers: Vec<Header> = Vec::new();
        let ghost mut hs: Seq<(Seq<u8>, Seq<u8>)> = Seq::empty();
        let mut pos: usize = line_end + 2;
        let mut body: Option<&'a [u8]> = None;
        let mut done = false;
        let mut failed = false;
        assert(hs + Seq::<(Seq<u8>, Seq<u8>)>::empty() =~= hs);
        while !done
            invariant
                n == raw_request_bytes@.len(),
                start0 <= pos <= n,
                headers_match(headers@, hs),
                !done ==> header_lines(raw_request_bytes@, start0) == prepend_headers(
                    hs,
                    header_lines(raw_request_bytes@, pos as int),
                ),
                !done ==> !failed,
                !done ==> body is None,
                done && failed ==> header_lines(raw_request_bytes@, start0) is Err,
                done && !failed ==> header_lines(raw_request_bytes@, start0) == Ok::<
                    (Seq<(Seq<u8>, Seq<u8>)>, Option<Seq<u8>>),
                    ParseError,
                >((hs, body_bytes(body))),
                done && failed ==> header_lines(raw_request_bytes@, start0) == Err::<
                    (Seq<(Seq<u8>, Seq<u8>)>, Option<Seq<u8>>),
                    ParseError,
                >(ParseError::InvalidHeader),
            decreases n - pos + (if done {
                0int
            } else {
                1int
            }),
        {
            let ghost raw = raw_request_bytes@;
            if pos >= n {
                done = true;
                assert(hs + Seq::<(Seq<u8>, Seq<u8>)>::empty() =~= hs);
            } else if pos + 1 < n && raw_request_bytes[pos] == 13 && raw_request_bytes[pos + 1] == 10 {
                if pos + 2 < n {
                    let rest = &raw_request_bytes[pos + 2..n];
                    assert(rest@ =~= raw.skip(pos + 2));
                    body = Some(rest);
                }
                done = true;
                assert(hs + Seq::<(Seq<u8>, Seq<u8>)>::empty() =~= hs);
            } else {
                match find_crlf_from(raw_request_bytes, pos) {
                    Some(i) => {
                        proof {
                            let c = choose|c: int| first_crlf_from(raw, pos as int, c);
                            lemma_first_crlf_from_unique(raw, pos as int, c, i as int);
                        }
                        let line = &raw_request_bytes[pos..i];
                        assert(line@ =~= raw.subrange(pos as int, i as int));
                        match parse_header(line) {
                            None => {
                                failed = true;
                                done = true;
                            },
                            Some(h) => {
                                let ghost hb = header_of(line@)->0;
                                let ghost rest_lines = header_lines(raw, i + 2);
                                let ghost old_headers = headers@;
                                headers.push(h);
                                proof {
                                    lemma_headers_push(old_headers, h, hs, hb);
                                    assert(prepend_headers(hs, prepend_headers(seq![hb], rest_lines))
                                        == prepend_headers(hs.push(hb), rest_lines)) by {
                                        match rest_lines {
                                            Ok((t, b)) => {
                                                assert(hs + (seq![hb] + t) =~= hs.push(hb) + t);
                                            },
                                            Err(e) => {},
                                        }
                                    }
                                    hs = hs.push(hb);
                                }
                                pos = i + 2;
                            },
                        }
                    },
                    None => {
                        let line = &raw_request_bytes[pos..n];
                        assert(line@ =~= raw.skip(pos as int));
                        match parse_header(line) {
                            None => {
                                failed = true;
                                done = true;
                            },
                            Some(h) => {
                                let ghost hb = header_of(line@)->0;
                                let ghost old_headers = headers@;
                                headers.push(h);
                                proof {
                                    assert(hs + seq![hb] =~= hs.push(hb));
                                    lemma_headers_push(old_headers, h, hs, hb);
                                    hs = hs.push(hb);
                                }
                                done = true;
                            },
                        }
                    },
                }
            }
        }
        if failed {
            return Err(ParseError::InvalidHeader);
        }
        Ok(Request { method, path, query, version, headers, body })
    }
}

} // verus!
