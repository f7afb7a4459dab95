//! The request router: reads the head of an HTTP request and says whether it
//! asks for the WebSocket upgrade or for a static resource.

use crate::handshake::{HandshakeRequest, MAX_KEY_LENGTH};
use vstd::prelude::*;
use vstd::slice::{slice_subrange, slice_to_vec};
use vstd::string::*;

verus! {

/// Whether `pattern` stands in `s` at index `at`.
pub open spec fn occurs_at(s: Seq<u8>, at: int, pattern: Seq<u8>) -> bool {
    0 <= at && at + pattern.len() <= s.len() && s.subrange(at, at + pattern.len()) == pattern
}

/// The index of the first line feed at or after `from`, or the length of `s`
/// where there is none.
pub open spec fn line_end(s: Seq<u8>, from: int) -> int
    decreases s.len() - from,
{
    if from >= s.len() {
        s.len() as int
    } else if s[from] == 10 {
        from
    } else {
        line_end(s, from + 1)
    }
}

/// The line that starts at `from`: the bytes up to the next line feed,
/// without the carriage return that may stand right before that line feed.
pub open spec fn line_at(s: Seq<u8>, from: int) -> Seq<u8> {
    let end = line_end(s, from);
    if from < end < s.len() && s[end - 1] == 13 {
        s.subrange(from, end - 1)
    } else {
        s.subrange(from, end)
    }
}

/// Whether a line starts at index `at`.
pub open spec fn at_line_start(s: Seq<u8>, at: int) -> bool {
    at == 0 || (0 < at <= s.len() && s[at - 1] == 10)
}

/// An ASCII letter in lower case, any other byte as it is.
pub open spec fn fold_case(b: u8) -> u8 {
    if 65 <= b <= 90 {
        (b + 32) as u8
    } else {
        b
    }
}

/// Whether `line` starts with `name`, the case of ASCII letters ignored.
pub open spec fn has_name(line: Seq<u8>, name: Seq<u8>) -> bool {
    line.len() >= name.len() && forall|i: int|
        0 <= i < name.len() ==> fold_case(#[trigger] line[i]) == fold_case(name[i])
}

/// ASCII white space: the space and the control characters from tab to
/// carriage return.
pub open spec fn is_space(b: u8) -> bool {
    b == 32 || 9 <= b <= 13
}

/// The index of the first byte at or after `from` that is no white space.
pub open spec fn skip_spaces(s: Seq<u8>, from: int) -> int
    decreases s.len() - from,
{
    if from < s.len() && is_space(s[from]) {
        skip_spaces(s, from + 1)
    } else {
        from
    }
}

/// The index of the first white space at or after `from`.
pub open spec fn token_end(s: Seq<u8>, from: int) -> int
    decreases s.len() - from,
{
    if from < s.len() && !is_space(s[from]) {
        token_end(s, from + 1)
    } else {
        from
    }
}

/// The value of a header line whose name is `name_len` bytes long: the first
/// run of bytes after the name that holds no white space.
pub open spec fn header_token(line: Seq<u8>, name_len: int) -> Seq<u8> {
    let start = skip_spaces(line, name_len);
    line.subrange(start, token_end(line, start))
}

/// The first line that starts at or after index `from` and has the name
/// `name`.
pub open spec fn find_header(s: Seq<u8>, from: int, name: Seq<u8>) -> Option<Seq<u8>>
    decreases s.len() - from,
{
    if from >= s.len() {
        None
    } else if at_line_start(s, from) && has_name(line_at(s, from), name) {
        Some(line_at(s, from))
    } else {
        find_header(s, from + 1, name)
    }
}

/// The path that a request line asks for: the line is `GET`, a space, the
/// path, a space and `HTTP/1.1`, and the path is not empty and holds no
/// space.
pub open spec fn request_path(line: Seq<u8>) -> Option<Seq<u8>> {
    let method = "GET ".spec_bytes();
    let version = " HTTP/1.1".spec_bytes();
    let path = line.subrange(method.len() as int, line.len() - version.len());
    if line.len() > method.len() + version.len() && occurs_at(line, 0, method) && occurs_at(
        line,
        line.len() - version.len(),
        version,
    ) && forall|i: int| 0 <= i < path.len() ==> #[trigger] path[i] != 32 {
        Some(path)
    } else {
        None
    }
}

/// Whether the request holds the empty line that ends its head.
pub open spec fn head_complete(request: Seq<u8>) -> bool {
    exists|at: int| occurs_at(request, at, "\r\n\r\n".spec_bytes())
}

/// The path on which the endpoint offers the upgrade.
pub open spec fn upgrade_path() -> Seq<u8> {
    "/websocketme".spec_bytes()
}

/// The name of the header that carries the client's key, with its colon.
pub open spec fn key_header() -> Seq<u8> {
    "Sec-WebSocket-Key:".spec_bytes()
}

/// Where a request goes.
#[derive(Clone, Debug, PartialEq, Eq)]
pub enum Route {
    /// A request for the upgrade, with the client's key.
    Upgrade(HandshakeRequest),
    /// A request for the static resource at this path.
    Static(Vec<u8>),
    /// A request whose first line asks for no path.
    NotFound,
}

/// A route as a mathematical value.
pub enum RouteView {
    Upgrade(Seq<u8>),
    Static(Seq<u8>),
    NotFound,
}

impl View for Route {
    type V = RouteView;

    open spec fn view(&self) -> RouteView {
        match self {
            Route::Upgrade(request) => RouteView::Upgrade(request@),
            Route::Static(path) => RouteView::Static(path@),
            Route::NotFound => RouteView::NotFound,
        }
    }
}

/// The key with which a request asks for the upgrade: the value of the first
/// key header on a line after the first, where there is such a header and
/// its value is not empty and not longer than `MAX_KEY_LENGTH`.
pub open spec fn upgrade_key(request: Seq<u8>) -> Option<Seq<u8>> {
    match find_header(request, line_end(request, 0) + 1, key_header()) {
        None => None,
        Some(line) => {
            let key = header_token(line, key_header().len() as int);
            if 0 < key.len() <= MAX_KEY_LENGTH {
                Some(key)
            } else {
                None
            }
        },
    }
}

/// Where a request goes. A first line that asks for no path leads nowhere.
/// The upgrade is given to a request for the upgrade path that brings a
/// key. Every other request goes to the static side with its path: so does
/// a request for the upgrade path without a key, which is thereby refused
/// the upgrade and answered as the static side answers that path.
pub open spec fn route_spec(request: Seq<u8>) -> RouteView {
    match request_path(line_at(request, 0)) {
        None => RouteView::NotFound,
        Some(path) => match upgrade_key(request) {
            Some(key) if path == upgrade_path() => RouteView::Upgrade(key),
            _ => RouteView::Static(path),
        },
    }
}

/// Says whether `pattern` stands in `buf` at index `at`.
pub fn matches_at(buf: &[u8], at: usize, pattern: &[u8]) -> (found: bool)
    ensures
        found == occurs_at(buf@, at as int, pattern@),
{
    if at > buf.len() || pattern.len() > buf.len() - at {
        return false;
    }
    let ghost window = buf@.subrange(at as int, at + pattern@.len());
    let mut i: usize = 0;
    while i < pattern.len()
        invariant
            at + pattern@.len() <= buf@.len() <= usize::MAX,
            i <= pattern@.len(),
            window == buf@.subrange(at as int, at + pattern@.len()),
            forall|j: int| 0 <= j < i ==> window[j] == pattern@[j],
        decreases pattern@.len() - i,
    {
        if buf[at + i] != pattern[i] {
            return false;
        }
        i += 1;
    }
    assert(window =~= pattern@);
    true
}

/// Finds the end of the line that starts at `from`.
fn find_line_end(buf: &[u8], from: usize) -> (end: usize)
    ensures
        end == line_end(buf@, from as int),
        from <= buf@.len() ==> from <= end <= buf@.len(),
{
    let mut end: usize = from;
    while end < buf.len() && buf[end] != 10
        invariant
            from <= end,
            line_end(buf@, from as int) == line_end(buf@, end as int),
        decreases buf@.len() - end,
    {
        end += 1;
    }
    if end > buf.len() {
        buf.len()
    } else {
        end
    }
}

/// Borrows the line that starts at `from`.
fn take_line(buf: &[u8], from: usize) -> (line: &[u8])
    requires
        from <= buf@.len(),
    ensures
        line@ == line_at(buf@, from as int),
{
    let end: usize = find_line_end(buf, from);
    if from < end && end < buf.len() && buf[end - 1] == 13 {
        slice_subrange(buf, from, end - 1)
    } else {
        slice_subrange(buf, from, end)
    }
}

/// Folds an ASCII letter to lower case.
fn fold_byte(b: u8) -> (folded: u8)
    ensures
        folded == fold_case(b),
{
    if 65 <= b && b <= 90 {
        b + 32
    } else {
        b
    }
}

/// Says whether `line` starts with `name`, the case of ASCII letters
/// ignored.
fn line_has_name(line: &[u8], name: &[u8]) -> (found: bool)
    ensures
        found == has_name(line@, name@),
{
    if line.len() < name.len() {
        return false;
    }
    let mut i: usize = 0;
    while i < name.len()
        invariant
            name@.len() <= line@.len(),
            i <= name@.len(),
            forall|j: int| 0 <= j < i ==> fold_case(#[trigger] line@[j]) == fold_case(name@[j]),
        decreases name@.len() - i,
    {
        if fold_byte(line[i]) != fold_byte(name[i]) {
            return false;
        }
        i += 1;
    }
    true
}

/// Says whether a byte is ASCII white space.
fn byte_is_space(b: u8) -> (space: bool)
    ensures
        space == is_space(b),
{
    b == 32 || (9 <= b && b <= 13)
}

/// Copies the value of a header line whose name is `name_len` bytes long.
fn take_token(line: &[u8], name_len: usize) -> (token: Vec<u8>)
    requires
        name_len <= line@.len(),
    ensures
        token@ == header_token(line@, name_len as int),
{
    let mut start: usize = name_len;
    while start < line.len() && byte_is_space(line[start])
        invariant
            name_len <= start <= line@.len(),
            skip_spaces(line@, name_len as int) == skip_spaces(line@, start as int),
        decreases line@.len() - start,
    {
        start += 1;
    }
    let mut end: usize = start;
    while end < line.len() && !byte_is_space(line[end])
        invariant
            start <= end <= line@.len(),
            token_end(line@, start as int) == token_end(line@, end as int),
        decreases line@.len() - end,
    {
        end += 1;
    }
    slice_to_vec(slice_subrange(line, start, end))
}

/// Finds the first line at or after `from` that has the name `name`.
fn find_header_line<'a>(buf: &'a [u8], from: usize, name: &[u8]) -> (found: Option<&'a [u8]>)
    ensures
        match find_header(buf@, from as int, name@) {
            Some(line) => found matches Some(slice) && slice@ == line,
            None => found is None,
        },
        found matches Some(slice) ==> has_name(slice@, name@),
{
    let mut at: usize = from;
    while at < buf.len()
        invariant
            from <= at,
            find_header(buf@, from as int, name@) == find_header(buf@, at as int, name@),
        decreases buf@.len() - at,
    {
        if at == 0 || buf[at - 1] == 10 {
            let line: &[u8] = take_line(buf, at);
            if line_has_name(line, name) {
                return Some(line);
            }
        }
        at += 1;
    }
    None
}

/// Reads a request line and gives the path that it asks for.
pub fn parse_request_line(line: &[u8]) -> (path: Option<Vec<u8>>)
    ensures
        match request_path(line@) {
            Some(wanted) => path matches Some(found) && found@ == wanted,
            None => path is None,
        },
{
    let method: &[u8] = "GET ".as_bytes();
    let version: &[u8] = " HTTP/1.1".as_bytes();
    let len: usize = line.len();
    if len < method.len() || len - method.len() <= version.len() {
        return None;
    }
    let start: usize = method.len();
    let end: usize = len - version.len();
    if !matches_at(line, 0, method) || !matches_at(line, end, version) {
        return None;
    }
    let ghost path = line@.subrange(start as int, end as int);
    let mut i: usize = start;
    while i < end
        invariant
            start <= i <= end <= line@.len(),
            start == "GET ".spec_bytes().len(),
            end == line@.len() - " HTTP/1.1".spec_bytes().len(),
            path == line@.subrange(start as int, end as int),
            forall|j: int| 0 <= j < i - start ==> #[trigger] path[j] != 32,
        decreases end - i,
    {
        if line[i] == 32 {
            assert(path[i - start] == 32);
            return None;
        }
        i += 1;
    }
    Some(slice_to_vec(slice_subrange(line, start, end)))
}

/// Says whether the bytes read so far hold the whole head of a request.
pub fn is_head_complete(request: &[u8]) -> (complete: bool)
    ensures
        complete == head_complete(request@),
{
    let mark: &[u8] = "\r\n\r\n".as_bytes();
    let mut at: usize = 0;
    while at < request.len()
        invariant
            mark@ == "\r\n\r\n".spec_bytes(),
            forall|k: int| 0 <= k < at ==> !occurs_at(request@, k, mark@),
        decreases request@.len() - at,
    {
        if matches_at(request, at, mark) {
            return true;
        }
        at += 1;
    }
    proof {
        reveal_strlit("\r\n\r\n");
        is_ascii_spec_bytes("\r\n\r\n");
    }
    false
}

/// Looks for the key with which a request asks for the upgrade.
pub fn find_upgrade_key(request: &[u8]) -> (key: Option<Vec<u8>>)
    ensures
        match upgrade_key(request@) {
            Some(wanted) => key matches Some(found) && found@ == wanted,
            None => key is None,
        },
{
    let name: &[u8] = "Sec-WebSocket-Key:".as_bytes();
    let end: usize = find_line_end(request, 0);
    if end >= request.len() {
        return None;
    }
    match find_header_line(request, end + 1, name) {
        None => None,
        Some(line) => {
            let key: Vec<u8> = take_token(line, name.len());
            if key.len() > 0 && key.len() as u64 <= MAX_KEY_LENGTH {
                Some(key)
            } else {
                None
            }
        },
    }
}

/// Routes a request: to the upgrade, to a static resource, or nowhere.
pub fn route(request: &[u8]) -> (route: Route)
    ensures
        route@ == route_spec(request@),
{
    let first: &[u8] = take_line(request, 0);
    match parse_request_line(first) {
        None => Route::NotFound,
        Some(path) => {
            let wanted: &[u8] = "/websocketme".as_bytes();
            assert(path@.subrange(0, path@.len() as int) =~= path@);
            if path.len() == wanted.len() && matches_at(path.as_slice(), 0, wanted) {
                match find_upgrade_key(request) {
                    Some(key) => Route::Upgrade(HandshakeRequest { key }),
                    None => Route::Static(path),
                }
            } else {
                Route::Static(path)
            }
        },
    }
}

} // verus!
