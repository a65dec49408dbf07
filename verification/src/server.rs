use vstd::prelude::*;
use vstd::utf8::{decode_utf8, encode_utf8, encode_utf8_decode_utf8, encode_utf8_valid_utf8, valid_utf8};
use crate::paths::{join_path, joined};
use crate::text::concat;

verus! {

/// The bytes `GET /` that a request served by the blog starts with.
pub open spec fn get_prefix() -> Seq<u8> {
    seq![71u8, 69u8, 84u8, 32u8, 47u8]
}

/// The request line: the bytes before the first `\r\n`, or all of them.
pub open spec fn first_line(buf: Seq<u8>) -> Seq<u8>
    decreases buf.len(),
{
    if buf.len() < 2 {
        buf
    } else if buf[0] == 13u8 && buf[1] == 10u8 {
        seq![]
    } else {
        seq![buf[0]] + first_line(buf.drop_first())
    }
}

/// The bytes of `s` before its first space.
pub open spec fn until_space(s: Seq<u8>) -> Seq<u8>
    decreases s.len(),
{
    if s.len() == 0 {
        s
    } else if s[0] == 32u8 {
        seq![]
    } else {
        seq![s[0]] + until_space(s.drop_first())
    }
}

/// The requested path of a `GET /` request: the second space-separated field of its
/// request line.
pub open spec fn requested_path(buf: Seq<u8>) -> Seq<u8> {
    until_space(first_line(buf).skip(4))
}

/// The characters `String::from_utf8_lossy` makes of `bytes`.
pub uninterp spec fn utf8_lossy(bytes: Seq<u8>) -> Seq<char>;

/// The characters of `bytes` read leniently as UTF-8: valid UTF-8 is decoded as it is,
/// anything else as `String::from_utf8_lossy` replaces it.
pub open spec fn decoded(bytes: Seq<u8>) -> Seq<char> {
    if valid_utf8(bytes) {
        decode_utf8(bytes)
    } else {
        utf8_lossy(bytes)
    }
}

/// `String::from_utf8_lossy`.
///
/// Trusted: the result is a function of the bytes alone, and valid UTF-8 is decoded as it is.
#[verifier::external_body]
fn decode_lossy(bytes: &[u8]) -> (r: String)
    ensures
        r@ == utf8_lossy(bytes@),
        valid_utf8(bytes@) ==> r@ == decode_utf8(bytes@),
{
    String::from_utf8_lossy(bytes).into_owned()
}

/// What a request asks the server for.
pub enum Route {
    /// The home page.
    Index,
    /// A file, by its path; it is served when it exists.
    File(String),
    /// Nothing the server can give: answered with the not-found page.
    Missing,
}

/// The route as a value of spec mode.
pub enum RouteView {
    Index,
    File(Seq<char>),
    Missing,
}

impl View for Route {
    type V = RouteView;

    open spec fn view(&self) -> RouteView {
        match self {
            Route::Index => RouteView::Index,
            Route::File(p) => RouteView::File(p@),
            Route::Missing => RouteView::Missing,
        }
    }
}

/// The route of the request in `buf`: a request that does not start with `GET /` is
/// missing; the path `/` is the home page; any other path, without its leading `/`,
/// decoded leniently from UTF-8, is a file under `out`.
pub open spec fn route_of(buf: Seq<u8>) -> RouteView {
    if !(get_prefix().len() <= buf.len() && buf.take(5) == get_prefix()) {
        RouteView::Missing
    } else {
        let p = requested_path(buf);
        if p == seq![47u8] {
            RouteView::Index
        } else {
            RouteView::File(joined("out"@, decoded(p.drop_first())))
        }
    }
}

/// Whether `buf` holds `\r\n` at position `k`.
pub open spec fn crlf_at(buf: Seq<u8>, k: int) -> bool {
    0 <= k && k + 1 < buf.len() && buf[k] == 13u8 && buf[k + 1] == 10u8
}

proof fn lemma_first_line_prefix(buf: Seq<u8>, e: int)
    requires
        0 <= e <= buf.len(),
        forall|k: int| 0 <= k < e ==> !#[trigger] crlf_at(buf, k),
        e == buf.len() || (e + 1 < buf.len() && buf[e] == 13u8 && buf[e + 1] == 10u8) || (e + 1
            == buf.len()),
    ensures
        first_line(buf) == (if e + 1 == buf.len() && e < buf.len() { buf } else { buf.take(e) }),
    decreases e,
{
    if e == 0 {
        if buf.len() >= 2 {
            assert(buf.take(0) =~= Seq::<u8>::empty());
        } else {
            assert(buf.take(0) =~= buf || buf.len() == 1);
        }
    } else if buf.len() < 2 {
        assert(buf.take(e) =~= buf);
    } else {
        assert(!crlf_at(buf, 0));
        let t = buf.drop_first();
        assert forall|k: int| 0 <= k < e - 1 implies !#[trigger] crlf_at(t, k) by {
            assert(!crlf_at(buf, k + 1));
            if k + 1 < t.len() {
                assert(t[k] == buf[k + 1] && t[k + 1] == buf[k + 2]);
            }
        }
        lemma_first_line_prefix(t, e - 1);
        assert(buf =~= seq![buf[0]] + t);
        assert(buf.take(e) =~= seq![buf[0]] + t.take(e - 1));
    }
}

proof fn lemma_until_space_prefix(s: Seq<u8>, e: int)
    requires
        0 <= e <= s.len(),
        forall|k: int| 0 <= k < e ==> s[k] != 32u8,
        e == s.len() || s[e] == 32u8,
    ensures
        until_space(s) == s.take(e),
    decreases e,
{
    if e == 0 {
        assert(s.take(0) =~= Seq::<u8>::empty());
    } else {
        let t = s.drop_first();
        assert forall|k: int| 0 <= k < e - 1 implies t[k] != 32u8 by {
            assert(t[k] == s[k + 1]);
        }
        lemma_until_space_prefix(t, e - 1);
        assert(s.take(e) =~= seq![s[0]] + t.take(e - 1));
    }
}

/// Decides where a request for the bytes `buf` goes (see `route_of`).
pub fn route_request(buf: &[u8]) -> (r: Route)
    ensures
        r@ == route_of(buf@),
{
    let n = buf.len();
    if n < 5 || buf[0] != 71u8 || buf[1] != 69u8 || buf[2] != 84u8 || buf[3] != 32u8 || buf[4]
        != 47u8 {
        proof {
            if 5 <= buf@.len() && buf@.take(5) == get_prefix() {
                assert(buf@.take(5)[0] == buf@[0] && buf@.take(5)[1] == buf@[1]);
                assert(buf@.take(5)[2] == buf@[2] && buf@.take(5)[3] == buf@[3]);
                assert(buf@.take(5)[4] == buf@[4]);
            }
        }
        return Route::Missing;
    }
    assert(buf@.take(5) =~= get_prefix());
    // end of the request line
    let mut e: usize = 0;
    while e + 1 < n && !(buf[e] == 13u8 && buf[e + 1] == 10u8)
        invariant
            n == buf@.len(),
            e < n,
            forall|k: int| 0 <= k < e ==> !#[trigger] crlf_at(buf@, k),
        decreases n - e,
    {
        e = e + 1;
    }
    let line_end: usize = if e + 1 < n { e } else { n };
    proof {
        if e + 1 < n {
            lemma_first_line_prefix(buf@, e as int);
        } else {
            lemma_first_line_prefix(buf@, e as int);
            assert(buf@.take(n as int) =~= buf@);
        }
    }
    let ghost line = buf@.take(line_end as int);
    assert(first_line(buf@) == line);
    // the line starts with `GET /`, so it is at least 5 bytes long
    proof {
        if line_end < 5 {
            assert(buf@[line_end as int] == 13u8 || line_end == n);
        }
    }
    assert(line_end >= 5);
    let mut j: usize = 4;
    while j < line_end && buf[j] != 32u8
        invariant
            4 <= j <= line_end <= n == buf@.len(),
            forall|k: int| 4 <= k < j ==> buf@[k] != 32u8,
        decreases line_end - j,
    {
        j = j + 1;
    }
    proof {
        let rest = line.skip(4);
        assert forall|k: int| 0 <= k < j - 4 implies rest[k] != 32u8 by {
            assert(rest[k] == buf@[k + 4]);
        }
        if j < line_end {
            assert(rest[j - 4] == buf@[j as int]);
        }
        lemma_until_space_prefix(rest, j - 4);
        assert(requested_path(buf@) =~= buf@.subrange(4, j as int));
    }
    if j == 5 {
        assert(requested_path(buf@) =~= seq![47u8]);
        return Route::Index;
    }
    assert(requested_path(buf@) != seq![47u8]) by {
        assert(requested_path(buf@).len() == j - 4);
    }
    let mut rel: Vec<u8> = Vec::new();
    let mut k: usize = 5;
    while k < j
        invariant
            5 <= k <= j <= n == buf@.len(),
            rel@ == buf@.subrange(5, k as int),
        decreases j - k,
    {
        rel.push(buf[k]);
        k = k + 1;
    }
    assert(rel@ =~= requested_path(buf@).drop_first());
    let name = decode_lossy(rel.as_slice());
    Route::File(join_path("out", name.as_str()))
}

/// Whether a request is answered with the page it asked for, or with the not-found page.
pub enum Status {
    Found,
    NotFound,
}

/// The file to send back and the status to send it with.
pub struct Response {
    pub status: Status,
    pub file: String,
}

/// The status and file of the answer to `route`; `exists` tells whether the file of a
/// `File` route exists.
pub open spec fn response_of(route: RouteView, exists: bool) -> (bool, Seq<char>) {
    match route {
        RouteView::Index => (true, "out/index.html"@),
        RouteView::File(p) => if exists {
            (true, p)
        } else {
            (false, "out/404.html"@)
        },
        RouteView::Missing => (false, "out/404.html"@),
    }
}

/// Decides the answer to a route (see `response_of`).
pub fn resolve_route(route: Route, exists: bool) -> (r: Response)
    ensures
        (r.status is Found, r.file@) == response_of(route@, exists),
{
    match route {
        Route::Index => Response { status: Status::Found, file: String::from_str("out/index.html") },
        Route::File(p) => if exists {
            Response { status: Status::Found, file: p }
        } else {
            Response { status: Status::NotFound, file: String::from_str("out/404.html") }
        },
        Route::Missing => Response {
            status: Status::NotFound,
            file: String::from_str("out/404.html"),
        },
    }
}

/// The status line and blank line that start an answer.
pub open spec fn status_line(found: bool) -> Seq<char> {
    if found {
        "HTTP/1.1 200 OK\r\n\r\n"@
    } else {
        "HTTP/1.1 404 NOT FOUND\r\n\r\n"@
    }
}

/// The text of an answer: its status line, then the contents of the file.
pub fn http_response(status: &Status, contents: &str) -> (r: String)
    ensures
        r@ == status_line(*status is Found) + contents@,
{
    match status {
        Status::Found => concat("HTTP/1.1 200 OK\r\n\r\n", contents),
        Status::NotFound => concat("HTTP/1.1 404 NOT FOUND\r\n\r\n", contents),
    }
}

proof fn lemma_first_line_len(buf: Seq<u8>)
    ensures
        first_line(buf).len() <= buf.len(),
    decreases buf.len(),
{
    if buf.len() >= 2 && !(buf[0] == 13u8 && buf[1] == 10u8) {
        lemma_first_line_len(buf.drop_first());
    }
}

proof fn lemma_first_line_no_cr(buf: Seq<u8>, m: int)
    requires
        0 <= m <= buf.len(),
        forall|k: int| 0 <= k < m ==> #[trigger] buf[k] != 13u8,
    ensures
        m <= first_line(buf).len(),
        first_line(buf).take(m) == buf.take(m),
    decreases m,
{
    if m == 0 {
        assert(first_line(buf).take(0) =~= buf.take(0));
    } else if buf.len() < 2 {
        assert(first_line(buf) == buf);
    } else {
        assert(buf[0] != 13u8);
        let t = buf.drop_first();
        assert forall|k: int| 0 <= k < m - 1 implies #[trigger] t[k] != 13u8 by {
            assert(t[k] == buf[k + 1]);
        }
        lemma_first_line_no_cr(t, m - 1);
        assert(first_line(buf) == seq![buf[0]] + first_line(t));
        assert(first_line(buf).take(m) =~= seq![buf[0]] + first_line(t).take(m - 1));
        assert(buf.take(m) =~= seq![buf[0]] + t.take(m - 1));
    }
}

/// A request `GET /<path>` whose path (up to the first space of the request line) is the
/// UTF-8 encoding of `path`, not itself starting with `/`, is routed to the file
/// `out/<path>`: the path is served byte for byte as it was asked for.
pub proof fn lemma_route_of_path(buf: Seq<u8>, path: Seq<char>, j: int)
    requires
        5 <= j <= buf.len(),
        buf.take(5) == get_prefix(),
        buf.subrange(5, j) == encode_utf8(path),
        path.len() > 0,
        path[0] != '/',
        forall|k: int| 5 <= k < j ==> #[trigger] buf[k] != 32u8 && buf[k] != 13u8,
        j == buf.len() || buf[j] == 32u8,
    ensures
        route_of(buf) == RouteView::File("out/"@ + path),
{
    reveal_strlit("out");
    reveal_strlit("out/");
    assert forall|k: int| 0 <= k < 5 implies buf[k] == #[trigger] get_prefix()[k] by {
        assert(buf.take(5)[k] == buf[k]);
    }
    let m = if j < buf.len() { j + 1 } else { j };
    assert forall|k: int| 0 <= k < m implies #[trigger] buf[k] != 13u8 by {
        if k < 5 {
            assert(buf[k] == get_prefix()[k]);
        } else if k < j {
            assert(buf[k] != 13u8);
        }
    }
    lemma_first_line_no_cr(buf, m);
    let line = first_line(buf);
    let rest = line.skip(4);
    assert forall|k: int| 0 <= k < j - 4 implies rest[k] != 32u8 by {
        assert(rest[k] == line.take(m)[k + 4]);
        assert(line.take(m)[k + 4] == buf[k + 4]);
        if k == 0 {
            assert(buf[4] == get_prefix()[4]);
        }
    }
    lemma_first_line_len(buf);
    if j - 4 < rest.len() {
        assert(j < buf.len());
        assert(rest[j - 4] == line.take(m)[j]);
        assert(rest[j - 4] == buf[j]);
    }
    lemma_until_space_prefix(rest, j - 4);
    let p = requested_path(buf);
    assert(p =~= buf.subrange(4, j)) by {
        assert forall|k: int| 0 <= k < j - 4 implies p[k] == buf[k + 4] by {
            assert(p[k] == rest[k]);
            assert(line.take(m)[k + 4] == buf[k + 4]);
        }
    }
    assert(p.drop_first() =~= buf.subrange(5, j));
    encode_utf8_valid_utf8(path);
    encode_utf8_decode_utf8(path);
    assert(decoded(p.drop_first()) == path);
    assert(p != seq![47u8]) by {
        assert(encode_utf8(path).len() > 0) by {
            if encode_utf8(path).len() == 0 {
                assert(decode_utf8(encode_utf8(path)) =~= Seq::<char>::empty());
            }
        }
    }
    assert(joined("out"@, path) =~= "out/"@ + path);
}

} // verus!
