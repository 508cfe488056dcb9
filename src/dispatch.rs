use vstd::prelude::*;
use crate::http::{Encoding, HttpContentType, HttpStatus};
use crate::request::{parse, parse_spec, ParseError, Request, RequestView};
use vstd::utf8::encode_utf8;
use crate::request::crlf;
use crate::response::{gzip_of, header_line, new, status_line, wire_of, Response, ResponseView};
use crate::text::{decimal_spec, join_spec};
use crate::router::{bind_params, bound_params, path_segments, route_matches, RouteTable};
use crate::string_map::StringMap;
use crate::text::{chars_of, same_chars, seqs_of, split_on, split_spec, trim_char, trim_spec};

verus! {

/// Whether one of the comma-separated items of an `Accept-Encoding` value,
/// without surrounding spaces, is `name`.
pub open spec fn accepts(value: Seq<char>, name: Seq<char>) -> bool {
    exists|i: int|
        0 <= i < split_spec(value, seq![',']).len() && trim_spec(
            #[trigger] split_spec(value, seq![','])[i],
            ' ',
        ) == name
}

/// The encoding to answer with: gzip where the request's `Accept-Encoding`
/// header lists it, else none.
pub open spec fn negotiated(headers: Map<Seq<char>, Seq<char>>) -> Option<Encoding> {
    if headers.contains_key("Accept-Encoding"@) && accepts(headers["Accept-Encoding"@], "gzip"@) {
        Some(Encoding::GZIP)
    } else {
        None
    }
}

/// The encoding to answer `request` with.
pub fn negotiate_encoding(request: &Request) -> (r: Option<Encoding>)
    ensures
        r == negotiated(request@.headers),
{
    let value = match request.headers().get("Accept-Encoding") {
        Some(v) => chars_of(v.as_str()),
        None => {
            return None;
        },
    };
    let comma = vec![','];
    assert(comma@ =~= seq![',']);
    let items = split_on(value.as_slice(), comma.as_slice());
    let gzip = chars_of("gzip");
    let mut i: usize = 0;
    while i < items.len()
        invariant
            i <= items@.len(),
            seqs_of(items@) == split_spec(value@, seq![',']),
            gzip@ == "gzip"@,
            request@.headers.contains_key("Accept-Encoding"@),
            request@.headers["Accept-Encoding"@] == value@,
            forall|j: int| 0 <= j < i ==> trim_spec(#[trigger] seqs_of(items@)[j], ' ') != "gzip"@,
        decreases items@.len() - i,
    {
        let t = trim_char(items[i].as_slice(), ' ');
        assert(seqs_of(items@)[i as int] == items@[i as int]@);
        if same_chars(t.as_slice(), gzip.as_slice()) {
            assert(trim_spec(split_spec(value@, seq![','])[i as int], ' ') == "gzip"@);
            assert(accepts(value@, "gzip"@));
            return Some(Encoding::GZIP);
        }
        i += 1;
    }
    None
}

/// The response sent where no route serves a request: 404, with the
/// fallback page as an HTML body.
pub open spec fn not_found_view(content: Seq<char>) -> ResponseView {
    ResponseView {
        status: HttpStatus::StatusNotFound,
        headers: Seq::empty(),
        content: content,
        content_type: HttpContentType::HTML,
        encoding: None,
    }
}

/// The 404 response with `content` as its page.
pub fn not_found(content: String) -> (r: Response)
    ensures
        r@ == not_found_view(content@),
{
    new(HttpStatus::StatusNotFound, content, HttpContentType::HTML)
}

/// The 404 answer on the wire: the status line, an HTML content type, the
/// length of the body, an empty line, then the page itself, or the page
/// compressed where gzip was negotiated.
pub proof fn lemma_not_found_wire(content: Seq<char>, encoding: Option<Encoding>)
    ensures
        ({
            let v = ResponseView { encoding: encoding, ..not_found_view(content) };
            let body = if encoding == Some(Encoding::GZIP) {
                gzip_of(encode_utf8(content))
            } else {
                encode_utf8(content)
            };
            let c = if encoding == Some(Encoding::GZIP) {
                Some(body)
            } else {
                None
            };
            let enc_lines: Seq<char> = if encoding == Some(Encoding::GZIP) {
                header_line("Content-Encoding"@, "gzip"@) + crlf()
            } else {
                Seq::empty()
            };
            wire_of(v, c) == encode_utf8(
                status_line(HttpStatus::StatusNotFound) + crlf() + enc_lines + header_line(
                    "Content-Type"@,
                    "text/html"@,
                ) + crlf() + header_line("Content-Length"@, decimal_spec(body.len())) + crlf()
                    + crlf(),
            ) + body
        }),
{
    let v = ResponseView { encoding: encoding, ..not_found_view(content) };
    let ct = header_line("Content-Type"@, "text/html"@);
    if encoding == Some(Encoding::GZIP) {
        let body = gzip_of(encode_utf8(content));
        let ce = header_line("Content-Encoding"@, "gzip"@);
        let cl = header_line("Content-Length"@, decimal_spec(body.len()));
        let hs = crate::response::sent_headers(v, Some(body));
        assert(hs =~= seq![ce, ct, cl]);
        assert(hs.drop_last() =~= seq![ce, ct]);
        assert(hs.drop_last().drop_last() =~= seq![ce]);
        assert(join_spec(seq![ce], crlf()) == ce);
        assert(join_spec(hs.drop_last(), crlf()) == ce + crlf() + ct);
        assert(join_spec(hs, crlf()) == join_spec(hs.drop_last(), crlf()) + crlf() + cl);
        assert(join_spec(hs, crlf()) =~= ce + crlf() + ct + crlf() + cl);
        let sl = status_line(HttpStatus::StatusNotFound);
        assert(sl + crlf() + join_spec(hs, crlf()) + crlf() + crlf() =~= sl + crlf() + (ce + crlf())
            + ct + crlf() + cl + crlf() + crlf());
    } else {
        let body = encode_utf8(content);
        let cl = header_line("Content-Length"@, decimal_spec(body.len()));
        let hs = crate::response::sent_headers(v, None);
        assert(hs =~= seq![ct, cl]);
        assert(hs.drop_last() =~= seq![ct]);
        assert(join_spec(hs.drop_last(), crlf()) == ct);
        assert(join_spec(hs, crlf()) == join_spec(hs.drop_last(), crlf()) + crlf() + cl);
        assert(join_spec(hs, crlf()) =~= ct + crlf() + cl);
        let sl = status_line(HttpStatus::StatusNotFound);
        assert(sl + crlf() + join_spec(hs, crlf()) + crlf() + crlf() =~= sl + crlf()
            + Seq::<char>::empty() + ct + crlf() + cl + crlf() + crlf());
    }
}

/// What to do with one connection's request.
pub enum Outcome {
    /// Call the handler of route `index` with `request`, then answer with
    /// `encoding`.
    Invoke { index: usize, request: Request, encoding: Option<Encoding> },
    /// Send this response.
    Respond(Response),
}

/// Decides how to answer the request text `raw`: the first route that accepts
/// it handles it, with its path parameters bound; where the text is no request,
/// or no route accepts it, the answer is the 404 page `fallback`.
pub fn dispatch<H>(routes: &RouteTable<H>, raw: &str, fallback: String) -> (r: Outcome)
    ensures
        parse_spec(raw@) is Err ==> (r matches Outcome::Respond(resp) && resp@ == not_found_view(
            fallback@,
        )),
        parse_spec(raw@) matches Ok(req) ==> {
            let segs = path_segments(req.qualified_path);
            if exists|i: int|
                0 <= i < routes.0@.len() && route_matches(
                    #[trigger] routes.0@[i].2@,
                    req.method,
                    segs,
                ) {
                &&& r matches Outcome::Invoke { index, request, encoding }
                &&& index < routes.0@.len()
                &&& route_matches(routes.0@[index as int].2@, req.method, segs)
                &&& forall|j: int|
                    0 <= j < index ==> !route_matches(#[trigger] routes.0@[j].2@, req.method, segs)
                &&& request@ == (RequestView {
                    path_params: bound_params(routes.0@[index as int].2@, req.qualified_path),
                    ..req
                })
                &&& encoding == negotiated(req.headers)
            } else {
                &&& r matches Outcome::Respond(resp)
                &&& resp@ == (ResponseView {
                    encoding: negotiated(req.headers),
                    ..not_found_view(fallback@)
                })
            }
        },
{
    let mut request = match parse(raw) {
        Ok(req) => req,
        Err(_) => {
            return Outcome::Respond(not_found(fallback));
        },
    };
    let encoding = negotiate_encoding(&request);
    let method = *request.method();
    match routes.find_index(request.qualified_path(), &method) {
        Some(index) => {
            let route = &routes.0[index].2;
            let params = bind_params(route, request.qualified_path());
            request.set_path_params(params);
            Outcome::Invoke { index, request, encoding }
        },
        None => {
            let mut resp = not_found(fallback);
            resp.set_encoding(&encoding);
            Outcome::Respond(resp)
        },
    }
}

} // verus!
