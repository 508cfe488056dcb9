use vstd::prelude::*;
use vstd::utf8::encode_utf8;
use crate::http::{Encoding, HttpContentType, HttpStatus};
use crate::json::Serde;
use crate::request::crlf;
use crate::text::{append_chars, decimal, decimal_spec, join_from, join_spec, seqs_of, string_of};

verus! {

/// The bytes that gzip compression of `data` gives, as flate2's encoder at its
/// default level writes them.
pub uninterp spec fn gzip_of(data: Seq<u8>) -> Seq<u8>;

/// Relies on flate2's `GzEncoder::new`, `Write::write_all` and
/// `GzEncoder::finish`: a gzip stream of `data` (default level, a header with
/// no name and no time stamp). The sink is a `Vec`, which takes every write,
/// and the encoder reports errors only for a corrupt stream state, which a
/// fresh encoder never has: the result is always there.
#[verifier::external_body]
fn gzip(data: &[u8]) -> (r: Option<Vec<u8>>)
    ensures
        r is Some,
        r matches Some(z) ==> z@ == gzip_of(data@),
{
    let mut encoder = flate2::write::GzEncoder::new(Vec::new(), flate2::Compression::default());
    match std::io::Write::write_all(&mut encoder, data) {
        Ok(()) => encoder.finish().ok(),
        Err(_) => None,
    }
}

/// The view of optional bytes.
pub open spec fn bytes_of(c: Option<Vec<u8>>) -> Option<Seq<u8>> {
    match c {
        Some(z) => Some(z@),
        None => None,
    }
}

/// What a response holds, as mathematical values.
pub struct ResponseView {
    pub status: HttpStatus,
    pub headers: Seq<Seq<char>>,
    pub content: Seq<char>,
    pub content_type: HttpContentType,
    pub encoding: Option<Encoding>,
}

/// A header line: `key: value`.
pub open spec fn header_line(key: Seq<char>, value: Seq<char>) -> Seq<char> {
    key + ": "@ + value
}

/// The status line: `HTTP/1.1 <code> <reason>`.
pub open spec fn status_line(status: HttpStatus) -> Seq<char> {
    "HTTP/1.1"@ + seq![' '] + decimal_spec(status.code_spec() as nat) + seq![' '] + status.reason_spec()
}

/// The body that is sent: the compressed bytes where there are some, else the
/// content as UTF-8.
pub open spec fn sent_body(v: ResponseView, compressed: Option<Seq<u8>>) -> Seq<u8> {
    match compressed {
        Some(z) => z,
        None => encode_utf8(v.content),
    }
}

/// The header lines that are sent: those set before, then `Content-Encoding`
/// where the body was compressed, `Content-Type` and `Content-Length`.
pub open spec fn sent_headers(v: ResponseView, compressed: Option<Seq<u8>>) -> Seq<Seq<char>> {
    let enc: Seq<Seq<char>> = if compressed is Some {
        seq![header_line("Content-Encoding"@, "gzip"@)]
    } else {
        Seq::empty()
    };
    v.headers + enc + seq![
        header_line("Content-Type"@, v.content_type.mime_spec()),
        header_line("Content-Length"@, decimal_spec(sent_body(v, compressed).len())),
    ]
}

/// The response on the wire: status line, header lines, an empty line, body.
pub open spec fn wire_of(v: ResponseView, compressed: Option<Seq<u8>>) -> Seq<u8> {
    encode_utf8(
        status_line(v.status) + crlf() + join_spec(sent_headers(v, compressed), crlf()) + crlf()
            + crlf(),
    ) + sent_body(v, compressed)
}

/// The bytes sent put the body last, after a `Content-Length` header that
/// gives its exact length.
pub proof fn lemma_content_length(v: ResponseView, compressed: Option<Seq<u8>>)
    ensures
        wire_of(v, compressed).subrange(
            wire_of(v, compressed).len() - sent_body(v, compressed).len(),
            wire_of(v, compressed).len() as int,
        ) == sent_body(v, compressed),
        sent_headers(v, compressed).last() == header_line(
            "Content-Length"@,
            decimal_spec(sent_body(v, compressed).len()),
        ),
{
    let w = wire_of(v, compressed);
    let b = sent_body(v, compressed);
    let h = encode_utf8(
        status_line(v.status) + crlf() + join_spec(sent_headers(v, compressed), crlf()) + crlf()
            + crlf(),
    );
    assert(w.subrange(h.len() as int, w.len() as int) =~= b);
}

/// An HTTP response.
pub struct Response {
    pub status: HttpStatus,
    headers: Vec<Vec<char>>,
    pub content: String,
    pub content_type: HttpContentType,
    encoding: Option<Encoding>,
}

impl View for Response {
    type V = ResponseView;

    closed spec fn view(&self) -> ResponseView {
        ResponseView {
            status: self.status,
            headers: seqs_of(self.headers@),
            content: self.content@,
            content_type: self.content_type,
            encoding: self.encoding,
        }
    }
}

/// A response with no headers and no encoding.
pub fn new(status: HttpStatus, content: String, content_type: HttpContentType) -> (r: Response)
    ensures
        r@ == (ResponseView {
            status: status,
            headers: Seq::empty(),
            content: content@,
            content_type: content_type,
            encoding: None,
        }),
{
    let r = Response { status, headers: Vec::new(), content, content_type, encoding: None };
    assert(seqs_of(r.headers@) =~= Seq::empty());
    r
}

/// An HTML response.
pub fn html(status: HttpStatus, content: String) -> (r: Response)
    ensures
        r@ == (ResponseView {
            status: status,
            headers: Seq::empty(),
            content: content@,
            content_type: HttpContentType::HTML,
            encoding: None,
        }),
{
    new(status, content, HttpContentType::HTML)
}

/// A JSON response whose body is the text of `content`.
pub fn json<T: Serde>(status: HttpStatus, content: T) -> (r: Response)
    ensures
        r@ == (ResponseView {
            status: status,
            headers: Seq::empty(),
            content: T::json_spec(&content),
            content_type: HttpContentType::JSON,
            encoding: None,
        }),
{
    new(status, content.to_json(), HttpContentType::JSON)
}

/// A plain-text response.
pub fn text(status: HttpStatus, content: String) -> (r: Response)
    ensures
        r@ == (ResponseView {
            status: status,
            headers: Seq::empty(),
            content: content@,
            content_type: HttpContentType::TEXT,
            encoding: None,
        }),
{
    new(status, content, HttpContentType::TEXT)
}

fn append_bytes(out: &mut Vec<u8>, s: &[u8])
    ensures
        final(out)@ == old(out)@ + s@,
{
    let mut i: usize = 0;
    while i < s.len()
        invariant
            i <= s@.len(),
            out@ == old(out)@ + s@.subrange(0, i as int),
        decreases s@.len() - i,
    {
        out.push(s[i]);
        i += 1;
    }
    assert(s@.subrange(0, i as int) =~= s@);
}

fn line_of(key: &str, value: &str) -> (r: Vec<char>)
    ensures
        r@ == header_line(key@, value@),
{
    let mut out = crate::text::chars_of(key);
    append_chars(&mut out, crate::text::chars_of(": ").as_slice());
    append_chars(&mut out, crate::text::chars_of(value).as_slice());
    out
}

impl Response {
    pub fn status(&self) -> (r: &HttpStatus)
        ensures
            *r == self@.status,
    {
        &self.status
    }

    pub fn protocol(&self) -> (r: &'static str)
        ensures
            r@ == "HTTP/1.1"@,
    {
        "HTTP/1.1"
    }

    /// Adds the header line `key: value` after the others.
    pub fn set_header(&mut self, key: &str, value: &str)
        ensures
            final(self)@ == (ResponseView {
                headers: old(self)@.headers.push(header_line(key@, value@)),
                ..old(self)@
            }),
    {
        let line = line_of(key, value);
        proof {
            assert(seqs_of(self.headers@.push(line)) =~= seqs_of(self.headers@).push(line@));
        }
        self.headers.push(line);
    }

    /// Records the encoding that the client accepts; `build` compresses with it.
    pub fn set_encoding(&mut self, encoding: &Option<Encoding>)
        ensures
            final(self)@ == (ResponseView { encoding: *encoding, ..old(self)@ }),
    {
        self.encoding = *encoding;
    }

    /// The response on the wire, with `compressed` as its body where it is
    /// given; the header lines sent are added to the response.
    pub fn assemble(&mut self, compressed: Option<Vec<u8>>) -> (r: Vec<u8>)
        ensures
            r@ == wire_of(old(self)@, bytes_of(compressed)),
            final(self)@ == (ResponseView {
                headers: sent_headers(old(self)@, bytes_of(compressed)),
                ..old(self)@
            }),
    {
        let ghost v = self@;
        let ghost c = bytes_of(compressed);
        let is_compressed = compressed.is_some();
        let body: Vec<u8> = match compressed {
            Some(z) => z,
            None => {
                let b = self.content.as_str().as_bytes();
                let mut out: Vec<u8> = Vec::new();
                append_bytes(&mut out, b);
                out
            },
        };
        assert(body@ == sent_body(v, c));
        if is_compressed {
            self.set_header("Content-Encoding", "gzip");
        }
        self.set_header("Content-Type", self.content_type.to_str());
        let len = decimal(body.len() as u64);
        let len_str = string_of(len.as_slice());
        self.set_header("Content-Length", len_str.as_str());
        assert(self@.headers =~= sent_headers(v, c));
        let mut head = crate::text::chars_of(self.protocol());
        head.push(' ');
        append_chars(&mut head, decimal(self.status.to_code() as u64).as_slice());
        head.push(' ');
        append_chars(&mut head, crate::text::chars_of(self.status.to_str()).as_slice());
        assert(head@ =~= status_line(v.status));
        let sep = crate::text::chars_of("\r\n");
        assert(sep@ == crlf()) by {
            reveal_strlit("\r\n");
            assert(sep@ =~= crlf());
        }
        append_chars(&mut head, sep.as_slice());
        let joined = join_from(self.headers.as_slice(), 0, sep.as_slice());
        assert(seqs_of(self.headers@).subrange(0, self.headers@.len() as int) =~= seqs_of(self.headers@));
        append_chars(&mut head, joined.as_slice());
        append_chars(&mut head, sep.as_slice());
        append_chars(&mut head, sep.as_slice());
        let head_str = string_of(head.as_slice());
        let mut out: Vec<u8> = Vec::new();
        append_bytes(&mut out, head_str.as_str().as_bytes());
        append_bytes(&mut out, body.as_slice());
        assert(out@ =~= wire_of(v, c));
        out
    }

    /// The response on the wire. Where gzip was negotiated the body is
    /// compressed and `Content-Encoding` says so; the header lines sent are
    /// added to the response.
    pub fn build(&mut self) -> (r: Vec<u8>)
        ensures
            old(self)@.encoding == Some(Encoding::GZIP) ==> {
                let c = Some(gzip_of(encode_utf8(old(self)@.content)));
                &&& r@ == wire_of(old(self)@, c)
                &&& final(self)@ == (ResponseView {
                    headers: sent_headers(old(self)@, c),
                    ..old(self)@
                })
            },
            old(self)@.encoding != Some(Encoding::GZIP) ==> {
                &&& r@ == wire_of(old(self)@, None)
                &&& final(self)@ == (ResponseView {
                    headers: sent_headers(old(self)@, None),
                    ..old(self)@
                })
            },
    {
        let compressed = match self.encoding {
            Some(Encoding::GZIP) => gzip(self.content.as_str().as_bytes()),
            _ => None,
        };
        self.assemble(compressed)
    }
}

} // verus!
