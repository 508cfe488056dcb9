use vstd::prelude::*;
use crate::text::str_eq;

verus! {

/// The status codes a response can carry.
#[derive(Clone, Copy, Debug, PartialEq, Eq, Structural)]
pub enum HttpStatus {
    StatusOK,
    StatusBadRequest,
    StatusNotFound,
    StatusCreated,
}

impl HttpStatus {
    pub open spec fn code_spec(self) -> u32 {
        match self {
            HttpStatus::StatusOK => 200,
            HttpStatus::StatusNotFound => 404,
            HttpStatus::StatusBadRequest => 400,
            HttpStatus::StatusCreated => 201,
        }
    }

    pub open spec fn reason_spec(self) -> Seq<char> {
        match self {
            HttpStatus::StatusOK => "OK"@,
            HttpStatus::StatusNotFound => "Not Found"@,
            HttpStatus::StatusBadRequest => "Bad Request"@,
            HttpStatus::StatusCreated => "Created"@,
        }
    }

    /// The numeric status code.
    pub fn to_code(&self) -> (r: u32)
        ensures
            r == self.code_spec(),
    {
        match self {
            HttpStatus::StatusOK => 200,
            HttpStatus::StatusNotFound => 404,
            HttpStatus::StatusBadRequest => 400,
            HttpStatus::StatusCreated => 201,
        }
    }

    /// The reason phrase of the status line.
    pub fn to_str(&self) -> (r: &'static str)
        ensures
            r@ == self.reason_spec(),
    {
        match self {
            HttpStatus::StatusOK => "OK",
            HttpStatus::StatusNotFound => "Not Found",
            HttpStatus::StatusBadRequest => "Bad Request",
            HttpStatus::StatusCreated => "Created",
        }
    }
}

/// Request methods; `ALL` stands for any method in a route listing.
#[derive(Clone, Copy, Debug, PartialEq, Eq, Structural)]
pub enum HttpMethod {
    ALL,
    GET,
    POST,
    PUT,
    DELETE,
    HEAD,
    PATCH,
}

impl HttpMethod {
    pub open spec fn name_spec(self) -> Seq<char> {
        match self {
            HttpMethod::GET => "GET"@,
            HttpMethod::POST => "POST"@,
            HttpMethod::PUT => "PUT"@,
            HttpMethod::DELETE => "DELETE"@,
            HttpMethod::HEAD => "HEAD"@,
            HttpMethod::PATCH => "PATCH"@,
            HttpMethod::ALL => "*"@,
        }
    }

    /// The method as it is written on the wire. Only `GET` and `POST` are read
    /// back by `from_str`.
    pub open spec fn parse_spec(s: Seq<char>) -> Option<HttpMethod> {
        if s == "GET"@ {
            Some(HttpMethod::GET)
        } else if s == "POST"@ {
            Some(HttpMethod::POST)
        } else {
            None
        }
    }

    pub fn to_str(&self) -> (r: &'static str)
        ensures
            r@ == self.name_spec(),
    {
        match self {
            HttpMethod::GET => "GET",
            HttpMethod::POST => "POST",
            HttpMethod::PUT => "PUT",
            HttpMethod::DELETE => "DELETE",
            HttpMethod::HEAD => "HEAD",
            HttpMethod::PATCH => "PATCH",
            HttpMethod::ALL => "*",
        }
    }

    /// Reads a request method; the server accepts `GET` and `POST`.
    pub fn from_str(s: &str) -> (r: Option<HttpMethod>)
        ensures
            r == Self::parse_spec(s@),
    {
        if str_eq(s, "GET") {
            Some(HttpMethod::GET)
        } else if str_eq(s, "POST") {
            Some(HttpMethod::POST)
        } else {
            None
        }
    }
}

/// Body content types.
#[derive(Clone, Copy, Debug, PartialEq, Eq, Structural)]
pub enum HttpContentType {
    HTML,
    JSON,
    TEXT,
}

impl HttpContentType {
    pub open spec fn mime_spec(self) -> Seq<char> {
        match self {
            HttpContentType::HTML => "text/html"@,
            HttpContentType::JSON => "application/json"@,
            HttpContentType::TEXT => "text/plain"@,
        }
    }

    pub fn to_str(&self) -> (r: &'static str)
        ensures
            r@ == self.mime_spec(),
    {
        match self {
            HttpContentType::HTML => "text/html",
            HttpContentType::JSON => "application/json",
            HttpContentType::TEXT => "text/plain",
        }
    }
}

/// The protocol versions spoken.
#[derive(Clone, Copy, Debug, PartialEq, Eq, Structural)]
pub enum HttpProtocol {
    HTTP1,
}

/// Content encodings; `Identity` means the body is sent as it is.
#[derive(Clone, Copy, Debug, PartialEq, Eq, Structural)]
pub enum Encoding {
    GZIP,
    Identity,
}

impl Default for Encoding {
    fn default() -> (r: Encoding)
        ensures
            r == Encoding::Identity,
    {
        Encoding::Identity
    }
}

impl Encoding {
    pub open spec fn name_spec(self) -> Seq<char> {
        match self {
            Encoding::GZIP => "gzip"@,
            Encoding::Identity => "none"@,
        }
    }

    pub open spec fn parse_spec(s: Seq<char>) -> Option<Encoding> {
        if s == "gzip"@ {
            Some(Encoding::GZIP)
        } else {
            None
        }
    }

    pub fn to_str(&self) -> (r: &'static str)
        ensures
            r@ == self.name_spec(),
    {
        match self {
            Encoding::GZIP => "gzip",
            Encoding::Identity => "none",
        }
    }

    /// The encodings that responses can be compressed with.
    pub fn get_supported() -> (r: Vec<Encoding>)
        ensures
            r@ == seq![Encoding::GZIP],
    {
        let mut v: Vec<Encoding> = Vec::new();
        v.push(Encoding::GZIP);
        v
    }

    pub fn from_str(s: &str) -> (r: Option<Encoding>)
        ensures
            r == Self::parse_spec(s@),
    {
        if str_eq(s, "gzip") {
            Some(Encoding::GZIP)
        } else {
            None
        }
    }
}

/// Header names that the server reads or writes.
#[derive(Clone, Copy, Debug, PartialEq, Eq, Structural)]
pub enum Headers {
    AcceptEncoding,
    ContentType,
    ContentLength,
    ContentEncoding,
}

impl Headers {
    pub open spec fn name_spec(self) -> Seq<char> {
        match self {
            Headers::AcceptEncoding => "Accept-Encoding"@,
            Headers::ContentType => "Content-Type"@,
            Headers::ContentLength => "Content-Length"@,
            Headers::ContentEncoding => "Content-Encoding"@,
        }
    }

    pub fn to_str(&self) -> (r: &'static str)
        ensures
            r@ == self.name_spec(),
    {
        match self {
            Headers::AcceptEncoding => "Accept-Encoding",
            Headers::ContentType => "Content-Type",
            Headers::ContentLength => "Content-Length",
            Headers::ContentEncoding => "Content-Encoding",
        }
    }
}

} // verus!
