//! Requests to a service and replies from it, as plain values.

use vstd::prelude::*;

use crate::json::{json, Json, JsonView};

verus! {

#[derive(Clone, Copy, Debug, PartialEq, Eq, Structural)]
pub enum HttpMethod {
    Get,
    Post,
}

/// A header line of a request.
#[derive(Clone, Debug, PartialEq, Eq)]
pub struct Header {
    pub name: String,
    pub value: String,
}

/// What a request carries.
#[derive(Debug)]
pub enum RequestBody {
    Empty,
    Json(Json),
    Text(String),
}

/// A request to a service.
#[derive(Debug)]
pub struct HttpRequest {
    pub method: HttpMethod,
    pub uri: String,
    pub headers: Vec<Header>,
    pub body: RequestBody,
}

/// The mathematical model of what a request carries.
pub ghost enum BodyView {
    Empty,
    Json(JsonView),
    Text(Seq<char>),
}

/// The mathematical model of a request.
pub ghost struct RequestView {
    pub method: HttpMethod,
    pub uri: Seq<char>,
    pub headers: Seq<(Seq<char>, Seq<char>)>,
    pub body: BodyView,
}

impl View for RequestBody {
    type V = BodyView;

    open spec fn view(&self) -> BodyView {
        match *self {
            RequestBody::Empty => BodyView::Empty,
            RequestBody::Json(value) => BodyView::Json(json(value)),
            RequestBody::Text(text) => BodyView::Text(text@),
        }
    }
}

pub open spec fn headers_view(headers: Seq<Header>) -> Seq<(Seq<char>, Seq<char>)> {
    headers.map_values(|header: Header| (header.name@, header.value@))
}

impl View for HttpRequest {
    type V = RequestView;

    open spec fn view(&self) -> RequestView {
        RequestView {
            method: self.method,
            uri: self.uri@,
            headers: headers_view(self.headers@),
            body: self.body@,
        }
    }
}

/// What came of a request: a reply with its status, or a failure with its message.
#[derive(Clone, Debug, PartialEq, Eq)]
pub enum HttpReply {
    Response { status: u16, body: Vec<u8> },
    Failure(String),
}

/// A header line.
pub fn header(name: &str, value: &str) -> (r: Header)
    ensures
        r.name@ == name@,
        r.value@ == value@,
{
    Header { name: name.to_owned(), value: value.to_owned() }
}

} // verus!
