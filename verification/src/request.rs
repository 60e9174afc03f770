//! HTTP requests as plain values: what the adapters ask for and how.
use crate::json::{Json, JsonView};
use vstd::prelude::*;

verus! {

/// The method of a request.
#[derive(Debug, Clone, Copy, PartialEq, Eq)]
pub enum Method {
    Get,
    Post,
}

/// The body of a request.
#[derive(Debug)]
pub enum Body {
    Empty,
    Form(Vec<(String, String)>),
    Json(Json),
}

/// The mathematical value of a [`Body`].
#[verifier::ext_equal]
pub enum BodyView {
    Empty,
    Form(Seq<(Seq<char>, Seq<char>)>),
    Json(JsonView),
}

/// A request: its address with the query to append, the headers to send, its
/// body, and the seconds after which to give up, where there is such a limit.
#[derive(Debug)]
pub struct Request {
    pub method: Method,
    pub url: String,
    pub query: Vec<(String, String)>,
    pub headers: Vec<(String, String)>,
    pub body: Body,
    pub timeout: Option<u64>,
}

/// The mathematical value of a [`Request`].
#[verifier::ext_equal]
pub struct RequestView {
    pub method: Method,
    pub url: Seq<char>,
    pub query: Seq<(Seq<char>, Seq<char>)>,
    pub headers: Seq<(Seq<char>, Seq<char>)>,
    pub body: BodyView,
    pub timeout: Option<u64>,
}

/// Pairs of texts, as pairs of character sequences.
pub open spec fn pairs_view(pairs: Seq<(String, String)>) -> Seq<(Seq<char>, Seq<char>)> {
    Seq::new(pairs.len(), |i: int| (pairs[i].0@, pairs[i].1@))
}

impl View for Body {
    type V = BodyView;

    open spec fn view(&self) -> BodyView {
        match *self {
            Body::Empty => BodyView::Empty,
            Body::Form(pairs) => BodyView::Form(pairs_view(pairs@)),
            Body::Json(value) => BodyView::Json(value@),
        }
    }
}

impl View for Request {
    type V = RequestView;

    open spec fn view(&self) -> RequestView {
        RequestView {
            method: self.method,
            url: self.url@,
            query: pairs_view(self.query@),
            headers: pairs_view(self.headers@),
            body: self.body@,
            timeout: self.timeout,
        }
    }
}

/// A list without pairs.
pub fn no_pairs() -> (result: Vec<(String, String)>)
    ensures
        pairs_view(result@) == Seq::<(Seq<char>, Seq<char>)>::empty(),
{
    let result: Vec<(String, String)> = Vec::new();
    assert(pairs_view(result@) =~= Seq::<(Seq<char>, Seq<char>)>::empty());
    result
}

/// Appends a pair.
pub fn add_pair(pairs: &mut Vec<(String, String)>, name: &str, value: &str)
    ensures
        pairs_view(final(pairs)@) == pairs_view(old(pairs)@).push((name@, value@)),
{
    pairs.push((name.to_owned(), value.to_owned()));
    assert(pairs_view(pairs@) =~= pairs_view(old(pairs)@).push((name@, value@)));
}

} // verus!
