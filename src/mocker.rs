//! Plain request and response shapes.
use vstd::prelude::*;

verus! {

#[derive(PartialEq, Eq, Structural, Debug, Clone, Copy)]
pub enum Method {
    Get,
    Post,
    Put,
    Options,
    Delete,
}

pub struct Request {
    pub method: Method,
    pub uri: String,
    pub header: Option<Vec<(String, String)>>,
    pub body: Option<String>,
}

pub struct Uri {
    pub path: String,
    pub query: Option<Vec<(String, String)>>,
}

pub struct Response {
    pub header: Option<Vec<(String, String)>>,
    pub body: Option<String>,
}

} // verus!
