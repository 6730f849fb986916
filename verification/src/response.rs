//! What an operation answers on the wire: a status and headers.

use vstd::prelude::*;
use crate::error::RegistryError;
use crate::text::same_text;

verus! {

/// Model of a [`Response`].
pub struct ResponseModel {
    pub status: u16,
    /// Header names and values, in the order in which they are sent.
    pub headers: Seq<(Seq<char>, Seq<char>)>,
}

/// One header of a response.
#[derive(Debug)]
pub struct Header {
    pub name: String,
    pub value: String,
}

/// The answer to a request.
#[derive(Debug)]
pub struct Response {
    pub status: u16,
    pub headers: Vec<Header>,
}

impl View for Header {
    type V = (Seq<char>, Seq<char>);

    open spec fn view(&self) -> (Seq<char>, Seq<char>) {
        (self.name@, self.value@)
    }
}

impl View for Response {
    type V = ResponseModel;

    open spec fn view(&self) -> ResponseModel {
        ResponseModel {
            status: self.status,
            headers: Seq::new(self.headers@.len(), |i: int| self.headers@[i]@),
        }
    }
}

/// The status that reports a failure: a missing blob, manifest or session is
/// 404, a digest mismatch or an invalid manifest is 400, a storage failure
/// is 500.
pub open spec fn status_of(error: RegistryError) -> u16 {
    match error {
        RegistryError::NotFound => 404,
        RegistryError::SessionNotFound => 404,
        RegistryError::SessionExpired => 404,
        RegistryError::DigestMismatch => 400,
        RegistryError::InvalidManifest => 400,
        RegistryError::IOFailure => 500,
    }
}

/// The value of the first header called `name`.
pub open spec fn header_value(headers: Seq<(Seq<char>, Seq<char>)>, name: Seq<char>) -> Option<
    Seq<char>,
>
    decreases headers.len(),
{
    if headers.len() == 0 {
        None
    } else if headers[0].0 == name {
        Some(headers[0].1)
    } else {
        header_value(headers.drop_first(), name)
    }
}

impl ResponseModel {
    /// A response without headers.
    pub open spec fn bare(status: u16) -> ResponseModel {
        ResponseModel { status, headers: Seq::empty() }
    }

    /// The response that reports `error`.
    pub open spec fn failure(error: RegistryError) -> ResponseModel {
        ResponseModel::bare(status_of(error))
    }

    /// This response with one more header.
    pub open spec fn with(self, name: Seq<char>, value: Seq<char>) -> ResponseModel {
        ResponseModel { status: self.status, headers: self.headers.push((name, value)) }
    }
}

impl Response {
    /// A response without headers.
    pub fn bare(status: u16) -> (response: Response)
        ensures
            response@ == ResponseModel::bare(status),
    {
        let response = Response { status, headers: Vec::new() };
        assert(response@.headers =~= Seq::empty());
        response
    }

    /// The response that reports `error`.
    pub fn failure(error: RegistryError) -> (response: Response)
        ensures
            response@ == ResponseModel::failure(error),
    {
        let status: u16 = match error {
            RegistryError::NotFound => 404,
            RegistryError::SessionNotFound => 404,
            RegistryError::SessionExpired => 404,
            RegistryError::DigestMismatch => 400,
            RegistryError::InvalidManifest => 400,
            RegistryError::IOFailure => 500,
        };
        Response::bare(status)
    }

    /// Adds a header after those that are there.
    pub fn with(self, name: &str, value: String) -> (response: Response)
        ensures
            response@ == self@.with(name@, value@),
    {
        let ghost before = self@;
        let Response { status, headers } = self;
        let mut headers = headers;
        headers.push(Header { name: name.to_owned(), value });
        let response = Response { status, headers };
        assert(response@.headers =~= before.headers.push((name@, value@)));
        response
    }

    /// The value of the first header called `name`.
    pub fn header(&self, name: &str) -> (found: Option<&String>)
        ensures
            match found {
                Some(value) => header_value(self@.headers, name@) == Some(value@),
                None => header_value(self@.headers, name@) == None::<Seq<char>>,
            },
    {
        let mut i: usize = 0;
        assert(self@.headers.subrange(0, self.headers@.len() as int) =~= self@.headers);
        while i < self.headers.len()
            invariant
                i <= self.headers@.len(),
                header_value(self@.headers, name@) == header_value(
                    self@.headers.subrange(i as int, self.headers@.len() as int),
                    name@,
                ),
            decreases self.headers@.len() - i,
        {
            let ghost rest = self@.headers.subrange(i as int, self.headers@.len() as int);
            assert(rest[0] == self.headers@[i as int]@);
            assert(rest.drop_first() =~= self@.headers.subrange(
                i as int + 1,
                self.headers@.len() as int,
            ));
            if same_text(self.headers[i].name.as_str(), name) {
                return Some(&self.headers[i].value);
            }
            i = i + 1;
        }
        None
    }
}

} // verus!
