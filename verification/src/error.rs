//! What a request is refused with.

use vstd::prelude::*;

verus! {

#[derive(Debug)]
pub enum ServerError {
    NotFound(String),
    Unauthorized,
    Forbidden(String),
    BadRequest(String),
    Database(String),
    Storage(String),
    Json(String),
    Internal(String),
}

/// [`ServerError`] with its texts as characters.
pub enum ServerErrorView {
    NotFound(Seq<char>),
    Unauthorized,
    Forbidden(Seq<char>),
    BadRequest(Seq<char>),
    Database(Seq<char>),
    Storage(Seq<char>),
    Json(Seq<char>),
    Internal(Seq<char>),
}

impl View for ServerError {
    type V = ServerErrorView;

    open spec fn view(&self) -> ServerErrorView {
        match self {
            ServerError::NotFound(s) => ServerErrorView::NotFound(s@),
            ServerError::Unauthorized => ServerErrorView::Unauthorized,
            ServerError::Forbidden(s) => ServerErrorView::Forbidden(s@),
            ServerError::BadRequest(s) => ServerErrorView::BadRequest(s@),
            ServerError::Database(s) => ServerErrorView::Database(s@),
            ServerError::Storage(s) => ServerErrorView::Storage(s@),
            ServerError::Json(s) => ServerErrorView::Json(s@),
            ServerError::Internal(s) => ServerErrorView::Internal(s@),
        }
    }
}

/// The HTTP status of a refusal.
pub open spec fn status_code(e: ServerErrorView) -> u16 {
    match e {
        ServerErrorView::NotFound(_) => 404,
        ServerErrorView::Unauthorized => 401,
        ServerErrorView::Forbidden(_) => 403,
        ServerErrorView::BadRequest(_) => 400,
        _ => 500,
    }
}

impl ServerError {
    /// The HTTP status of the refusal.
    pub fn status(&self) -> (r: u16)
        ensures
            r == status_code(self@),
    {
        match self {
            ServerError::NotFound(_) => 404,
            ServerError::Unauthorized => 401,
            ServerError::Forbidden(_) => 403,
            ServerError::BadRequest(_) => 400,
            _ => 500,
        }
    }
}

/// The client's own errors are told with a status of the four hundreds, each with its own; all
/// others are the server's.
pub proof fn law_statuses_tell_whose_error_it_is(e: ServerErrorView)
    ensures
        e is NotFound <==> status_code(e) == 404,
        e is Unauthorized <==> status_code(e) == 401,
        e is Forbidden <==> status_code(e) == 403,
        e is BadRequest <==> status_code(e) == 400,
        e is Database || e is Storage || e is Json || e is Internal <==> status_code(e) == 500,
{
}

} // verus!
