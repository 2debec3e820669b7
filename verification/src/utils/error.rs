//! Errors of the service.
use vstd::prelude::*;

use crate::utils::text::prefixed;

verus! {

/// What went wrong while a request was served, with the text that describes it.
#[derive(Debug)]
pub enum ServiceError {
    /// The TON side refused or failed.
    TonClient(String),
    /// The WebSocket connection failed.
    WebSocket(String),
    /// A message could not be read or written.
    Serialization(String),
    /// An HTTP request failed.
    HttpClient(String),
}

/// [`ServiceError`] by its characters.
pub enum ServiceErrorView {
    TonClient(Seq<char>),
    WebSocket(Seq<char>),
    Serialization(Seq<char>),
    HttpClient(Seq<char>),
}

impl View for ServiceError {
    type V = ServiceErrorView;

    open spec fn view(&self) -> ServiceErrorView {
        match *self {
            ServiceError::TonClient(e) => ServiceErrorView::TonClient(e@),
            ServiceError::WebSocket(e) => ServiceErrorView::WebSocket(e@),
            ServiceError::Serialization(e) => ServiceErrorView::Serialization(e@),
            ServiceError::HttpClient(e) => ServiceErrorView::HttpClient(e@),
        }
    }
}

/// How an error reads to a client.
pub open spec fn error_text(error: ServiceErrorView) -> Seq<char> {
    match error {
        ServiceErrorView::TonClient(e) => "TON client error: "@ + e,
        ServiceErrorView::WebSocket(e) => "WebSocket error: "@ + e,
        ServiceErrorView::Serialization(e) => "Serialization error: "@ + e,
        ServiceErrorView::HttpClient(e) => "HTTP client error: "@ + e,
    }
}

impl ServiceError {
    /// The error as a line of text.
    pub fn to_text(&self) -> (text: String)
        ensures
            text@ == error_text(self@),
    {
        match self {
            ServiceError::TonClient(e) => prefixed("TON client error: ", e),
            ServiceError::WebSocket(e) => prefixed("WebSocket error: ", e),
            ServiceError::Serialization(e) => prefixed("Serialization error: ", e),
            ServiceError::HttpClient(e) => prefixed("HTTP client error: ", e),
        }
    }
}

/// An error reads as where it comes from, followed by its own text.
pub proof fn law_error_says_where_it_comes_from(text: Seq<char>)
    ensures
        error_text(ServiceErrorView::TonClient(text)) == "TON client error: "@ + text,
        error_text(ServiceErrorView::WebSocket(text)) == "WebSocket error: "@ + text,
        error_text(ServiceErrorView::Serialization(text)) == "Serialization error: "@ + text,
        error_text(ServiceErrorView::HttpClient(text)) == "HTTP client error: "@ + text,
{
}

/// An error is spoken of by its kind and all its characters.
pub proof fn law_error_is_shown_whole(text: String)
    ensures
        ServiceError::TonClient(text)@ == ServiceErrorView::TonClient(text@),
        ServiceError::WebSocket(text)@ == ServiceErrorView::WebSocket(text@),
        ServiceError::Serialization(text)@ == ServiceErrorView::Serialization(text@),
        ServiceError::HttpClient(text)@ == ServiceErrorView::HttpClient(text@),
{
}

} // verus!
