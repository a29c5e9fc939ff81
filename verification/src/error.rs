//! Errors of the ErogameScape client.
use vstd::prelude::*;
use vstd::string::StringExecFns;

use crate::deserializer::{deserialize_error_message, DeserializeError, DeserializeErrorView};

verus! {

/// Why the result page of a query gave no rows. A failed request is the
/// caller's to report: no function here makes one.
#[derive(Debug)]
pub enum Error {
    /// A row could not be turned into a value.
    SqlDeserialize(DeserializeError),
    /// The site refused the SQL; the message is the one it showed.
    SqlExecute(String),
    /// The result page did not have the expected shape.
    HtmlParse(String),
}

/// What an [`Error`] says, with its messages as characters.
pub enum ErrorView {
    SqlDeserialize(DeserializeErrorView),
    SqlExecute(Seq<char>),
    HtmlParse(Seq<char>),
}

impl View for Error {
    type V = ErrorView;

    open spec fn view(&self) -> ErrorView {
        match self {
            Error::SqlDeserialize(e) => ErrorView::SqlDeserialize(e@),
            Error::SqlExecute(m) => ErrorView::SqlExecute(m@),
            Error::HtmlParse(m) => ErrorView::HtmlParse(m@),
        }
    }
}

impl Error {
    /// The text that the error reads as; a row's error reads as itself.
    pub fn message(&self) -> (r: String)
        ensures
            r@ == error_message(self@),
    {
        match self {
            Error::SqlDeserialize(e) => e.message(),
            Error::SqlExecute(m) => {
                let mut r = String::from_str("Failed to execute sql on erogamescape: ");
                r.append(m.as_str());
                r
            },
            Error::HtmlParse(m) => {
                let mut r = String::from_str("Failed to parse html: ");
                r.append(m.as_str());
                r
            },
        }
    }
}

/// The text of an error.
pub open spec fn error_message(e: ErrorView) -> Seq<char> {
    match e {
        ErrorView::SqlDeserialize(d) => deserialize_error_message(d),
        ErrorView::SqlExecute(m) => "Failed to execute sql on erogamescape: "@ + m,
        ErrorView::HtmlParse(m) => "Failed to parse html: "@ + m,
    }
}

} // verus!
