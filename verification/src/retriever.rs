//! What can go wrong when a schema document is fetched for a reference.
use vstd::prelude::*;
use crate::text::str_chars;

verus! {

/// The failure of a retriever that the user supplied.
#[derive(Debug)]
pub enum RetrieverError {
    /// The retriever gave nothing for the URI.
    ReturnedNil { uri: String },
    /// What the retriever gave is no JSON value.
    ConversionFailed { message: String },
    /// The retriever itself failed.
    CallbackFailed { uri: String, message: String },
}

/// The model of a [`RetrieverError`].
pub enum RetrieverErrorView {
    ReturnedNil { uri: Seq<char> },
    ConversionFailed { message: Seq<char> },
    CallbackFailed { uri: Seq<char>, message: Seq<char> },
}

impl View for RetrieverError {
    type V = RetrieverErrorView;

    open spec fn view(&self) -> RetrieverErrorView {
        match self {
            RetrieverError::ReturnedNil { uri } => RetrieverErrorView::ReturnedNil { uri: uri@ },
            RetrieverError::ConversionFailed { message } => RetrieverErrorView::ConversionFailed {
                message: message@,
            },
            RetrieverError::CallbackFailed { uri, message } => RetrieverErrorView::CallbackFailed {
                uri: uri@,
                message: message@,
            },
        }
    }
}

/// The message of a failure.
pub open spec fn retriever_message(error: RetrieverErrorView) -> Seq<char> {
    match error {
        RetrieverErrorView::ReturnedNil { uri } => "Retriever returned nil for URI: "@ + uri,
        RetrieverErrorView::ConversionFailed { message } => "Failed to convert retriever result: "@
            + message,
        RetrieverErrorView::CallbackFailed { uri, message } => "Retriever failed for "@ + uri + ": "@
            + message,
    }
}

impl RetrieverError {
    /// The message of the failure.
    pub fn message(&self) -> (r: String)
        ensures
            r@ == retriever_message(self@),
    {
        match self {
            RetrieverError::ReturnedNil { uri } => {
                let mut out = String::from_str("Retriever returned nil for URI: ");
                out.append(uri.as_str());
                out
            },
            RetrieverError::ConversionFailed { message } => {
                let mut out = String::from_str("Failed to convert retriever result: ");
                out.append(message.as_str());
                out
            },
            RetrieverError::CallbackFailed { uri, message } => {
                let mut out = String::from_str("Retriever failed for ");
                out.append(uri.as_str());
                out.append(": ");
                out.append(message.as_str());
                out
            },
        }
    }
}

/// Whether the text of a number writes an integer: it has neither a
/// fraction nor an exponent.
pub open spec fn integer_text(number: Seq<char>) -> bool {
    forall|i: int| 0 <= i < number.len() ==> !fraction_mark(#[trigger] number[i])
}

/// Whether the character starts a fraction or an exponent.
pub open spec fn fraction_mark(c: char) -> bool {
    c == '.' || c == 'e' || c == 'E'
}

/// Whether the text of a number writes an integer, which is handed on as an
/// integer of any size; any other number is handed on as a decimal.
pub fn is_integer_text(number: &str) -> (r: bool)
    ensures
        r == integer_text(number@),
{
    let chars = str_chars(number);
    let mut i: usize = 0;
    while i < chars.len()
        invariant
            i <= chars.len(),
            chars@ == number@,
            forall|j: int| 0 <= j < i ==> !fraction_mark(#[trigger] number@[j]),
        decreases chars.len() - i,
    {
        let c = chars[i];
        if c == '.' || c == 'e' || c == 'E' {
            proof {
                assert(fraction_mark(number@[i as int]));
            }
            return false;
        }
        i += 1;
    }
    true
}

} // verus!
