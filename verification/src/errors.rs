//! The ways in which pricing a portfolio can fail.

use crate::decimal::{text_of, Decimal, Quantity};
use vstd::prelude::*;
use vstd::string::*;

verus! {

/// A failure. None is retried: each ends the run that met it.
#[derive(Debug)]
pub enum AppError {
    /// The text names no asset that is known here.
    UnrecognizedAsset(String),
    /// The text names no currency that is known here.
    UnsupportedCurrency(String),
    /// A reply lacks the field at this path.
    MissingField(String),
    /// The field at this path holds no number.
    NonNumericField(String),
    /// A request did not get a reply; the text says why.
    TransportFailure(String),
    /// A reply is not JSON; the text says why.
    MalformedResponse(String),
    /// There are not as many amounts as assets: the number of assets, then
    /// the number of amounts.
    InputLengthMismatch(usize, usize),
}

/// A failure with its texts as sequences of characters.
pub enum Failure {
    UnrecognizedAsset(Seq<char>),
    UnsupportedCurrency(Seq<char>),
    MissingField(Seq<char>),
    NonNumericField(Seq<char>),
    TransportFailure(Seq<char>),
    MalformedResponse(Seq<char>),
    InputLengthMismatch(int, int),
}

impl View for AppError {
    type V = Failure;

    open spec fn view(&self) -> Failure {
        match self {
            AppError::UnrecognizedAsset(s) => Failure::UnrecognizedAsset(s@),
            AppError::UnsupportedCurrency(s) => Failure::UnsupportedCurrency(s@),
            AppError::MissingField(s) => Failure::MissingField(s@),
            AppError::NonNumericField(s) => Failure::NonNumericField(s@),
            AppError::TransportFailure(s) => Failure::TransportFailure(s@),
            AppError::MalformedResponse(s) => Failure::MalformedResponse(s@),
            AppError::InputLengthMismatch(expected, got) => Failure::InputLengthMismatch(
                *expected as int,
                *got as int,
            ),
        }
    }
}

/// What is told of a failure: a cross, then what went wrong, then the text,
/// the path or the numbers that the failure carries.
pub open spec fn message_of(failure: Failure) -> Seq<char> {
    match failure {
        Failure::UnrecognizedAsset(s) => "✘ Unrecognized asset: "@ + s,
        Failure::UnsupportedCurrency(s) => "✘ Unsupported currency: "@ + s,
        Failure::MissingField(s) => "✘ Missing field: "@ + s,
        Failure::NonNumericField(s) => "✘ Not a number: "@ + s,
        Failure::TransportFailure(s) => "✘ Request failed: "@ + s,
        Failure::MalformedResponse(s) => "✘ Reply is not JSON: "@ + s,
        Failure::InputLengthMismatch(expected, got) => "✘ Amounts do not match assets: expected "@
            + text_of(Quantity { units: expected, places: 0 }) + ", got "@ + text_of(
            Quantity { units: got, places: 0 },
        ),
    }
}

impl AppError {
    /// What is told of the failure.
    pub fn message(&self) -> (r: String)
        ensures
            r@ == message_of(self@),
    {
        match self {
            AppError::UnrecognizedAsset(s) => String::from_str("✘ Unrecognized asset: ").concat(
                s.as_str(),
            ),
            AppError::UnsupportedCurrency(s) => String::from_str(
                "✘ Unsupported currency: ",
            ).concat(s.as_str()),
            AppError::MissingField(s) => String::from_str("✘ Missing field: ").concat(s.as_str()),
            AppError::NonNumericField(s) => String::from_str("✘ Not a number: ").concat(
                s.as_str(),
            ),
            AppError::TransportFailure(s) => String::from_str("✘ Request failed: ").concat(
                s.as_str(),
            ),
            AppError::MalformedResponse(s) => String::from_str("✘ Reply is not JSON: ").concat(
                s.as_str(),
            ),
            AppError::InputLengthMismatch(expected, got) => {
                let expected: String = Decimal::whole(*expected).text();
                let got: String = Decimal::whole(*got).text();
                String::from_str("✘ Amounts do not match assets: expected ").concat(
                    expected.as_str(),
                ).concat(", got ").concat(got.as_str())
            },
        }
    }
}

} // verus!
