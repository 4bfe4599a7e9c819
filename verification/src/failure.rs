//! Why no cost report could be made.

use crate::text::joined;
use vstd::prelude::*;

verus! {

/// Why no cost report could be made. The texts are what the part that failed
/// said of it.
#[derive(Debug, PartialEq, Eq)]
pub enum Failure {
    /// The cache could not be asked.
    CacheLookup(String),
    /// The page of the contract could not be fetched.
    Request(String),
    /// The page of the contract holds no source code.
    NoSource,
    /// The source code could not be parsed.
    Syntax(String),
    /// The costs of the source code could not be determined.
    StaticCost(String),
}

/// The model of a [`Failure`].
pub enum FailureView {
    CacheLookup(Seq<char>),
    Request(Seq<char>),
    NoSource,
    Syntax(Seq<char>),
    StaticCost(Seq<char>),
}

impl View for Failure {
    type V = FailureView;

    open spec fn view(&self) -> FailureView {
        match self {
            Failure::CacheLookup(m) => FailureView::CacheLookup(m@),
            Failure::Request(m) => FailureView::Request(m@),
            Failure::NoSource => FailureView::NoSource,
            Failure::Syntax(m) => FailureView::Syntax(m@),
            Failure::StaticCost(m) => FailureView::StaticCost(m@),
        }
    }
}

impl FailureView {
    /// The failure in words.
    pub open spec fn message(self) -> Seq<char> {
        match self {
            FailureView::CacheLookup(m) => "Cache lookup error: "@ + m,
            FailureView::Request(m) => m,
            FailureView::NoSource =>
                "Could not find source code in the HTML page. The page may load content dynamically via JavaScript."@,
            FailureView::Syntax(m) => "Failed to build AST: "@ + m,
            FailureView::StaticCost(m) => "Failed to get static cost map: "@ + m,
        }
    }
}

impl Failure {
    /// The failure in words.
    pub fn message(&self) -> (r: String)
        ensures
            r@ == self@.message(),
    {
        match self {
            Failure::CacheLookup(m) => joined("Cache lookup error: ", m.as_str()),
            Failure::Request(m) => m.clone(),
            Failure::NoSource =>
                "Could not find source code in the HTML page. The page may load content dynamically via JavaScript.".to_owned(),
            Failure::Syntax(m) => joined("Failed to build AST: ", m.as_str()),
            Failure::StaticCost(m) => joined("Failed to get static cost map: ", m.as_str()),
        }
    }
}

/// The model of a failure is of the same kind, with the same words of whatever
/// failed.
pub proof fn law_failure_view(failure: Failure)
    ensures
        match failure {
            Failure::CacheLookup(m) => failure@ == FailureView::CacheLookup(m@),
            Failure::Request(m) => failure@ == FailureView::Request(m@),
            Failure::NoSource => failure@ == FailureView::NoSource,
            Failure::Syntax(m) => failure@ == FailureView::Syntax(m@),
            Failure::StaticCost(m) => failure@ == FailureView::StaticCost(m@),
        },
{
}

/// The words for a failure say what failed, followed by what it said of it.
pub proof fn law_failure_words(m: Seq<char>)
    ensures
        FailureView::CacheLookup(m).message() == "Cache lookup error: "@ + m,
        FailureView::Request(m).message() == m,
        FailureView::NoSource.message()
            == "Could not find source code in the HTML page. The page may load content dynamically via JavaScript."@,
        FailureView::Syntax(m).message() == "Failed to build AST: "@ + m,
        FailureView::StaticCost(m).message() == "Failed to get static cost map: "@ + m,
{
}

} // verus!
