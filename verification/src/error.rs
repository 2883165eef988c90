//! Why a project is not in order, why a run failed, and how the causes are
//! put into words.

use crate::codeowners::{ParseError, ParseErrorView};
use crate::github::FetchError;
use crate::text::{join, joined, texts};
use vstd::prelude::*;

verus! {

/// What stands before each cause where the causes are indented.
pub const INDENT: &'static str = "    ";

/// A project whose files nobody has looked at yet.
pub const NOT_YET_CHECKED: &'static str = "This property has not yet been validated";

/// A `CODEOWNERS` file that could not be read.
pub const UNDETERMINED: &'static str = "Unable to determine maintainers";

/// A `CODEOWNERS` file without maintainers for the whole project.
pub const NO_MAINTAINERS: &'static str = "No maintainers were found for * the CODEOWNERS file";

/// A list of projects that could not be had.
pub const LIST_UNAVAILABLE: &'static str = "Unable to get list of open source Embark projects";

/// A run over all projects in which one was not in order.
pub const NOT_ALL_CONFORM: &'static str = "Not all projects conform to our guidelines";

/// A run over one project that was not in order.
pub const NOT_CONFORM: &'static str = "The project does not conform to our guidelines";

/// Why a project has no maintainers to show.
#[derive(Debug, PartialEq, Eq)]
pub enum Failure {
    /// Nobody has looked at the project yet.
    NotYetChecked,
    /// No branch gave the `CODEOWNERS` file.
    Fetch(FetchError),
    /// The `CODEOWNERS` file could not be read.
    Parse(ParseError),
    /// The `CODEOWNERS` file names no maintainer for the whole project.
    NoMaintainersDeclared,
}

/// What a `Failure` says.
pub enum FailureView {
    NotYetChecked,
    Fetch(Seq<char>),
    Parse(ParseErrorView),
    NoMaintainersDeclared,
}

impl View for Failure {
    type V = FailureView;

    open spec fn view(&self) -> FailureView {
        match self {
            Failure::NotYetChecked => FailureView::NotYetChecked,
            Failure::Fetch(error) => FailureView::Fetch(error@),
            Failure::Parse(error) => FailureView::Parse(error@),
            Failure::NoMaintainersDeclared => FailureView::NoMaintainersDeclared,
        }
    }
}

impl FailureView {
    /// The failure in words, then what caused it, then what caused that.
    pub open spec fn causes(self) -> Seq<Seq<char>> {
        match self {
            FailureView::NotYetChecked => seq![NOT_YET_CHECKED@],
            FailureView::Fetch(cause) => seq![cause],
            FailureView::Parse(error) => seq![UNDETERMINED@, error.message()],
            FailureView::NoMaintainersDeclared => seq![NO_MAINTAINERS@],
        }
    }
}

impl Failure {
    /// The failure in words, then what caused it, then what caused that.
    pub fn causes(&self) -> (causes: Vec<String>)
        ensures
            texts(causes@) == self@.causes(),
    {
        let mut causes: Vec<String> = Vec::new();
        match self {
            Failure::NotYetChecked => {
                causes.push(String::from_str(NOT_YET_CHECKED));
            },
            Failure::Fetch(error) => {
                causes.push(error.cause().clone());
            },
            Failure::Parse(error) => {
                causes.push(String::from_str(UNDETERMINED));
                causes.push(error.message());
            },
            Failure::NoMaintainersDeclared => {
                causes.push(String::from_str(NO_MAINTAINERS));
            },
        }
        assert(texts(causes@) == self@.causes());
        causes
    }
}

/// Why a run ended in an error.
#[derive(Debug, PartialEq, Eq)]
pub enum RunError {
    /// The list of the projects could not be had.
    ListDownload(String),
    /// One of the projects of the list is not in order.
    NotAllConform,
    /// The one project that was asked about is not in order.
    NotConform,
    /// The message about the projects that are not in order could not be
    /// sent.
    NotificationDelivery(String),
}

/// What a `RunError` says.
pub enum RunErrorView {
    ListDownload(Seq<char>),
    NotAllConform,
    NotConform,
    NotificationDelivery(Seq<char>),
}

impl View for RunError {
    type V = RunErrorView;

    open spec fn view(&self) -> RunErrorView {
        match self {
            RunError::ListDownload(cause) => RunErrorView::ListDownload(cause@),
            RunError::NotAllConform => RunErrorView::NotAllConform,
            RunError::NotConform => RunErrorView::NotConform,
            RunError::NotificationDelivery(cause) => RunErrorView::NotificationDelivery(cause@),
        }
    }
}

impl RunErrorView {
    /// The error in words, then what caused it.
    pub open spec fn causes(self) -> Seq<Seq<char>> {
        match self {
            RunErrorView::ListDownload(cause) => seq![LIST_UNAVAILABLE@, cause],
            RunErrorView::NotAllConform => seq![NOT_ALL_CONFORM@],
            RunErrorView::NotConform => seq![NOT_CONFORM@],
            RunErrorView::NotificationDelivery(cause) => seq![cause],
        }
    }
}

impl RunError {
    /// The error in words, then what caused it.
    pub fn causes(&self) -> (causes: Vec<String>)
        ensures
            texts(causes@) == self@.causes(),
    {
        let mut causes: Vec<String> = Vec::new();
        match self {
            RunError::ListDownload(cause) => {
                causes.push(String::from_str(LIST_UNAVAILABLE));
                causes.push(cause.clone());
            },
            RunError::NotAllConform => {
                causes.push(String::from_str(NOT_ALL_CONFORM));
            },
            RunError::NotConform => {
                causes.push(String::from_str(NOT_CONFORM));
            },
            RunError::NotificationDelivery(cause) => {
                causes.push(cause.clone());
            },
        }
        assert(texts(causes@) == self@.causes());
        causes
    }
}

/// One cause as it stands on its line.
pub open spec fn cause_line(cause: Seq<char>, indent: bool) -> Seq<char> {
    if indent {
        INDENT@ + cause
    } else {
        cause
    }
}

/// The causes `causes` as one text: each on a line of its own, in order, and
/// each behind `INDENT` where `indent` is set.
pub open spec fn cause_text(causes: Seq<Seq<char>>, indent: bool) -> Seq<char> {
    joined(Seq::new(causes.len(), |i: int| cause_line(causes[i], indent)), "\n"@)
}

/// Puts an error and its causes into one string: each on a line of its own,
/// in order, and each behind `INDENT` where `indent` is set.
pub fn cause_string(causes: &Vec<String>, indent: bool) -> (out: String)
    ensures
        out@ == cause_text(texts(causes@), indent),
{
    let mut rows: Vec<String> = Vec::new();
    let mut i: usize = 0;
    while i < causes.len()
        invariant
            i <= causes.len(),
            rows.len() == i,
            forall|k: int| 0 <= k < i ==> rows@[k]@ == cause_line(causes@[k]@, indent),
        decreases causes.len() - i,
    {
        if indent {
            rows.push(String::from_str(INDENT).concat(causes[i].as_str()));
        } else {
            rows.push(causes[i].clone());
        }
        i += 1;
    }
    assert(texts(rows@) == Seq::new(
        texts(causes@).len(),
        |i: int| cause_line(texts(causes@)[i], indent),
    ));
    proof {
        reveal_strlit("\n");
    }
    join(&rows, "\n")
}

} // verus!
