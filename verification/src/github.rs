//! Where the files of the projects lie on GitHub, and the order in which the
//! branches of a project are asked for its `CODEOWNERS` file.
//!
//! Nothing here fetches a file. A `Lookup` says which file to fetch next and
//! takes what the fetch gave; the caller does the fetching.

use crate::text::texts;
use vstd::prelude::*;

verus! {

/// The organisation that owns the projects.
pub const ORGANISATION: &'static str = "EmbarkStudios";

/// The path of the `CODEOWNERS` file in a project.
pub const CODEOWNERS_PATH: &'static str = ".github/CODEOWNERS";

/// The project that holds the list of the open source projects.
pub const WEBSITE_PROJECT: &'static str = "opensource-website";

/// The path of that list in its project.
pub const WEBSITE_DATA_PATH: &'static str = "data.json";

/// The branch that is asked first.
pub const MAIN_BRANCH: &'static str = "main";

/// The branch that is asked where the first has no file.
pub const MASTER_BRANCH: &'static str = "master";

/// The cause that is given where there was no branch to ask.
pub const NO_BRANCH: &'static str = "No branch was given to download the file from";

/// A file of a project on one of its branches.
#[derive(Debug, PartialEq, Eq)]
pub struct FileRequest {
    pub owner: String,
    pub repo: String,
    pub branch: String,
    pub path: String,
}

/// What a `FileRequest` says.
pub struct FileRequestView {
    pub owner: Seq<char>,
    pub repo: Seq<char>,
    pub branch: Seq<char>,
    pub path: Seq<char>,
}

impl View for FileRequest {
    type V = FileRequestView;

    open spec fn view(&self) -> FileRequestView {
        FileRequestView {
            owner: self.owner@,
            repo: self.repo@,
            branch: self.branch@,
            path: self.path@,
        }
    }
}

/// The list of the open source projects: `data.json` on the branch `main` of
/// the website's project.
pub fn projects_list_request() -> (request: FileRequest)
    ensures
        request@ == (FileRequestView {
            owner: ORGANISATION@,
            repo: WEBSITE_PROJECT@,
            branch: MAIN_BRANCH@,
            path: WEBSITE_DATA_PATH@,
        }),
{
    FileRequest {
        owner: String::from_str(ORGANISATION),
        repo: String::from_str(WEBSITE_PROJECT),
        branch: String::from_str(MAIN_BRANCH),
        path: String::from_str(WEBSITE_DATA_PATH),
    }
}

/// Why a file could not be had: the cause, in words.
#[derive(Debug, PartialEq, Eq)]
pub struct FetchError {
    cause: String,
}

impl View for FetchError {
    type V = Seq<char>;

    closed spec fn view(&self) -> Seq<char> {
        self.cause@
    }
}

impl FetchError {
    /// The error with the cause `cause`.
    pub fn new(cause: String) -> (error: Self)
        ensures
            error@ == cause@,
    {
        FetchError { cause }
    }

    /// The cause.
    pub fn cause(&self) -> (cause: &String)
        ensures
            cause@ == self@,
    {
        &self.cause
    }
}

impl Clone for FetchError {
    fn clone(&self) -> (copy: Self)
        ensures
            copy@ == self@,
    {
        FetchError { cause: self.cause.clone() }
    }
}

/// What a fetch gave: the text of the file, or the cause of the failure.
pub open spec fn response_view(response: Result<String, String>) -> Result<Seq<char>, Seq<char>> {
    match response {
        Ok(text) => Ok(text@),
        Err(cause) => Err(cause@),
    }
}

/// What a lookup ended in: the text of the file, or the cause of the failure.
pub open spec fn fetched_view(fetched: Result<String, FetchError>) -> Result<
    Seq<char>,
    Seq<char>,
> {
    match fetched {
        Ok(text) => Ok(text@),
        Err(error) => Err(error@),
    }
}

/// The state of a lookup.
pub struct LookupView {
    /// The project whose file is looked for.
    pub repo: Seq<char>,
    /// The branches to ask, in order.
    pub branches: Seq<Seq<char>>,
    /// How many of them have answered.
    pub tried: nat,
    /// The file, once a branch has given it.
    pub found: Option<Seq<char>>,
    /// The cause of the last failure.
    pub failure: Option<Seq<char>>,
}

impl LookupView {
    /// Whether the state is one that a lookup can be in: no more branches
    /// have answered than there are, and a file was found only by asking.
    pub open spec fn wf(self) -> bool {
        &&& self.tried <= self.branches.len()
        &&& self.found is Some ==> self.tried >= 1
        &&& self.failure is Some ==> self.tried >= 1
    }

    /// The lookup for `repo` on `branches` before any branch was asked.
    pub open spec fn start(repo: Seq<char>, branches: Seq<Seq<char>>) -> LookupView {
        LookupView { repo, branches, tried: 0, found: None, failure: None }
    }

    /// The branch to ask next: the first that has not answered, as long as
    /// no branch has given the file.
    pub open spec fn pending(self) -> Option<Seq<char>> {
        if self.found is None && self.tried < self.branches.len() {
            Some(self.branches[self.tried as int])
        } else {
            None
        }
    }

    /// The state after the pending branch has answered with `response`.
    /// Where no branch is pending the answer changes nothing.
    pub open spec fn record(self, response: Result<Seq<char>, Seq<char>>) -> LookupView {
        if self.pending() is None {
            self
        } else {
            match response {
                Ok(text) => LookupView { tried: self.tried + 1, found: Some(text), ..self },
                Err(cause) => LookupView { tried: self.tried + 1, failure: Some(cause), ..self },
            }
        }
    }

    /// The state after the answers `responses`, each given to the branch that
    /// was pending when it came.
    pub open spec fn record_all(self, responses: Seq<Result<Seq<char>, Seq<char>>>) -> LookupView
        decreases responses.len(),
    {
        if responses.len() == 0 {
            self
        } else {
            self.record_all(responses.drop_last()).record(responses.last())
        }
    }

    /// What the lookup has come to: the file where a branch has given it,
    /// else the cause of the last failure, and `NO_BRANCH` where no branch
    /// has answered.
    pub open spec fn outcome(self) -> Result<Seq<char>, Seq<char>> {
        match self.found {
            Some(text) => Ok(text),
            None => match self.failure {
                Some(cause) => Err(cause),
                None => Err(NO_BRANCH@),
            },
        }
    }
}

/// The branches are asked in their order, and only as long as none has given
/// the file: after `responses`, none of them a success, the branch that is
/// pending is the next in order, and none is pending once all have failed.
pub proof fn lemma_lookup_asks_in_order(
    repo: Seq<char>,
    branches: Seq<Seq<char>>,
    responses: Seq<Result<Seq<char>, Seq<char>>>,
)
    requires
        responses.len() <= branches.len(),
        forall|i: int| 0 <= i < responses.len() ==> responses[i] is Err,
    ensures
        LookupView::start(repo, branches).record_all(responses).repo == repo,
        LookupView::start(repo, branches).record_all(responses).branches == branches,
        LookupView::start(repo, branches).record_all(responses).tried == responses.len(),
        LookupView::start(repo, branches).record_all(responses).found is None,
        LookupView::start(repo, branches).record_all(responses).pending() == if responses.len()
            < branches.len() {
            Some(branches[responses.len() as int])
        } else {
            None
        },
        LookupView::start(repo, branches).record_all(responses).outcome() == if responses.len()
            == 0 {
            Err::<Seq<char>, Seq<char>>(NO_BRANCH@)
        } else {
            Err(responses.last()->Err_0)
        },
    decreases responses.len(),
{
    if responses.len() > 0 {
        let init = responses.drop_last();
        lemma_lookup_asks_in_order(repo, branches, init);
        assert(responses.last() == responses[responses.len() - 1]);
    }
}

/// The first success wins: where the answer `responses[first]` is the first
/// that gives the file, the lookup ends in that file, whatever came before
/// and whatever comes after, and no branch is pending.
pub proof fn lemma_lookup_first_success_wins(
    repo: Seq<char>,
    branches: Seq<Seq<char>>,
    responses: Seq<Result<Seq<char>, Seq<char>>>,
    first: int,
)
    requires
        0 <= first < responses.len(),
        first < branches.len(),
        responses[first] is Ok,
        forall|i: int| 0 <= i < first ==> responses[i] is Err,
    ensures
        LookupView::start(repo, branches).record_all(responses).outcome() == Ok::<
            Seq<char>,
            Seq<char>,
        >(responses[first]->Ok_0),
        LookupView::start(repo, branches).record_all(responses).pending() is None,
        LookupView::start(repo, branches).record_all(responses).tried == first + 1,
    decreases responses.len(),
{
    let init = responses.drop_last();
    if first == responses.len() - 1 {
        lemma_lookup_asks_in_order(repo, branches, init);
    } else {
        lemma_lookup_first_success_wins(repo, branches, init, first);
    }
}

/// The lookup of the `CODEOWNERS` file of one project.
#[derive(Debug, PartialEq, Eq)]
pub struct Lookup {
    repo: String,
    branches: Vec<String>,
    tried: usize,
    found: Option<String>,
    failure: Option<String>,
}

impl View for Lookup {
    type V = LookupView;

    closed spec fn view(&self) -> LookupView {
        LookupView {
            repo: self.repo@,
            branches: texts(self.branches@),
            tried: self.tried as nat,
            found: match self.found {
                Some(text) => Some(text@),
                None => None,
            },
            failure: match self.failure {
                Some(cause) => Some(cause@),
                None => None,
            },
        }
    }
}

impl Lookup {
    /// The lookup for the project `repo` that asks `branches`, in order.
    pub fn new(repo: String, branches: Vec<String>) -> (lookup: Self)
        ensures
            lookup@ == LookupView::start(repo@, texts(branches@)),
            lookup@.wf(),
    {
        Lookup { repo, branches, tried: 0, found: None, failure: None }
    }

    /// The lookup for the project `repo` that asks the branch `main`, then
    /// the branch `master`.
    pub fn main_then_master(repo: String) -> (lookup: Self)
        ensures
            lookup@ == LookupView::start(repo@, seq![MAIN_BRANCH@, MASTER_BRANCH@]),
            lookup@.wf(),
    {
        let mut branches: Vec<String> = Vec::new();
        branches.push(String::from_str(MAIN_BRANCH));
        branches.push(String::from_str(MASTER_BRANCH));
        assert(texts(branches@) == seq![MAIN_BRANCH@, MASTER_BRANCH@]);
        Lookup::new(repo, branches)
    }

    /// The file to fetch next: the `CODEOWNERS` file of the project on the
    /// pending branch. `None` once a branch has given the file or all have
    /// failed.
    pub fn pending(&self) -> (request: Option<FileRequest>)
        ensures
            match self@.pending() {
                Some(branch) => request is Some && request->Some_0@ == (FileRequestView {
                    owner: ORGANISATION@,
                    repo: self@.repo,
                    branch,
                    path: CODEOWNERS_PATH@,
                }),
                None => request is None,
            },
    {
        if self.found.is_none() && self.tried < self.branches.len() {
            Some(
                FileRequest {
                    owner: String::from_str(ORGANISATION),
                    repo: self.repo.clone(),
                    branch: self.branches[self.tried].clone(),
                    path: String::from_str(CODEOWNERS_PATH),
                },
            )
        } else {
            None
        }
    }

    /// Takes what the fetch of the pending file gave. Where no file is
    /// pending, nothing changes.
    pub fn record(self, response: Result<String, String>) -> (next: Self)
        ensures
            next@ == self@.record(response_view(response)),
            self@.wf() ==> next@.wf(),
    {
        if self.found.is_none() && self.tried < self.branches.len() {
            match response {
                Ok(text) => Lookup {
                    repo: self.repo,
                    branches: self.branches,
                    tried: self.tried + 1,
                    found: Some(text),
                    failure: self.failure,
                },
                Err(cause) => Lookup {
                    repo: self.repo,
                    branches: self.branches,
                    tried: self.tried + 1,
                    found: self.found,
                    failure: Some(cause),
                },
            }
        } else {
            self
        }
    }

    /// What the lookup has come to: the file that a branch gave, or the
    /// cause of the last failure, and `NO_BRANCH` where no branch has
    /// answered.
    pub fn outcome(self) -> (fetched: Result<String, FetchError>)
        ensures
            fetched_view(fetched) == self@.outcome(),
    {
        match self.found {
            Some(text) => Ok(text),
            None => match self.failure {
                Some(cause) => Err(FetchError::new(cause)),
                None => Err(FetchError::new(String::from_str(NO_BRANCH))),
            },
        }
    }
}

} // verus!
