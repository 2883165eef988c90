//! The validation of the projects: a project is in order where its `CODEOWNERS`
//! file names at least one maintainer for the whole project.
//!
//! Nothing here fetches a file, prints a line or sends a message. The
//! functions take what was fetched and say what is to be printed and sent,
//! and how the run ends.

use crate::codeowners::{
    is_wildcard, lemma_primary_is_last_wildcard, lemma_read_lines_fails_fast,
    lemma_read_lines_rules, parse, primary, read_line, rule_wf, CodeOwners,
};
use crate::error::{cause_string, cause_text, Failure, FailureView, RunError, RunErrorView};
use crate::github::{fetched_view, FetchError};
use crate::maintainers::MaintainerSet;
use crate::slack::{block_views, Block, BlockView, Notification, NotificationView};
use crate::text::{join, joined, lines, texts};
use vstd::prelude::*;
use vstd::std_specs::iter::IteratorSpec;

verus! {

/// What begins the line of a project that is not in order: a cross.
pub const CROSS: &'static str = "❌ ";

/// What begins the line of a project that is in order: a tick.
pub const TICK: &'static str = "✔️ ";

/// The first block of a message about projects that are not in order.
pub const HEAD: &'static str =
    "The following Embark open source projects have been found to have maintainership issues.";

/// The last block of such a message.
pub const FOOT: &'static str =
    "This message was generated by the <https://github.com/EmbarkStudios/opensource/tree/main/tools/embark-oss|embark-oss tool> on GitHub Actions.";

/// What begins the block of a project in such a message: a red circle and
/// the beginning of the link to the project.
pub const BLOCK_OPEN: &'static str = ":red_circle: *<https://github.com/EmbarkStudios/";

/// What a `Project` says: its name, and its maintainers or why it has none
/// to show.
pub struct ProjectView {
    pub name: Seq<char>,
    pub maintainers: Result<Seq<Seq<char>>, FailureView>,
}

/// What the look at a project's `CODEOWNERS` file gives, where `fetched` is
/// what the lookup of the file ended in: the maintainers that the file names
/// for the whole project, or why there are none.
pub open spec fn looked_up(fetched: Result<Seq<char>, Seq<char>>) -> Result<
    Seq<Seq<char>>,
    FailureView,
> {
    match fetched {
        Err(cause) => Err(FailureView::Fetch(cause)),
        Ok(source) => match parse(source) {
            Err(error) => Err(FailureView::Parse(error)),
            Ok(rules) => match primary(rules) {
                Some(owners) => if owners.len() > 0 {
                    Ok(owners)
                } else {
                    Err(FailureView::NoMaintainersDeclared)
                },
                None => Err(FailureView::NoMaintainersDeclared),
            },
        },
    }
}

impl ProjectView {
    /// Whether the project is well formed: where it has maintainers, there
    /// is at least one, and none is named twice.
    pub open spec fn wf(self) -> bool {
        self.maintainers is Ok ==> self.maintainers->Ok_0.len() > 0
            && self.maintainers->Ok_0.no_duplicates()
    }

    /// The project `name` before anybody has looked at it.
    pub open spec fn unchecked(name: Seq<char>) -> ProjectView {
        ProjectView { name, maintainers: Err(FailureView::NotYetChecked) }
    }

    /// The project after the look at its `CODEOWNERS` file.
    pub open spec fn validated(self, fetched: Result<Seq<char>, Seq<char>>) -> ProjectView {
        ProjectView { name: self.name, maintainers: looked_up(fetched) }
    }

    /// Whether the project is not in order.
    pub open spec fn has_errors(self) -> bool {
        self.maintainers is Err
    }

    /// Why the project is not in order: nothing, or one failure.
    pub open spec fn errors(self) -> Seq<FailureView> {
        match self.maintainers {
            Ok(_) => Seq::empty(),
            Err(failure) => seq![failure],
        }
    }

    /// The errors as one text, each with its causes; `None` where there is
    /// no error.
    pub open spec fn errors_text(self, indent: bool) -> Option<Seq<char>> {
        if self.errors().len() == 0 {
            None
        } else {
            Some(
                joined(
                    Seq::new(
                        self.errors().len(),
                        |i: int| cause_text(self.errors()[i].causes(), indent),
                    ),
                    "\n"@,
                ),
            )
        }
    }

    /// What is printed about the project: a cross, the name and, below it,
    /// the errors with their causes, indented; or a tick, the name
    /// and, in brackets, the maintainers.
    pub open spec fn status(self) -> Seq<char> {
        match self.maintainers {
            Err(_) => CROSS@ + self.name + "\n"@ + self.errors_text(true)->Some_0,
            Ok(maintainers) => TICK@ + self.name + " ("@ + joined(maintainers, ", "@) + ")"@,
        }
    }

    /// The block about the project in a message: its name as a link to it
    /// and its errors with their causes. `None` where the project is in
    /// order.
    pub open spec fn block(self) -> Option<BlockView> {
        match self.errors_text(false) {
            None => None,
            Some(errors) => Some(
                BlockView::Text(
                    BLOCK_OPEN@ + self.name + "|"@ + self.name + ">*\n```"@ + errors + "```"@,
                ),
            ),
        }
    }
}

/// The projects of `run` that are not in order, in their order.
pub open spec fn problems(run: Seq<ProjectView>) -> Seq<ProjectView> {
    run.filter(|project: ProjectView| project.has_errors())
}

/// Whether every project of `run` is in order.
pub open spec fn passing(run: Seq<ProjectView>) -> bool {
    forall|i: int| 0 <= i < run.len() ==> !(#[trigger] run[i]).has_errors()
}

/// The lines that are printed about `run`: one for each project, in order.
pub open spec fn statuses(run: Seq<ProjectView>) -> Seq<Seq<char>> {
    Seq::new(run.len(), |i: int| run[i].status())
}

/// The blocks about the projects of `run` that are not in order.
pub open spec fn project_blocks(run: Seq<ProjectView>) -> Seq<BlockView> {
    run.filter_map(|project: ProjectView| project.block())
}

/// The message about `run`: the head and a divider, a block for each project
/// that is not in order, a divider and the foot.
pub open spec fn notification_blocks(run: Seq<ProjectView>) -> Seq<BlockView> {
    seq![BlockView::Text(HEAD@), BlockView::Divider] + project_blocks(run) + seq![
        BlockView::Divider,
        BlockView::Text(FOOT@),
    ]
}

/// The projects `projects`, each after the look at its `CODEOWNERS` file:
/// `fetched[i]` is what the lookup for `projects[i]` ended in. A project for
/// which nothing was fetched stays as it is.
pub open spec fn validated_all(
    projects: Seq<ProjectView>,
    fetched: Seq<Result<Seq<char>, Seq<char>>>,
) -> Seq<ProjectView> {
    Seq::new(
        projects.len(),
        |i: int|
            if i < fetched.len() {
                projects[i].validated(fetched[i])
            } else {
                projects[i]
            },
    )
}

/// What a `Report` says.
pub struct ReportView {
    pub lines: Seq<Seq<char>>,
    pub notification: Option<NotificationView>,
    pub result: Result<(), RunErrorView>,
}

/// The report on `run`. A line is printed for every project. The run ends
/// well exactly where every project is in order. A message is owed exactly
/// where a project is not in order and a webhook is given; it goes to that
/// webhook and is about the projects that are not in order.
pub open spec fn report_on(run: Seq<ProjectView>, webhook: Option<Seq<char>>) -> ReportView {
    ReportView {
        lines: statuses(run),
        notification: if problems(run).len() > 0 && webhook is Some {
            Some(
                NotificationView {
                    url: webhook->Some_0,
                    blocks: notification_blocks(problems(run)),
                },
            )
        } else {
            None
        },
        result: if problems(run).len() > 0 {
            Err(RunErrorView::NotAllConform)
        } else {
            Ok(())
        },
    }
}

/// The report of a run over the one project `project`.
pub open spec fn report_on_one(project: ProjectView) -> ReportView {
    ReportView {
        lines: seq![project.status()],
        notification: None,
        result: if project.has_errors() {
            Err(RunErrorView::NotConform)
        } else {
            Ok(())
        },
    }
}

/// The report of a run over all projects: `listed` is the list of their
/// names or why it could not be had, and `fetched[i]` is what the lookup for
/// the project `i` of the list ended in.
pub open spec fn report_on_all(
    listed: Result<Seq<Seq<char>>, Seq<char>>,
    fetched: Seq<Result<Seq<char>, Seq<char>>>,
    webhook: Option<Seq<char>>,
) -> ReportView {
    match listed {
        Err(cause) => ReportView {
            lines: Seq::empty(),
            notification: None,
            result: Err(RunErrorView::ListDownload(cause)),
        },
        Ok(names) => report_on(
            validated_all(
                Seq::new(names.len(), |i: int| ProjectView::unchecked(names[i])),
                fetched,
            ),
            webhook,
        ),
    }
}

/// A project is in order only with maintainers: there is at least one, and
/// none is named twice.
pub proof fn lemma_looked_up_maintainers(fetched: Result<Seq<char>, Seq<char>>)
    requires
        looked_up(fetched) is Ok,
    ensures
        looked_up(fetched)->Ok_0.len() > 0,
        looked_up(fetched)->Ok_0.no_duplicates(),
{
    let rules = parse(fetched->Ok_0)->Ok_0;
    lemma_read_lines_rules(lines(fetched->Ok_0));
    lemma_primary_is_last_wildcard(rules);
    let i: int = choose|i: int|
        0 <= i < rules.len() && is_wildcard(#[trigger] rules[i].pattern) && primary(rules) == Some(
            rules[i].owners,
        );
    assert(rule_wf(rules[i]));
}

/// A file that can be read gives the project its maintainers exactly where
/// one of its rules has the wildcard. Where none has it, the failure is that
/// no maintainers are declared.
pub proof fn lemma_no_wildcard_no_maintainers(source: Seq<char>)
    requires
        parse(source) is Ok,
    ensures
        looked_up(Ok(source)) is Ok <==> exists|i: int|
            0 <= i < parse(source)->Ok_0.len() && is_wildcard(
                #[trigger] parse(source)->Ok_0[i].pattern,
            ),
        looked_up(Ok(source)) is Err ==> looked_up(Ok(source))
            == Err::<Seq<Seq<char>>, FailureView>(FailureView::NoMaintainersDeclared),
{
    let rules = parse(source)->Ok_0;
    lemma_read_lines_rules(lines(source));
    lemma_primary_is_last_wildcard(rules);
    if primary(rules) is Some {
        let i: int = choose|i: int|
            0 <= i < rules.len() && is_wildcard(#[trigger] rules[i].pattern) && primary(rules)
                == Some(rules[i].owners);
        assert(rule_wf(rules[i]));
    }
}

/// A file with a line that holds a pattern and no owner cannot be read,
/// whatever its other lines hold: the look at it fails with a parse error,
/// and the project gets no maintainers.
pub proof fn lemma_pattern_without_owner_fails(source: Seq<char>, i: int)
    requires
        0 <= i < lines(source).len(),
        read_line(lines(source)[i]) is Malformed,
    ensures
        parse(source) is Err,
        looked_up(Ok(source)) is Err,
        looked_up(Ok(source))->Err_0 is Parse,
{
    lemma_read_lines_fails_fast(lines(source));
}

/// Adding a project to a run adds it to the projects that are not in order
/// exactly where it has errors.
pub proof fn lemma_problems_push(run: Seq<ProjectView>, project: ProjectView)
    ensures
        problems(run.push(project)) == if project.has_errors() {
            problems(run).push(project)
        } else {
            problems(run)
        },
{
    reveal(Seq::filter);
    assert(run.push(project).drop_last() == run);
}

/// A run is passing exactly where none of its projects has an error, and
/// exactly where no project is left among those not in order. A run without
/// a project is passing.
pub proof fn lemma_passing(run: Seq<ProjectView>)
    ensures
        passing(run) <==> forall|i: int|
            0 <= i < run.len() ==> (#[trigger] run[i]).errors().len() == 0,
        passing(run) <==> problems(run).len() == 0,
        run.len() == 0 ==> passing(run),
    decreases run.len(),
{
    if run.len() > 0 {
        let init = run.drop_last();
        lemma_passing(init);
        lemma_problems_push(init, run.last());
        assert(init.push(run.last()) == run);
        if passing(run) {
            assert forall|i: int| 0 <= i < init.len() implies !(#[trigger] init[i]).has_errors(
            ) by {
                assert(!run[i].has_errors());
            }
            assert(!run[run.len() - 1].has_errors());
        }
        if problems(run).len() == 0 {
            assert forall|i: int| 0 <= i < run.len() implies !(#[trigger] run[i]).has_errors() by {
                if i < init.len() {
                    assert(!init[i].has_errors());
                }
            }
        }
    } else {
        reveal(Seq::filter);
    }
    assert forall|i: int| 0 <= i < run.len() implies ((#[trigger] run[i]).errors().len() == 0
        <==> !run[i].has_errors()) by {}
}

/// Every project among those not in order has errors, and they are no more
/// than the projects of the run.
pub proof fn lemma_problems_have_errors(run: Seq<ProjectView>)
    ensures
        forall|i: int| 0 <= i < problems(run).len() ==> (#[trigger] problems(run)[i]).has_errors(),
        problems(run).len() <= run.len(),
    decreases run.len(),
{
    if run.len() > 0 {
        let init = run.drop_last();
        lemma_problems_have_errors(init);
        lemma_problems_push(init, run.last());
        assert(init.push(run.last()) == run);
    } else {
        reveal(Seq::filter);
    }
}

/// Adding a project to a run adds its block to the blocks of the run, where
/// it has one.
pub proof fn lemma_project_blocks_push(run: Seq<ProjectView>, project: ProjectView)
    ensures
        project_blocks(run.push(project)) == match project.block() {
            Some(block) => project_blocks(run).push(block),
            None => project_blocks(run),
        },
{
    assert(run.push(project).drop_last() == run);
}

/// A message has one block for each project that is not in order, in the
/// order of the projects, and none for a project that is in order.
pub proof fn lemma_one_block_for_each_problem(run: Seq<ProjectView>)
    ensures
        project_blocks(run) == project_blocks(problems(run)),
        project_blocks(run).len() == problems(run).len(),
        forall|i: int|
            0 <= i < problems(run).len() ==> (#[trigger] problems(run)[i]).block() == Some(
                project_blocks(run)[i],
            ),
    decreases run.len(),
{
    if run.len() > 0 {
        let init = run.drop_last();
        assert(init.push(run.last()) == run);
        lemma_one_block_for_each_problem(init);
        lemma_problems_push(init, run.last());
        lemma_project_blocks_push(init, run.last());
        if run.last().has_errors() {
            lemma_project_blocks_push(problems(init), run.last());
        }
    } else {
        reveal(Seq::filter);
    }
}

/// A message is owed exactly where a project is not in order and a webhook
/// is given: never for a passing run, whether or not a webhook is given.
pub proof fn lemma_notification_owed(run: Seq<ProjectView>, webhook: Option<Seq<char>>)
    ensures
        report_on(run, webhook).notification is Some <==> !passing(run) && webhook is Some,
        report_on(run, webhook).result is Ok <==> passing(run),
        report_on(run, webhook).lines.len() == run.len(),
{
    lemma_passing(run);
}

/// The run keeps the projects and their order: it has one project for each
/// that went in, under the same name.
pub proof fn lemma_validated_all_keeps_order(
    projects: Seq<ProjectView>,
    fetched: Seq<Result<Seq<char>, Seq<char>>>,
)
    ensures
        validated_all(projects, fetched).len() == projects.len(),
        forall|i: int|
            0 <= i < projects.len() ==> (#[trigger] validated_all(projects, fetched)[i]).name
                == projects[i].name,
{
}

/// One project as the list of the open source projects names it.
#[derive(Debug, PartialEq, Eq)]
pub struct OpenSourceWebsiteDataProject {
    name: String,
}

impl View for OpenSourceWebsiteDataProject {
    type V = Seq<char>;

    /// The name of the project.
    closed spec fn view(&self) -> Seq<char> {
        self.name@
    }
}

impl OpenSourceWebsiteDataProject {
    /// The project with the name `name`.
    pub fn new(name: String) -> (project: Self)
        ensures
            project@ == name@,
    {
        OpenSourceWebsiteDataProject { name }
    }

    /// The name of the project.
    pub fn name(&self) -> (name: &String)
        ensures
            name@ == self@,
    {
        &self.name
    }
}

/// The list of the open source projects.
#[derive(Debug, PartialEq, Eq)]
pub struct OpenSourceWebsiteData {
    projects: Vec<OpenSourceWebsiteDataProject>,
}

impl View for OpenSourceWebsiteData {
    type V = Seq<Seq<char>>;

    /// The names of the projects, in the order of the list.
    closed spec fn view(&self) -> Seq<Seq<char>> {
        Seq::new(self.projects@.len(), |i: int| self.projects@[i]@)
    }
}

impl OpenSourceWebsiteData {
    /// The list of the projects `projects`.
    pub fn new(projects: Vec<OpenSourceWebsiteDataProject>) -> (data: Self)
        ensures
            data@ == Seq::new(projects@.len(), |i: int| projects@[i]@),
    {
        OpenSourceWebsiteData { projects }
    }

    /// The names of the projects, in the order of the list.
    pub fn names(&self) -> (names: Vec<String>)
        ensures
            texts(names@) == self@,
    {
        let mut names: Vec<String> = Vec::new();
        let mut i: usize = 0;
        while i < self.projects.len()
            invariant
                i <= self.projects.len(),
                texts(names@) == self@.take(i as int),
            decreases self.projects.len() - i,
        {
            let ghost before = texts(names@);
            names.push(self.projects[i].name.clone());
            assert(texts(names@) == before.push(self@[i as int]));
            i += 1;
        }
        assert(self@.take(i as int) == self@);
        names
    }
}

/// A project, with its maintainers or the reason why it has none to show.
#[derive(Debug, PartialEq, Eq)]
pub struct Project {
    name: String,
    maintainers: Result<MaintainerSet, Failure>,
}

/// What `maintainers` says.
pub open spec fn maintainers_view(maintainers: Result<MaintainerSet, Failure>) -> Result<
    Seq<Seq<char>>,
    FailureView,
> {
    match maintainers {
        Ok(set) => Ok(set@),
        Err(failure) => Err(failure@),
    }
}

impl View for Project {
    type V = ProjectView;

    closed spec fn view(&self) -> ProjectView {
        ProjectView { name: self.name@, maintainers: maintainers_view(self.maintainers) }
    }
}

/// The views of `projects`, in order.
pub open spec fn project_views(projects: Seq<Project>) -> Seq<ProjectView> {
    Seq::new(projects.len(), |i: int| projects[i]@)
}

/// The views of `failures`, in order.
pub open spec fn failure_views(failures: Seq<&Failure>) -> Seq<FailureView> {
    Seq::new(failures.len(), |i: int| failures[i]@)
}

/// The views of `fetched`, in order.
pub open spec fn fetched_views(fetched: Seq<Result<String, FetchError>>) -> Seq<
    Result<Seq<char>, Seq<char>>,
> {
    Seq::new(fetched.len(), |i: int| fetched_view(fetched[i]))
}

/// The state of a property that nobody has looked at yet: the failure
/// `NotYetChecked`.
pub fn not_yet_checked<T>() -> (property: Result<T, Failure>)
    ensures
        property is Err,
        property->Err_0 is NotYetChecked,
{
    Err(Failure::NotYetChecked)
}

/// Looks at the `CODEOWNERS` file of a project, where `fetched` is what the
/// lookup of the file ended in. Gives the maintainers that the file names
/// for the whole project. Fails where the file could not be had, where it
/// cannot be read, and where it names no such maintainer.
pub fn lookup_project_maintainers(fetched: &Result<String, FetchError>) -> (found: Result<
    MaintainerSet,
    Failure,
>)
    ensures
        maintainers_view(found) == looked_up(fetched_view(*fetched)),
{
    let source = match fetched {
        Ok(source) => source,
        Err(error) => {
            return Err(Failure::Fetch(error.clone()));
        },
    };
    let owners = match CodeOwners::new(source.as_str()) {
        Ok(owners) => owners,
        Err(error) => {
            return Err(Failure::Parse(error));
        },
    };
    match owners.primary_maintainers() {
        Some(maintainers) => if maintainers.is_empty() {
            Err(Failure::NoMaintainersDeclared)
        } else {
            Ok(maintainers.clone())
        },
        None => Err(Failure::NoMaintainersDeclared),
    }
}

impl Project {
    /// The project `name`, which nobody has looked at yet.
    pub fn new(name: String) -> (project: Self)
        ensures
            project@ == ProjectView::unchecked(name@),
    {
        Self { name, maintainers: not_yet_checked() }
    }

    /// The project that the list names, which nobody has looked at yet.
    pub fn from_website_project(project: OpenSourceWebsiteDataProject) -> (made: Self)
        ensures
            made@ == ProjectView::unchecked(project@),
    {
        Self::new(project.name)
    }

    /// The project after the look at its `CODEOWNERS` file, where `fetched`
    /// is what the lookup of the file ended in.
    pub fn validate(self, fetched: &Result<String, FetchError>) -> (validated: Self)
        ensures
            validated@ == self@.validated(fetched_view(*fetched)),
            validated@.wf(),
    {
        proof {
            if looked_up(fetched_view(*fetched)) is Ok {
                lemma_looked_up_maintainers(fetched_view(*fetched));
            }
        }
        Project { maintainers: lookup_project_maintainers(fetched), name: self.name }
    }

    /// The name of the project.
    pub fn name(&self) -> (name: &String)
        ensures
            name@ == self@.name,
    {
        &self.name
    }

    /// The maintainers of the project, or why it has none to show.
    pub fn maintainers(&self) -> (maintainers: &Result<MaintainerSet, Failure>)
        ensures
            maintainers_view(*maintainers) == self@.maintainers,
    {
        &self.maintainers
    }

    /// Whether the project is not in order.
    pub fn has_errors(&self) -> (failed: bool)
        ensures
            failed == self@.has_errors(),
    {
        let Self { name: _, maintainers } = self;
        maintainers.is_err()
    }

    /// Why the project is not in order: nothing, or one failure.
    pub fn errors(&self) -> (errors: Vec<&Failure>)
        ensures
            failure_views(errors@) == self@.errors(),
            errors@.len() == self@.errors().len(),
    {
        let Self { name: _, maintainers } = self;
        let mut errors: Vec<&Failure> = Vec::new();
        match maintainers {
            Ok(_) => {},
            Err(failure) => {
                errors.push(failure);
            },
        }
        assert(failure_views(errors@) == self@.errors());
        errors
    }

    /// The errors as one string, each with its causes, which are indented
    /// where `indent` is set. `None` where the project is in order.
    pub fn errors_to_string(&self, indent: bool) -> (out: Option<String>)
        ensures
            match self@.errors_text(indent) {
                Some(text) => out is Some && out->Some_0@ == text,
                None => out is None,
            },
    {
        let errors = self.errors();
        if errors.len() == 0 {
            return None;
        }
        let mut rows: Vec<String> = Vec::new();
        let mut i: usize = 0;
        while i < errors.len()
            invariant
                i <= errors.len(),
                rows.len() == i,
                forall|k: int|
                    0 <= k < i ==> rows@[k]@ == cause_text(
                        failure_views(errors@)[k].causes(),
                        indent,
                    ),
            decreases errors.len() - i,
        {
            let causes = errors[i].causes();
            rows.push(cause_string(&causes, indent));
            i += 1;
        }
        assert(texts(rows@) == Seq::new(
            self@.errors().len(),
            |i: int| cause_text(self@.errors()[i].causes(), indent),
        ));
        proof {
            reveal_strlit("\n");
        }
        Some(join(&rows, "\n"))
    }
}

/// What is printed about `project`: a cross, the name and, below it, the
/// errors with their causes, indented; or a tick, the name and, in
/// brackets, the maintainers.
pub fn format_status_line(project: &Project) -> (line: String)
    ensures
        line@ == project@.status(),
{
    match &project.maintainers {
        Err(_) => {
            let errors = project.errors_to_string(true).unwrap();
            let mut line = String::from_str(CROSS);
            line.append(project.name.as_str());
            line.append("\n");
            line.append(errors.as_str());
            line
        },
        Ok(maintainers) => {
            proof {
                reveal_strlit(", ");
            }
            let names = join(maintainers.names(), ", ");
            let mut line = String::from_str(TICK);
            line.append(project.name.as_str());
            line.append(" (");
            line.append(names.as_str());
            line.append(")");
            line
        },
    }
}

/// The block about `project` in a message: its name as a link to it and its
/// errors with their causes. `None` where the project is in order.
pub fn slack_project_block(project: &Project) -> (block: Option<Block>)
    ensures
        match project@.block() {
            Some(view) => block is Some && block->Some_0@ == view,
            None => block is None,
        },
{
    let error = project.errors_to_string(false)?;
    let mut text = String::from_str(BLOCK_OPEN);
    text.append(project.name.as_str());
    text.append("|");
    text.append(project.name.as_str());
    text.append(">*\n```");
    text.append(error.as_str());
    text.append("```");
    Some(Block::Text(text))
}

/// The message about `projects`: the head and a divider, a block for each
/// project that is not in order, a divider and the foot.
pub fn slack_notification_blocks(projects: &[Project]) -> (blocks: Vec<Block>)
    ensures
        block_views(blocks@) == notification_blocks(project_views(projects@)),
{
    let ghost run = project_views(projects@);
    let mut blocks: Vec<Block> = Vec::new();
    blocks.push(Block::Text(String::from_str(HEAD)));
    blocks.push(Block::Divider);
    let ghost head = seq![BlockView::Text(HEAD@), BlockView::Divider];
    assert(block_views(blocks@) == head + project_blocks(run.take(0)));
    let mut i: usize = 0;
    while i < projects.len()
        invariant
            i <= projects.len(),
            run == project_views(projects@),
            head == seq![BlockView::Text(HEAD@), BlockView::Divider],
            block_views(blocks@) == head + project_blocks(run.take(i as int)),
        decreases projects.len() - i,
    {
        proof {
            run.lemma_filter_map_take_succ(|project: ProjectView| project.block(), i as int);
        }
        let ghost before = block_views(blocks@);
        match slack_project_block(&projects[i]) {
            Some(block) => {
                blocks.push(block);
                assert(block_views(blocks@) == before.push(block@));
            },
            None => {},
        }
        i += 1;
    }
    assert(run.take(i as int) == run);
    let ghost before = block_views(blocks@);
    blocks.push(Block::Divider);
    blocks.push(Block::Text(String::from_str(FOOT)));
    assert(block_views(blocks@) == before + seq![BlockView::Divider, BlockView::Text(FOOT@)]);
    blocks
}

/// The projects of the list, which nobody has looked at yet, in the order of
/// the list; or, where the list could not be had, the error that says so.
pub fn listed_projects(downloaded: Result<OpenSourceWebsiteData, String>) -> (listed: Result<
    Vec<Project>,
    RunError,
>)
    ensures
        match downloaded {
            Ok(data) => listed is Ok && project_views(listed->Ok_0@) == Seq::new(
                data@.len(),
                |i: int| ProjectView::unchecked(data@[i]),
            ),
            Err(cause) => listed is Err && listed->Err_0@ == RunErrorView::ListDownload(cause@),
        },
{
    let data = match downloaded {
        Ok(data) => data,
        Err(cause) => {
            return Err(RunError::ListDownload(cause));
        },
    };
    let ghost names = data@;
    let mut projects: Vec<Project> = Vec::new();
    for project in it: data.projects
        invariant
            it.seq() == data.projects@,
            names == Seq::new(data.projects@.len(), |i: int| data.projects@[i]@),
            projects.len() == it.index(),
            forall|k: int|
                0 <= k < projects.len() ==> projects@[k]@ == ProjectView::unchecked(names[k]),
    {
        projects.push(Project::from_website_project(project));
    }
    assert(project_views(projects@) == Seq::new(
        names.len(),
        |i: int| ProjectView::unchecked(names[i]),
    ));
    Ok(projects)
}

/// All projects of one run, in the order in which they went in.
#[derive(Debug, PartialEq, Eq)]
pub struct ValidationRun {
    projects: Vec<Project>,
}

impl View for ValidationRun {
    type V = Seq<ProjectView>;

    closed spec fn view(&self) -> Seq<ProjectView> {
        project_views(self.projects@)
    }
}

/// Looks at all of `projects`, where `fetched[i]` is what the lookup of the
/// `CODEOWNERS` file of `projects[i]` ended in. The run holds every project,
/// in the same order. A project for which nothing was fetched stays as it
/// is.
pub fn validate_all(projects: Vec<Project>, fetched: &Vec<Result<String, FetchError>>) -> (run:
    ValidationRun)
    ensures
        run@ == validated_all(project_views(projects@), fetched_views(fetched@)),
        run@.len() == projects@.len(),
        forall|i: int| 0 <= i < projects@.len() ==> run@[i].name == projects@[i]@.name,
        forall|i: int| 0 <= i < projects@.len() && projects@[i]@.wf() ==> run@[i].wf(),
{
    let ghost before = project_views(projects@);
    let mut validated: Vec<Project> = Vec::new();
    for project in it: projects
        invariant
            it.seq() == projects@,
            before == project_views(projects@),
            validated.len() == it.index(),
            forall|k: int|
                0 <= k < validated.len() ==> validated@[k]@ == validated_all(
                    before,
                    fetched_views(fetched@),
                )[k],
            forall|k: int| 0 <= k < validated.len() && before[k].wf() ==> validated@[k]@.wf(),
    {
        let i: usize = validated.len();
        if i < fetched.len() {
            validated.push(project.validate(&fetched[i]));
        } else {
            validated.push(project);
        }
    }
    assert(project_views(validated@) == validated_all(before, fetched_views(fetched@)));
    ValidationRun { projects: validated }
}

/// What a run comes to: the lines to print, the message to send, if one is
/// owed, and how the run ends if the message, where one is owed, goes out.
#[derive(Debug, PartialEq, Eq)]
pub struct Report {
    pub lines: Vec<String>,
    pub notification: Option<Notification>,
    pub result: Result<(), RunError>,
}

impl View for Report {
    type V = ReportView;

    open spec fn view(&self) -> ReportView {
        ReportView {
            lines: texts(self.lines@),
            notification: match self.notification {
                Some(notification) => Some(notification@),
                None => None,
            },
            result: match self.result {
                Ok(_) => Ok(()),
                Err(error) => Err(error@),
            },
        }
    }
}

impl ReportView {
    /// How the run ends, where `delivery` is what sending the message gave,
    /// if it was sent: in the failure of the delivery where a message was
    /// owed and could not be delivered, else as the report says.
    pub open spec fn concluded(self, delivery: Option<Result<(), Seq<char>>>) -> Result<
        (),
        RunErrorView,
    > {
        if self.notification is Some && delivery is Some && delivery->Some_0 is Err {
            Err(RunErrorView::NotificationDelivery(delivery->Some_0->Err_0))
        } else {
            self.result
        }
    }
}

impl Report {
    /// How the run ends, where `delivery` is what sending the message gave,
    /// if it was sent: in the failure of the delivery where a message was
    /// owed and could not be delivered, else as the report says.
    pub fn conclude(self, delivery: Option<Result<(), String>>) -> (result: Result<(), RunError>)
        ensures
            (match result {
                Ok(_) => Ok(()),
                Err(error) => Err(error@),
            }) == self@.concluded(
                match delivery {
                    Some(Ok(_)) => Some(Ok(())),
                    Some(Err(cause)) => Some(Err(cause@)),
                    None => None,
                },
            ),
    {
        if self.notification.is_some() {
            match delivery {
                Some(Err(cause)) => {
                    return Err(RunError::NotificationDelivery(cause));
                },
                _ => {},
            }
        }
        self.result
    }
}

/// The exit status of a program whose run ended in `result`: 0 where the
/// run ended well, 1 where it ended in an error, whatever the error.
pub fn exit_status(result: &Result<(), RunError>) -> (status: u8)
    ensures
        status == if result is Ok {
            0u8
        } else {
            1u8
        },
{
    match result {
        Ok(_) => 0,
        Err(_) => 1,
    }
}

impl ValidationRun {
    /// The projects of the run, in order.
    pub fn projects(&self) -> (projects: &Vec<Project>)
        ensures
            project_views(projects@) == self@,
    {
        &self.projects
    }

    /// Whether every project of the run is in order.
    pub fn is_passing(&self) -> (passed: bool)
        ensures
            passed == passing(self@),
    {
        let mut i: usize = 0;
        while i < self.projects.len()
            invariant
                i <= self.projects.len(),
                forall|k: int| 0 <= k < i ==> !(#[trigger] self@[k]).has_errors(),
            decreases self.projects.len() - i,
        {
            if self.projects[i].has_errors() {
                assert(self@[i as int].has_errors());
                return false;
            }
            i += 1;
        }
        true
    }

    /// The lines to print about the run: one for each project, in order.
    pub fn status_lines(&self) -> (lines: Vec<String>)
        ensures
            texts(lines@) == statuses(self@),
    {
        let mut lines: Vec<String> = Vec::new();
        let mut i: usize = 0;
        while i < self.projects.len()
            invariant
                i <= self.projects.len(),
                lines.len() == i,
                forall|k: int| 0 <= k < i ==> lines@[k]@ == self@[k].status(),
            decreases self.projects.len() - i,
        {
            lines.push(format_status_line(&self.projects[i]));
            i += 1;
        }
        assert(texts(lines@) == statuses(self@));
        lines
    }

    /// The projects of the run that are not in order, in their order.
    pub fn problem_projects(self) -> (failed: Vec<Project>)
        ensures
            project_views(failed@) == problems(self@),
    {
        let ghost run = self@;
        let mut failed: Vec<Project> = Vec::new();
        proof {
            reveal(Seq::filter);
        }
        assert(project_views(failed@) == problems(run.take(0)));
        for project in it: self.projects
            invariant
                it.seq() == self.projects@,
                run == project_views(self.projects@),
                project_views(failed@) == problems(run.take(it.index() as int)),
        {
            proof {
                lemma_problems_push(run.take(it.index() as int), project@);
                assert(run.take(it.index() + 1) == run.take(it.index() as int).push(project@));
            }
            if project.has_errors() {
                let ghost before = project_views(failed@);
                failed.push(project);
                assert(project_views(failed@) == before.push(project@));
            }
        }
        assert(run.take(run.len() as int) == run);
        failed
    }

    /// The report on the run. A line is printed for every project. The run
    /// ends well exactly where every project is in order. A message is owed
    /// exactly where a project is not in order and a webhook is given.
    pub fn report(self, slack_webhook_url: Option<String>) -> (report: Report)
        ensures
            report@ == report_on(
                self@,
                match slack_webhook_url {
                    Some(url) => Some(url@),
                    None => None,
                },
            ),
            report.notification is Some <==> !passing(self@) && slack_webhook_url is Some,
            report.result is Ok <==> passing(self@),
            report.lines@.len() == self@.len(),
    {
        proof {
            lemma_passing(self@);
        }
        let lines = self.status_lines();
        assert(texts(lines@).len() == lines@.len());
        let problem_projects = self.problem_projects();
        if problem_projects.len() == 0 {
            return Report { lines, notification: None, result: Ok(()) };
        }
        let notification = match slack_webhook_url {
            Some(url) => {
                let blocks = slack_notification_blocks(problem_projects.as_slice());
                Some(Notification { url, blocks })
            },
            None => None,
        };
        Report { lines, notification, result: Err(RunError::NotAllConform) }
    }
}

/// Validates all projects of the list. `downloaded` is the list, or why it
/// could not be had; `fetched[i]` is what the lookup of the `CODEOWNERS` file
/// of the project `i` of the list ended in. Where the list could not be had,
/// nothing is printed or sent and the run ends in that error.
pub fn all(
    downloaded: Result<OpenSourceWebsiteData, String>,
    fetched: &Vec<Result<String, FetchError>>,
    slack_webhook_url: Option<String>,
) -> (report: Report)
    ensures
        report@ == report_on_all(
            match downloaded {
                Ok(data) => Ok(data@),
                Err(cause) => Err(cause@),
            },
            fetched_views(fetched@),
            match slack_webhook_url {
                Some(url) => Some(url@),
                None => None,
            },
        ),
{
    let projects = match listed_projects(downloaded) {
        Ok(projects) => projects,
        Err(error) => {
            let lines: Vec<String> = Vec::new();
            assert(texts(lines@) == Seq::<Seq<char>>::empty());
            return Report { lines, notification: None, result: Err(error) };
        },
    };
    let run = validate_all(projects, fetched);
    run.report(slack_webhook_url)
}

/// Validates the one project `project_name`, where `fetched` is what the
/// lookup of its `CODEOWNERS` file ended in. Its line is printed, nothing is
/// sent, and the run ends well exactly where the project is in order.
pub fn one(project_name: String, fetched: &Result<String, FetchError>) -> (report: Report)
    ensures
        report@ == report_on_one(
            ProjectView::unchecked(project_name@).validated(fetched_view(*fetched)),
        ),
{
    let project = Project::new(project_name).validate(fetched);
    let mut lines: Vec<String> = Vec::new();
    lines.push(format_status_line(&project));
    assert(texts(lines@) == seq![project@.status()]);
    if project.has_errors() {
        Report { lines, notification: None, result: Err(RunError::NotConform) }
    } else {
        Report { lines, notification: None, result: Ok(()) }
    }
}

} // verus!
