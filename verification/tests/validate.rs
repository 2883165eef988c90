use embark_oss::codeowners::CodeOwners;
use embark_oss::error::{Failure, RunError};
use embark_oss::github::FetchError;
use embark_oss::maintainers::MaintainerSet;
use embark_oss::slack::{Block, Notification};
use embark_oss::validate::{
    all, exit_status, format_status_line, listed_projects, lookup_project_maintainers, not_yet_checked, one,
    slack_notification_blocks, slack_project_block, validate_all, OpenSourceWebsiteData,
    OpenSourceWebsiteDataProject, Project, Report, BLOCK_OPEN, TICK, CROSS, FOOT, HEAD,
};

const HEAD_TEXT: &str =
    "The following Embark open source projects have been found to have maintainership issues.";
const FOOT_TEXT: &str = "This message was generated by the <https://github.com/EmbarkStudios/opensource/tree/main/tools/embark-oss|embark-oss tool> on GitHub Actions.";

fn fetched_text(source: &str) -> Result<String, FetchError> {
    Ok(source.to_string())
}

fn fetched_failure(cause: &str) -> Result<String, FetchError> {
    Err(FetchError::new(cause.to_string()))
}

fn website_data(names: &[&str]) -> OpenSourceWebsiteData {
    OpenSourceWebsiteData::new(
        names.iter().map(|name| OpenSourceWebsiteDataProject::new(name.to_string())).collect(),
    )
}

fn unchecked_projects(names: &[&str]) -> Vec<Project> {
    names.iter().map(|name| Project::new(name.to_string())).collect()
}

fn maintainer_set(names: &[&str]) -> MaintainerSet {
    MaintainerSet::from_names(&names.iter().map(|name| name.to_string()).collect())
}

#[test]
fn marks_and_texts_of_the_report() {
    assert_eq!(CROSS, "\u{274c} ");
    assert_eq!(TICK, "\u{2714}\u{fe0f} ");
    assert_eq!(HEAD, HEAD_TEXT);
    assert_eq!(FOOT, FOOT_TEXT);
    assert_eq!(BLOCK_OPEN, ":red_circle: *<https://github.com/EmbarkStudios/");
}

#[test]
fn not_yet_checked_is_a_failure() {
    assert_eq!(not_yet_checked::<MaintainerSet>(), Err(Failure::NotYetChecked));
    assert_eq!(not_yet_checked::<u8>(), Err(Failure::NotYetChecked));
}

#[test]
fn new_project_is_not_yet_checked() {
    let project = Project::new("rust-gpu".to_string());
    assert_eq!(project.name(), "rust-gpu");
    assert_eq!(project.maintainers(), &Err(Failure::NotYetChecked));
    assert!(project.has_errors());
    assert_eq!(project.errors(), vec![&Failure::NotYetChecked]);
}

#[test]
fn new_project_says_that_it_is_not_yet_checked() {
    let project = Project::new("rust-gpu".to_string());
    assert_eq!(
        project.errors_to_string(false),
        Some("This property has not yet been validated".to_string())
    );
    assert_eq!(
        project.errors_to_string(true),
        Some("    This property has not yet been validated".to_string())
    );
}

#[test]
fn project_from_the_list_has_the_name_of_the_list() {
    let listed = OpenSourceWebsiteDataProject::new("puffin".to_string());
    assert_eq!(listed.name(), "puffin");
    let project = Project::from_website_project(listed);
    assert_eq!(project, Project::new("puffin".to_string()));
}

#[test]
fn lookup_gives_the_owners_of_the_wildcard() {
    assert_eq!(
        lookup_project_maintainers(&fetched_text("docs/ zed\n* alice bob\n")),
        Ok(maintainer_set(&["alice", "bob"]))
    );
}

#[test]
fn lookup_fails_where_the_file_could_not_be_had() {
    assert_eq!(
        lookup_project_maintainers(&fetched_failure("404 Not Found")),
        Err(Failure::Fetch(FetchError::new("404 Not Found".to_string())))
    );
}

#[test]
fn lookup_fails_where_the_file_cannot_be_read() {
    let error = CodeOwners::new("* alice\nlonely").expect_err("the second line is malformed");
    assert_eq!(
        lookup_project_maintainers(&fetched_text("* alice\nlonely")),
        Err(Failure::Parse(error))
    );
}

#[test]
fn lookup_fails_where_no_rule_has_the_wildcard() {
    assert_eq!(
        lookup_project_maintainers(&fetched_text("docs/ alice\n")),
        Err(Failure::NoMaintainersDeclared)
    );
    assert_eq!(lookup_project_maintainers(&fetched_text("")), Err(Failure::NoMaintainersDeclared));
}

#[test]
fn validated_project_keeps_its_name() {
    let project = Project::new("rust-gpu".to_string()).validate(&fetched_text("* alice"));
    assert_eq!(project.name(), "rust-gpu");
    let project = Project::new("rust-gpu".to_string()).validate(&fetched_failure("gone"));
    assert_eq!(project.name(), "rust-gpu");
}

#[test]
fn project_with_maintainers_has_no_errors() {
    let project = Project::new("rust-gpu".to_string()).validate(&fetched_text("* alice bob"));
    assert!(!project.has_errors());
    assert!(project.errors().is_empty());
    assert_eq!(project.errors_to_string(true), None);
    assert_eq!(project.errors_to_string(false), None);
    assert_eq!(project.maintainers(), &Ok(maintainer_set(&["alice", "bob"])));
}

#[test]
fn project_without_file_has_the_fetch_error() {
    let project = Project::new("rust-gpu".to_string()).validate(&fetched_failure("404 Not Found"));
    assert!(project.has_errors());
    assert_eq!(
        project.errors(),
        vec![&Failure::Fetch(FetchError::new("404 Not Found".to_string()))]
    );
    assert_eq!(project.errors_to_string(false), Some("404 Not Found".to_string()));
    assert_eq!(project.errors_to_string(true), Some("    404 Not Found".to_string()));
}

#[test]
fn project_with_unreadable_file_has_the_parse_error_and_its_cause() {
    let project = Project::new("rust-gpu".to_string()).validate(&fetched_text("# c\n* a\nsrc/\n"));
    assert!(project.has_errors());
    assert_eq!(project.errors().len(), 1);
    assert_eq!(
        project.errors_to_string(false),
        Some(
            "Unable to determine maintainers\nLine 3 gives no owners for the pattern src/"
                .to_string()
        )
    );
    assert_eq!(
        project.errors_to_string(true),
        Some(
            "    Unable to determine maintainers\n    Line 3 gives no owners for the pattern src/"
                .to_string()
        )
    );
}

#[test]
fn project_without_wildcard_has_no_maintainers_declared() {
    let project = Project::new("rust-gpu".to_string()).validate(&fetched_text("docs/ alice"));
    assert_eq!(project.errors(), vec![&Failure::NoMaintainersDeclared]);
    assert_eq!(
        project.errors_to_string(false),
        Some("No maintainers were found for * the CODEOWNERS file".to_string())
    );
}

#[test]
fn second_look_replaces_the_first() {
    let project = Project::new("rust-gpu".to_string()).validate(&fetched_failure("gone"));
    let project = project.validate(&fetched_text("* alice"));
    assert!(!project.has_errors());
}

#[test]
fn status_line_of_a_project_in_order() {
    let project = Project::new("rust-gpu".to_string()).validate(&fetched_text("* alice bob"));
    assert_eq!(format_status_line(&project), "\u{2714}\u{fe0f} rust-gpu (alice, bob)");
}

#[test]
fn status_line_of_a_project_with_one_maintainer() {
    let project = Project::new("puffin".to_string()).validate(&fetched_text("* @emilk"));
    assert_eq!(format_status_line(&project), "✔️ puffin (@emilk)");
}

#[test]
fn status_line_of_a_project_without_file() {
    let project = Project::new("rust-gpu".to_string()).validate(&fetched_failure("404 Not Found"));
    assert_eq!(format_status_line(&project), "\u{274c} rust-gpu\n    404 Not Found");
}

#[test]
fn status_line_of_a_project_with_unreadable_file() {
    let project = Project::new("kajiya".to_string()).validate(&fetched_text("*"));
    assert_eq!(
        format_status_line(&project),
        "❌ kajiya\n    Unable to determine maintainers\n    Line 1 gives no owners for the pattern *"
    );
}

#[test]
fn status_line_of_a_project_not_yet_checked() {
    let project = Project::new("kajiya".to_string());
    assert_eq!(
        format_status_line(&project),
        "❌ kajiya\n    This property has not yet been validated"
    );
}

#[test]
fn status_line_can_be_asked_for_twice() {
    let project = Project::new("rust-gpu".to_string()).validate(&fetched_text("* alice bob"));
    assert_eq!(format_status_line(&project), format_status_line(&project));
}

#[test]
fn block_of_a_project_in_order_is_none() {
    let project = Project::new("rust-gpu".to_string()).validate(&fetched_text("* alice bob"));
    assert_eq!(slack_project_block(&project), None);
}

#[test]
fn block_of_a_project_with_errors() {
    let project = Project::new("rust-gpu".to_string()).validate(&fetched_text("docs/ alice"));
    assert_eq!(
        slack_project_block(&project),
        Some(Block::Text(
            ":red_circle: *<https://github.com/EmbarkStudios/rust-gpu|rust-gpu>*\n```No maintainers were found for * the CODEOWNERS file```"
                .to_string()
        ))
    );
}

#[test]
fn block_of_a_project_shows_the_causes_without_indent() {
    let project = Project::new("kajiya".to_string()).validate(&fetched_text("*"));
    assert_eq!(
        slack_project_block(&project),
        Some(Block::Text(
            ":red_circle: *<https://github.com/EmbarkStudios/kajiya|kajiya>*\n```Unable to determine maintainers\nLine 1 gives no owners for the pattern *```"
                .to_string()
        ))
    );
}

#[test]
fn message_without_projects_has_head_and_foot() {
    assert_eq!(
        slack_notification_blocks(&[]),
        vec![
            Block::Text(HEAD_TEXT.to_string()),
            Block::Divider,
            Block::Divider,
            Block::Text(FOOT_TEXT.to_string()),
        ]
    );
}

#[test]
fn message_has_a_block_for_each_project_with_errors() {
    let projects = vec![
        Project::new("a".to_string()).validate(&fetched_failure("gone")),
        Project::new("b".to_string()).validate(&fetched_text("* alice")),
        Project::new("c".to_string()),
    ];
    assert_eq!(
        slack_notification_blocks(&projects),
        vec![
            Block::Text(HEAD_TEXT.to_string()),
            Block::Divider,
            Block::Text(
                ":red_circle: *<https://github.com/EmbarkStudios/a|a>*\n```gone```".to_string()
            ),
            Block::Text(
                ":red_circle: *<https://github.com/EmbarkStudios/c|c>*\n```This property has not yet been validated```"
                    .to_string()
            ),
            Block::Divider,
            Block::Text(FOOT_TEXT.to_string()),
        ]
    );
}

#[test]
fn list_gives_its_projects_in_order() {
    let data = website_data(&["rust-gpu", "puffin", "kajiya"]);
    assert_eq!(data.names(), vec!["rust-gpu", "puffin", "kajiya"]);
    assert_eq!(listed_projects(Ok(data)), Ok(unchecked_projects(&["rust-gpu", "puffin", "kajiya"])));
}

#[test]
fn list_that_could_not_be_had_is_an_error() {
    assert_eq!(
        listed_projects(Err("503 Service Unavailable".to_string())),
        Err(RunError::ListDownload("503 Service Unavailable".to_string()))
    );
}

#[test]
fn run_holds_every_project_in_the_order_of_the_input() {
    let names = ["delta", "alpha", "charlie", "bravo"];
    let fetched = vec![
        fetched_text("* d"),
        fetched_failure("gone"),
        fetched_text("docs/ c"),
        fetched_text("* b1 b2"),
    ];
    let run = validate_all(unchecked_projects(&names), &fetched);
    assert_eq!(run.projects().len(), names.len());
    for (project, name) in run.projects().iter().zip(names) {
        assert_eq!(project.name(), name);
    }
    assert_eq!(run.projects()[0].maintainers(), &Ok(maintainer_set(&["d"])));
    assert_eq!(
        run.projects()[1].maintainers(),
        &Err(Failure::Fetch(FetchError::new("gone".to_string())))
    );
    assert_eq!(run.projects()[2].maintainers(), &Err(Failure::NoMaintainersDeclared));
    assert_eq!(run.projects()[3].maintainers(), &Ok(maintainer_set(&["b1", "b2"])));
}

#[test]
fn run_gives_each_project_what_validate_gives_it() {
    let names = ["a", "b", "c"];
    let fetched = vec![fetched_text("* x"), fetched_text("y"), fetched_failure("z")];
    let run = validate_all(unchecked_projects(&names), &fetched);
    for i in 0..names.len() {
        assert_eq!(run.projects()[i], Project::new(names[i].to_string()).validate(&fetched[i]));
    }
}

#[test]
fn project_for_which_nothing_was_fetched_stays_unchecked() {
    let run = validate_all(unchecked_projects(&["a", "b", "c"]), &vec![fetched_text("* x")]);
    assert_eq!(run.projects().len(), 3);
    assert!(!run.projects()[0].has_errors());
    assert_eq!(run.projects()[1], Project::new("b".to_string()));
    assert_eq!(run.projects()[2], Project::new("c".to_string()));
    assert!(!run.is_passing());
}

#[test]
fn what_was_fetched_for_no_project_is_left_out() {
    let fetched = vec![fetched_text("* x"), fetched_failure("gone"), fetched_failure("gone")];
    let run = validate_all(unchecked_projects(&["a"]), &fetched);
    assert_eq!(run.projects().len(), 1);
    assert!(run.is_passing());
}

#[test]
fn run_without_projects_is_passing() {
    let run = validate_all(Vec::new(), &Vec::new());
    assert!(run.is_passing());
    assert!(run.projects().is_empty());
    let report = run.report(Some("https://hooks.example/T0".to_string()));
    assert_eq!(report, Report { lines: Vec::new(), notification: None, result: Ok(()) });
}

#[test]
fn run_is_passing_where_no_project_has_errors() {
    let fetched = vec![fetched_text("* x"), fetched_text("* y")];
    let run = validate_all(unchecked_projects(&["a", "b"]), &fetched);
    assert!(run.projects().iter().all(|project| project.errors().is_empty()));
    assert!(run.is_passing());
    let fetched = vec![fetched_text("* x"), fetched_text("y z")];
    let run = validate_all(unchecked_projects(&["a", "b"]), &fetched);
    assert!(!run.projects().iter().all(|project| project.errors().is_empty()));
    assert!(!run.is_passing());
}

#[test]
fn problem_projects_are_those_with_errors_in_their_order() {
    let fetched = vec![
        fetched_failure("one"),
        fetched_text("* x"),
        fetched_text("docs/ y"),
        fetched_text("* z"),
        fetched_text("w"),
    ];
    let run = validate_all(unchecked_projects(&["a", "b", "c", "d", "e"]), &fetched);
    let failed = run.problem_projects();
    let names: Vec<&String> = failed.iter().map(|project| project.name()).collect();
    assert_eq!(names, vec!["a", "c", "e"]);
    assert!(failed.iter().all(|project| project.has_errors()));
}

#[test]
fn status_lines_come_one_for_each_project() {
    let fetched = vec![fetched_text("* x y"), fetched_failure("gone")];
    let run = validate_all(unchecked_projects(&["a", "b"]), &fetched);
    assert_eq!(run.status_lines(), vec!["✔️ a (x, y)", "❌ b\n    gone"]);
}

#[test]
fn passing_run_owes_no_message_even_with_a_webhook() {
    let fetched = vec![fetched_text("* x"), fetched_text("* y")];
    let report = all(
        Ok(website_data(&["a", "b"])),
        &fetched,
        Some("https://hooks.example/T0".to_string()),
    );
    assert_eq!(
        report,
        Report {
            lines: vec!["✔️ a (x)".to_string(), "✔️ b (y)".to_string()],
            notification: None,
            result: Ok(()),
        }
    );
}

#[test]
fn passing_run_without_webhook_ends_well() {
    let report = all(Ok(website_data(&["a"])), &vec![fetched_text("* x")], None);
    assert_eq!(report.notification, None);
    assert_eq!(report.result, Ok(()));
}

#[test]
fn failing_run_without_webhook_owes_no_message() {
    let fetched = vec![fetched_text("* x"), fetched_failure("gone")];
    let report = all(Ok(website_data(&["a", "b"])), &fetched, None);
    assert_eq!(
        report,
        Report {
            lines: vec!["✔️ a (x)".to_string(), "❌ b\n    gone".to_string()],
            notification: None,
            result: Err(RunError::NotAllConform),
        }
    );
}

#[test]
fn failing_run_with_webhook_owes_a_message_about_the_failures() {
    let fetched = vec![fetched_text("* x"), fetched_failure("gone"), fetched_text("* z")];
    let report = all(
        Ok(website_data(&["a", "b", "c"])),
        &fetched,
        Some("https://hooks.example/T0".to_string()),
    );
    assert_eq!(
        report.lines,
        vec!["✔️ a (x)".to_string(), "❌ b\n    gone".to_string(), "✔️ c (z)".to_string()]
    );
    assert_eq!(
        report.notification,
        Some(Notification {
            url: "https://hooks.example/T0".to_string(),
            blocks: vec![
                Block::Text(HEAD_TEXT.to_string()),
                Block::Divider,
                Block::Text(
                    ":red_circle: *<https://github.com/EmbarkStudios/b|b>*\n```gone```".to_string()
                ),
                Block::Divider,
                Block::Text(FOOT_TEXT.to_string()),
            ],
        })
    );
    assert_eq!(report.result, Err(RunError::NotAllConform));
}

#[test]
fn message_is_owed_exactly_for_failures_with_a_webhook() {
    for failing in [false, true] {
        for webhook in [false, true] {
            let fetched = vec![if failing { fetched_failure("gone") } else { fetched_text("* x") }];
            let url = if webhook { Some("https://hooks.example/T0".to_string()) } else { None };
            let report = all(Ok(website_data(&["a"])), &fetched, url);
            assert_eq!(report.notification.is_some(), failing && webhook);
            assert_eq!(report.result.is_err(), failing);
            assert_eq!(report.lines.len(), 1);
        }
    }
}

#[test]
fn run_without_list_prints_and_sends_nothing() {
    let report = all(
        Err("503 Service Unavailable".to_string()),
        &Vec::new(),
        Some("https://hooks.example/T0".to_string()),
    );
    assert_eq!(
        report,
        Report {
            lines: Vec::new(),
            notification: None,
            result: Err(RunError::ListDownload("503 Service Unavailable".to_string())),
        }
    );
}

#[test]
fn run_over_an_empty_list_is_passing() {
    let report = all(Ok(website_data(&[])), &Vec::new(), Some("https://hooks.example/T0".to_string()));
    assert_eq!(report, Report { lines: Vec::new(), notification: None, result: Ok(()) });
}

#[test]
fn run_over_one_project_in_order_ends_well() {
    let report = one("rust-gpu".to_string(), &fetched_text("* alice"));
    assert_eq!(
        report,
        Report { lines: vec!["✔️ rust-gpu (alice)".to_string()], notification: None, result: Ok(()) }
    );
}

#[test]
fn run_over_one_project_with_errors_fails() {
    let report = one("rust-gpu".to_string(), &fetched_failure("404 Not Found"));
    assert_eq!(
        report,
        Report {
            lines: vec!["❌ rust-gpu\n    404 Not Found".to_string()],
            notification: None,
            result: Err(RunError::NotConform),
        }
    );
}

#[test]
fn run_ends_as_the_report_says_where_the_message_went_out() {
    let fetched = vec![fetched_failure("gone")];
    let report = all(Ok(website_data(&["a"])), &fetched, Some("https://hooks.example/T0".to_string()));
    assert_eq!(report.conclude(Some(Ok(()))), Err(RunError::NotAllConform));
}

#[test]
fn run_ends_in_the_failure_of_the_delivery() {
    let fetched = vec![fetched_failure("gone")];
    let report = all(Ok(website_data(&["a"])), &fetched, Some("https://hooks.example/T0".to_string()));
    assert_eq!(
        report.conclude(Some(Err("hook is gone".to_string()))),
        Err(RunError::NotificationDelivery("hook is gone".to_string()))
    );
}

#[test]
fn run_that_owes_no_message_ends_as_the_report_says() {
    let report = all(Ok(website_data(&["a"])), &vec![fetched_text("* x")], None);
    assert_eq!(report.conclude(None), Ok(()));
    let report = all(Ok(website_data(&["a"])), &vec![fetched_text("* x")], None);
    assert_eq!(report.conclude(Some(Err("never sent".to_string()))), Ok(()));
    let report = all(Ok(website_data(&["a"])), &vec![fetched_failure("gone")], None);
    assert_eq!(report.conclude(None), Err(RunError::NotAllConform));
}

#[test]
fn exit_status_is_zero_only_for_a_run_that_ended_well() {
    assert_eq!(exit_status(&Ok(())), 0);
    assert_eq!(exit_status(&Err(RunError::NotAllConform)), 1);
    assert_eq!(exit_status(&Err(RunError::NotConform)), 1);
    assert_eq!(exit_status(&Err(RunError::ListDownload("503".to_string()))), 1);
    assert_eq!(exit_status(&Err(RunError::NotificationDelivery("gone".to_string()))), 1);
}

#[test]
fn exit_status_does_not_tell_the_failures_apart() {
    let sources = [fetched_failure("gone"), fetched_text("lonely"), fetched_text("docs/ a")];
    for fetched in sources {
        let report = one("rust-gpu".to_string(), &fetched);
        assert_eq!(exit_status(&report.result), 1);
    }
    let report = one("rust-gpu".to_string(), &fetched_text("* a"));
    assert_eq!(exit_status(&report.result), 0);
}
