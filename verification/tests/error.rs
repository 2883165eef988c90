use embark_oss::codeowners::CodeOwners;
use embark_oss::error::{
    cause_string, Failure, RunError, INDENT, LIST_UNAVAILABLE, NOT_ALL_CONFORM, NOT_CONFORM,
    NOT_YET_CHECKED, NO_MAINTAINERS, UNDETERMINED,
};
use embark_oss::github::FetchError;

fn error_strings(items: &[&str]) -> Vec<String> {
    items.iter().map(|item| item.to_string()).collect()
}

#[test]
fn words_of_the_errors() {
    assert_eq!(INDENT, "    ");
    assert_eq!(NOT_YET_CHECKED, "This property has not yet been validated");
    assert_eq!(UNDETERMINED, "Unable to determine maintainers");
    assert_eq!(NO_MAINTAINERS, "No maintainers were found for * the CODEOWNERS file");
    assert_eq!(LIST_UNAVAILABLE, "Unable to get list of open source Embark projects");
    assert_eq!(NOT_ALL_CONFORM, "Not all projects conform to our guidelines");
    assert_eq!(NOT_CONFORM, "The project does not conform to our guidelines");
}

#[test]
fn causes_of_not_yet_checked() {
    assert_eq!(
        Failure::NotYetChecked.causes(),
        error_strings(&["This property has not yet been validated"])
    );
}

#[test]
fn causes_of_a_fetch_failure() {
    let failure = Failure::Fetch(FetchError::new("404 Not Found".to_string()));
    assert_eq!(failure.causes(), error_strings(&["404 Not Found"]));
}

#[test]
fn causes_of_a_parse_failure() {
    let error = CodeOwners::new("\n\nsrc/").expect_err("the third line is malformed");
    let failure = Failure::Parse(error);
    assert_eq!(
        failure.causes(),
        error_strings(&[
            "Unable to determine maintainers",
            "Line 3 gives no owners for the pattern src/"
        ])
    );
}

#[test]
fn causes_of_no_maintainers_declared() {
    assert_eq!(
        Failure::NoMaintainersDeclared.causes(),
        error_strings(&["No maintainers were found for * the CODEOWNERS file"])
    );
}

#[test]
fn causes_of_the_run_errors() {
    assert_eq!(
        RunError::ListDownload("503".to_string()).causes(),
        error_strings(&["Unable to get list of open source Embark projects", "503"])
    );
    assert_eq!(
        RunError::NotAllConform.causes(),
        error_strings(&["Not all projects conform to our guidelines"])
    );
    assert_eq!(
        RunError::NotConform.causes(),
        error_strings(&["The project does not conform to our guidelines"])
    );
    assert_eq!(
        RunError::NotificationDelivery("hook is gone".to_string()).causes(),
        error_strings(&["hook is gone"])
    );
}

#[test]
fn cause_string_puts_each_cause_on_its_line() {
    let causes = error_strings(&["outer", "middle", "inner"]);
    assert_eq!(cause_string(&causes, false), "outer\nmiddle\ninner");
}

#[test]
fn cause_string_indents_each_cause() {
    let causes = error_strings(&["outer", "middle", "inner"]);
    assert_eq!(cause_string(&causes, true), "    outer\n    middle\n    inner");
}

#[test]
fn cause_string_of_one_cause_has_no_line_feed() {
    assert_eq!(cause_string(&error_strings(&["alone"]), false), "alone");
    assert_eq!(cause_string(&error_strings(&["alone"]), true), "    alone");
}

#[test]
fn cause_string_of_no_cause_is_empty() {
    assert_eq!(cause_string(&Vec::new(), false), "");
    assert_eq!(cause_string(&Vec::new(), true), "");
}

#[test]
fn cause_string_does_not_change_the_causes() {
    let causes = error_strings(&["a", "b"]);
    let first = cause_string(&causes, true);
    let second = cause_string(&causes, true);
    assert_eq!(first, second);
    assert_eq!(causes, error_strings(&["a", "b"]));
}
