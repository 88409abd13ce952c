use trycli::preview::{compose_preview, help_text, package_info_text, quick_reference_text, RunOutcome};

fn finished(success: bool, stdout: &str, stderr: &str) -> RunOutcome {
    RunOutcome::Finished { success, stdout: stdout.to_string(), stderr: stderr.to_string() }
}

#[test]
fn quick_reference_needs_success_and_text() {
    assert_eq!(quick_reference_text(finished(true, "tar - archive", "")), Some("tar - archive".to_string()));
    assert_eq!(quick_reference_text(finished(true, " \n\t", "")), None);
    assert_eq!(quick_reference_text(finished(false, "page not found", "")), None);
    assert_eq!(quick_reference_text(RunOutcome::TimedOut), None);
    assert_eq!(quick_reference_text(RunOutcome::Failed("missing".to_string())), None);
}

#[test]
fn help_falls_back_to_stderr() {
    assert_eq!(help_text("fd", finished(true, "Usage: fd", "warn")), "Usage: fd");
    assert_eq!(help_text("fd", finished(false, "  \n", "Usage on stderr")), "Usage on stderr");
}

#[test]
fn help_failure_messages() {
    assert_eq!(help_text("vim", RunOutcome::TimedOut), "vim: timed out (interactive tool?)");
    assert_eq!(
        help_text("nope", RunOutcome::Failed("No such file or directory (os error 2)".to_string())),
        "Could not run --help: No such file or directory (os error 2)"
    );
}

#[test]
fn package_info_by_source() {
    let printed = Some(("Name : fd".to_string(), "err".to_string()));
    assert_eq!(package_info_text("pacman", printed.clone()), "Name : fd");
    assert_eq!(package_info_text("pacman", Some((" ".to_string(), "error: not found".to_string()))), "error: not found");
    assert_eq!(package_info_text("brew", printed.clone()), "Name : fd");
    assert_eq!(package_info_text("cargo", printed), "");
    assert_eq!(package_info_text("pacman", None), "");
}

#[test]
fn compose_adds_rule_and_reset() {
    assert_eq!(compose_preview("help".to_string(), "  \n".to_string()), "help");
    assert_eq!(
        compose_preview("help".to_string(), "info".to_string()),
        "help\x1b[0m\n\n── Package Info ──────────────────────\ninfo"
    );
}
