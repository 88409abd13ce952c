use trycli::audit::{count_executions, event_serial, event_timestamp, install_hint};

const LOG: &str = "type=SYSCALL msg=audit(1700000000.123:100): arch=c000003e syscall=59 success=yes exit=0 tty=pts0 exe=\"/usr/bin/rg\" key=\"trycli\"\n\
type=EXECVE msg=audit(1700000000.123:100): argc=2 a0=\"rg\" a1=\"foo\"\n\
type=SYSCALL msg=audit(1700000001.000:101): success=yes tty=pts1 exe=\"/usr/bin/rg\"\n\
type=EXECVE msg=audit(1700000001.000:101): argc=2 a0=\"rg\" a1=\"--help\"\n\
type=SYSCALL msg=audit(1700000002.000:102): success=yes tty=(none) exe=\"/usr/bin/cron\"\n\
type=SYSCALL msg=audit(1700000003.000:103): success=yes tty=pts1 exe=\"/usr/bin/fd\"\n\
type=SYSCALL msg=audit(1600000000.000:104): success=yes tty=pts1 exe=\"/usr/bin/fd\"\n\
type=SYSCALL msg=audit(1700000004.000:105): success=no tty=pts1 exe=\"/usr/bin/fd\"\n\
type=SYSCALL msg=audit(1700000005.000:106): arch=x success=yes exit=0 tty=pts1 exe=\"/usr/bin/rg\"\n";

fn chars(s: &str) -> Vec<char> {
    s.chars().collect()
}

#[test]
fn counts_interactive_recent_non_help_runs() {
    let counts = count_executions(LOG, 1650000000);
    assert_eq!(counts, vec![("rg".to_string(), 2), ("fd".to_string(), 1)]);
}

#[test]
fn separator_lines_close_events() {
    let log = "type=SYSCALL msg=audit(1700000000.1:7): success=yes tty=pts0 exe=\"/bin/ls\"\n----\n\
type=SYSCALL msg=audit(1700000000.1:7): success=yes tty=pts0 exe=\"/bin/ls\"\n";
    assert_eq!(count_executions(log, 0), vec![("ls".to_string(), 2)]);
    assert!(count_executions("", 0).is_empty());
}

#[test]
fn record_time_and_serial() {
    let line = chars("type=SYSCALL msg=audit(1700000000.123:4567): x");
    assert_eq!(event_timestamp(&line), 1700000000);
    assert_eq!(event_serial(&line), Some(4567));
    let bare = chars("no marker here");
    assert_eq!(event_timestamp(&bare), 0);
    assert_eq!(event_serial(&bare), None);
    assert_eq!(event_serial(&chars("msg=audit(1.2)")), None);
}

#[test]
fn hints_per_platform() {
    assert!(install_hint(true).contains("launchctl"));
    assert!(install_hint(false).starts_with("auditd not running. Fix:"));
}

#[test]
fn program_is_last_path_component() {
    let log = "type=SYSCALL msg=audit(10.0:1): success=yes tty=pts0 exe=\"/usr/local/bin/\"\n\
type=SYSCALL msg=audit(10.0:2): success=yes tty=pts0 exe=\"./tool/.\"\n\
type=SYSCALL msg=audit(10.0:3): success=yes tty=pts0 exe=\"/usr/..\"\n\
type=SYSCALL msg=audit(10.0:4): success=yes tty=pts0 exe=jq\n";
    assert_eq!(
        count_executions(log, 0),
        vec![("bin".to_string(), 1), ("tool".to_string(), 1), ("jq".to_string(), 1)]
    );
}
