use launch_notifier::greet::greet;
use launch_notifier::notify::file_opened_event_name;
use launch_notifier::notify::plan_open;
use launch_notifier::notify::NOTIFY_DELAY_MS;

fn strings(v: &[&str]) -> Vec<String> {
    v.iter().map(|s| String::from(*s)).collect()
}

#[test]
fn launch_with_relative_markdown_file() {
    // args ["app", "notes.md"], cwd /home/user, file exists.
    let args = strings(&["app", "notes.md"]);
    let plan = plan_open(&args, &vec![false, true], Some("/home/user")).unwrap();
    assert_eq!(plan.raw, "notes.md");
    assert_eq!(plan.pre_resolved, "/home/user/notes.md");
}

#[test]
fn launch_with_flag_and_rejected_extension() {
    // args ["app", "--flag", "report.txt", "draft.markdown"], both files exist:
    // the flag is skipped, report.txt is rejected by extension, and the first
    // qualifying argument wins.
    let args = strings(&["app", "--flag", "report.txt", "draft.markdown"]);
    let plan = plan_open(&args, &vec![false, true, true, true], Some("/home/user")).unwrap();
    assert_eq!(plan.raw, "draft.markdown");
    assert_eq!(plan.pre_resolved, "/home/user/draft.markdown");
}

#[test]
fn launch_with_missing_file_plans_nothing() {
    // args ["app", "missing.md"], file does not exist: no notification.
    let args = strings(&["app", "missing.md"]);
    assert!(plan_open(&args, &vec![false, false], Some("/home/user")).is_none());
}

#[test]
fn second_instance_invocation() {
    // Forwarded args ["app", "x.md"] with the second instance's working
    // directory: the running instance plans a notification with the absolute
    // path.  Focusing the window and the timed delivery are the shell's part.
    let args = strings(&["app", "x.md"]);
    let plan = plan_open(&args, &vec![false, true], Some("/work")).unwrap();
    assert_eq!(plan.pre_resolved, "/work/x.md");
    assert_eq!(file_opened_event_name(), "file-opened");
    assert_eq!(NOTIFY_DELAY_MS, 300);
}

#[test]
fn launch_with_absolute_path() {
    let args = strings(&["app", "/docs/readme.md"]);
    let plan = plan_open(&args, &vec![false, true], Some("/home/user")).unwrap();
    assert_eq!(plan.raw, "/docs/readme.md");
    assert_eq!(plan.pre_resolved, "/docs/readme.md");
}

#[test]
fn launch_without_working_directory() {
    let args = strings(&["app", "notes.md"]);
    let plan = plan_open(&args, &vec![false, true], None).unwrap();
    assert_eq!(plan.pre_resolved, "notes.md");
}

#[test]
fn greeting_format() {
    assert_eq!(greet("World"), "Hello, World! You've been greeted from Rust!");
    assert_eq!(greet(""), "Hello, ! You've been greeted from Rust!");
}
