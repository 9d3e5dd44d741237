use lentil::capture::{CaptureState, DetailStep};
use lentil::config::LentilConfig;
use lentil::due::LocalDate;
use lentil::session::{
    is_eoi_signal, key_consumed, CaptureSession, Effect, KeyName, KeyPress, SuggestionCache,
};

fn today() -> LocalDate {
    LocalDate { day: 15, month: 4, year: 2026 }
}

fn config() -> LentilConfig {
    LentilConfig::default()
}

fn ctrl_d() -> KeyPress {
    KeyPress { key: KeyName::Character("d".to_string()), ctrl: true }
}

fn key(k: KeyName) -> KeyPress {
    KeyPress { key: k, ctrl: false }
}

fn press(s: &mut CaptureSession, k: KeyPress, projects: &[String], tags: &[String]) -> Effect {
    let field = Some(s.step);
    s.key_down(field, &k, today(), &config(), projects, tags)
}

fn press_outside(s: &mut CaptureSession, k: KeyPress, projects: &[String], tags: &[String]) -> Effect {
    s.key_down(None, &k, today(), &config(), projects, tags)
}

fn names(v: &[&str]) -> Vec<String> {
    v.iter().map(|x| x.to_string()).collect()
}

#[test]
fn eoi_signal() {
    assert!(is_eoi_signal(&ctrl_d()));
    assert!(!is_eoi_signal(&KeyPress { key: KeyName::Character("d".to_string()), ctrl: false }));
    assert!(!is_eoi_signal(&KeyPress { key: KeyName::Character("D".to_string()), ctrl: true }));
    assert!(!is_eoi_signal(&KeyPress { key: KeyName::Enter, ctrl: true }));
}

#[test]
fn blank_title_does_not_advance() {
    let mut s = CaptureSession::new();
    s.title_input("   ".to_string());
    let e = press(&mut s, ctrl_d(), &[], &[]);
    assert!(matches!(e, Effect::Nothing));
    assert_eq!(s.step, CaptureState::Title);
    assert_eq!(s.toast_msg, "Task name cannot be empty");
    assert!(s.toast_is_error);
}

#[test]
fn title_then_project_sets_implicit_due() {
    let mut s = CaptureSession::new();
    s.title_input("Buy milk".to_string());
    press(&mut s, ctrl_d(), &[], &[]);
    assert_eq!(s.step, CaptureState::Details(DetailStep::Project));
    assert_eq!(s.toast_msg, "");
    let projects = names(&["home", "work"]);
    press(&mut s, key(KeyName::ArrowDown), &projects, &[]);
    assert_eq!(s.project_selection, 1);
    assert_eq!(s.draft.project_input, "work");
    press(&mut s, key(KeyName::ArrowDown), &projects, &[]);
    assert_eq!(s.project_selection, 1);
    press(&mut s, key(KeyName::ArrowUp), &projects, &[]);
    assert_eq!(s.project_selection, 0);
    assert_eq!(s.draft.project_input, "home");
    press(&mut s, ctrl_d(), &projects, &[]);
    assert_eq!(s.step, CaptureState::Details(DetailStep::Due));
    assert_eq!(s.draft.project_input, "home");
    assert_eq!(s.draft.due_normalized, Some("15/04/2026".to_string()));
    assert!(s.draft.due_implicit_default);
    assert_eq!(s.draft.due_input, "");
}

#[test]
fn due_step_asks_for_checks() {
    let mut s = CaptureSession::new();
    s.focus(CaptureState::Details(DetailStep::Due));
    s.draft.due_input = "3/5".to_string();
    match press(&mut s, ctrl_d(), &[], &[]) {
        Effect::CheckDue(text) => assert_eq!(text, "3/5"),
        other => panic!("unexpected {:?}", other),
    }
    s.due_checked(Ok(Some("03/05/2026".to_string())));
    assert_eq!(s.step, CaptureState::Details(DetailStep::Priority));
    assert_eq!(s.draft.due_normalized, Some("03/05/2026".to_string()));
    s.focus(CaptureState::Details(DetailStep::Due));
    s.due_checked(Err("That date does not exist".to_string()));
    assert_eq!(s.step, CaptureState::Details(DetailStep::Due));
    assert!(s.toast_is_error);
    assert!(matches!(press(&mut s, key(KeyName::ArrowUp), &[], &[]), Effect::MoveDue(-7)));
    assert!(matches!(press(&mut s, key(KeyName::ArrowRight), &[], &[]), Effect::MoveDue(1)));
}

#[test]
fn setting_the_due_field() {
    let mut s = CaptureSession::new();
    s.draft.due_implicit_default = true;
    s.set_due_input("  ".to_string(), Ok(None), today());
    assert_eq!(s.draft.due_normalized, Some("15/04/2026".to_string()));
    s.set_due_input("31/2".to_string(), Err("That date does not exist".to_string()), today());
    assert_eq!(s.draft.due_input, "31/2");
    assert_eq!(s.draft.due_normalized, None);
    assert!(!s.draft.due_implicit_default);
    assert_eq!(s.toast_msg, "That date does not exist");
    s.set_due_input("".to_string(), Ok(None), today());
    assert_eq!(s.draft.due_normalized, None);
    assert_eq!(s.toast_msg, "");
    s.set_due_input("1/5".to_string(), Ok(Some("01/05/2026".to_string())), today());
    assert_eq!(s.draft.due_normalized, Some("01/05/2026".to_string()));
    assert!(!s.toast_is_error);
}

#[test]
fn priority_required_with_due() {
    let mut s = CaptureSession::new();
    s.title_input("x".to_string());
    s.focus(CaptureState::Details(DetailStep::Priority));
    s.draft.due_normalized = Some("01/05/2026".to_string());
    press(&mut s, ctrl_d(), &[], &[]);
    assert_eq!(s.step, CaptureState::Details(DetailStep::Priority));
    assert_eq!(s.toast_msg, "Priority is required when a due date is set");
    press(&mut s, key(KeyName::Enter), &[], &[]);
    assert_eq!(s.draft.priority, Some('M'));
    press(&mut s, key(KeyName::ArrowRight), &[], &[]);
    assert_eq!(s.draft.priority, Some('L'));
    press(&mut s, key(KeyName::ArrowLeft), &[], &[]);
    assert_eq!(s.draft.priority, Some('M'));
    press(&mut s, ctrl_d(), &[], &[]);
    assert_eq!(s.step, CaptureState::Details(DetailStep::Tags));
}

#[test]
fn submit_rules_and_command() {
    let mut s = CaptureSession::new();
    s.focus(CaptureState::Details(DetailStep::Tags));
    press(&mut s, ctrl_d(), &[], &[]);
    assert_eq!(s.step, CaptureState::Title);
    assert_eq!(s.toast_msg, "Task name cannot be empty");

    s.title_input("Write".to_string());
    s.focus(CaptureState::Details(DetailStep::Tags));
    s.draft.due_normalized = Some("01/05/2026".to_string());
    press(&mut s, ctrl_d(), &[], &[]);
    assert_eq!(s.step, CaptureState::Details(DetailStep::Priority));

    s.priority_chip('H');
    s.focus(CaptureState::Details(DetailStep::Tags));
    let tags = names(&["idea", "writing"]);
    press(&mut s, key(KeyName::ArrowDown), &[], &tags);
    assert_eq!(s.tag_selection, 1);
    press(&mut s, key(KeyName::Enter), &[], &tags);
    assert_eq!(s.draft.tags_input, "#writing");
    match press(&mut s, ctrl_d(), &[], &tags) {
        Effect::RunTask(cmd) => {
            assert_eq!(cmd.program, "task");
            assert_eq!(cmd.args, vec!["add", "Write", "due:2026-05-01", "priority:H", "+writing"]);
        }
        other => panic!("unexpected {:?}", other),
    }
}

#[test]
fn escape_behaviour() {
    let mut s = CaptureSession::new();
    assert!(matches!(press(&mut s, key(KeyName::Escape), &[], &[]), Effect::CloseWindow));
    s.title_input("t".to_string());
    assert!(matches!(press(&mut s, key(KeyName::Escape), &[], &[]), Effect::Nothing));
    assert_eq!(s.title, "");
    s.focus(CaptureState::Details(DetailStep::Priority));
    press(&mut s, key(KeyName::Escape), &[], &[]);
    assert_eq!(s.step, CaptureState::Details(DetailStep::Due));
}

#[test]
fn tab_does_nothing() {
    let mut s = CaptureSession::new();
    s.title_input("t".to_string());
    s.focus(CaptureState::Details(DetailStep::Project));
    let projects = names(&["a", "b"]);
    assert!(matches!(press(&mut s, key(KeyName::Tab), &projects, &[]), Effect::Nothing));
    assert_eq!(s.step, CaptureState::Details(DetailStep::Project));
    assert_eq!(s.project_selection, 0);
    assert_eq!(s.title, "t");
}

#[test]
fn inputs_and_chips() {
    let mut s = CaptureSession::new();
    s.project_chip(2, "lentil".to_string());
    assert_eq!(s.project_selection, 2);
    s.project_input("len".to_string());
    assert_eq!(s.project_selection, 0);
    assert_eq!(s.draft.project_input, "len");
    s.tag_chip(1, "idea");
    assert_eq!(s.tag_selection, 1);
    assert_eq!(s.draft.tags_input, "#idea");
    s.tags_input("#a".to_string());
    assert_eq!(s.tag_selection, 0);
    s.priority_input("m");
    assert_eq!(s.draft.priority, Some('M'));
    s.priority_input("x");
    assert_eq!(s.draft.priority, None);
    s.priority_input("");
    assert_eq!(s.draft.priority, None);
}

#[test]
fn task_answers() {
    let mut s = CaptureSession::new();
    s.title_input("t".to_string());
    let stay = LentilConfig { clear_and_stay_open: true, ..LentilConfig::default() };
    assert!(matches!(s.task_finished(Ok("Created task 1.".to_string()), &stay), Effect::Nothing));
    assert_eq!(s.title, "");
    assert_eq!(s.toast_msg, "Created task 1.");
    assert!(!s.toast_is_error);
    s.title_input("t".to_string());
    assert!(matches!(s.task_finished(Ok("ok".to_string()), &config()), Effect::CloseWindow));
    assert_eq!(s.title, "t");
    assert!(matches!(s.task_finished(Err("bad".to_string()), &config()), Effect::Nothing));
    assert!(s.toast_is_error);
}

#[test]
fn suggestions_for_the_form() {
    let cache = SuggestionCache { projects: names(&["home", "work"]), tags: names(&["writing"]) };
    let mut s = CaptureSession::new();
    s.project_input("wo".to_string());
    assert_eq!(s.project_suggestions(&cache, &config()), names(&["work"]));
    assert_eq!(s.tag_suggestions(&cache, &config()), names(&["idea", "writing"]));
    s.draft.due_normalized = Some("01/01/2027".to_string());
    assert_eq!(s.tag_suggestions(&cache, &config()), names(&["writing"]));
}

#[test]
fn keys_the_form_takes() {
    let title = CaptureState::Title;
    let due = CaptureState::Details(DetailStep::Due);
    let tags = CaptureState::Details(DetailStep::Tags);
    assert!(key_consumed(title, Some(title), &key(KeyName::Tab)));
    assert!(key_consumed(title, Some(title), &key(KeyName::Escape)));
    assert!(key_consumed(title, Some(title), &ctrl_d()));
    assert!(!key_consumed(title, Some(title), &key(KeyName::ArrowLeft)));
    assert!(!key_consumed(title, Some(title), &key(KeyName::Enter)));
    assert!(key_consumed(due, Some(due), &key(KeyName::ArrowDown)));
    assert!(!key_consumed(due, Some(due), &key(KeyName::Enter)));
    assert!(key_consumed(tags, Some(tags), &key(KeyName::Enter)));
    assert!(!key_consumed(tags, Some(tags), &key(KeyName::Character("a".to_string()))));
}

#[test]
fn keys_outside_the_field() {
    let due = CaptureState::Details(DetailStep::Due);
    let tags = CaptureState::Details(DetailStep::Tags);
    assert!(!key_consumed(due, None, &key(KeyName::ArrowDown)));
    assert!(!key_consumed(tags, None, &key(KeyName::Enter)));
    assert!(!key_consumed(tags, Some(due), &key(KeyName::Enter)));
    assert!(key_consumed(tags, None, &key(KeyName::Escape)));
    assert!(key_consumed(tags, None, &ctrl_d()));

    let mut s = CaptureSession::new();
    s.title_input("t".to_string());
    s.focus(tags);
    let tag_list = names(&["idea", "writing"]);
    assert!(matches!(press_outside(&mut s, key(KeyName::ArrowDown), &[], &tag_list), Effect::Nothing));
    assert_eq!(s.tag_selection, 0);
    assert!(matches!(press_outside(&mut s, key(KeyName::Enter), &[], &tag_list), Effect::Nothing));
    assert_eq!(s.draft.tags_input, "");
    s.focus(due);
    assert!(matches!(press_outside(&mut s, key(KeyName::ArrowUp), &[], &[]), Effect::Nothing));
    press_outside(&mut s, key(KeyName::Escape), &[], &[]);
    assert_eq!(s.step, CaptureState::Details(DetailStep::Project));
}

#[test]
fn forward_from_due_keeps_implicit_today() {
    let mut s = CaptureSession::new();
    s.title_input("Buy milk".to_string());
    press(&mut s, ctrl_d(), &[], &[]);
    press(&mut s, ctrl_d(), &[], &[]);
    assert_eq!(s.step, CaptureState::Details(DetailStep::Due));
    assert!(s.draft.due_implicit_default);
    let e = press(&mut s, ctrl_d(), &[], &[]);
    assert!(matches!(e, Effect::Nothing));
    assert_eq!(s.step, CaptureState::Details(DetailStep::Priority));
    assert_eq!(s.draft.due_normalized, Some("15/04/2026".to_string()));
    s.priority_chip('L');
    press(&mut s, ctrl_d(), &[], &[]);
    match press(&mut s, ctrl_d(), &[], &[]) {
        Effect::RunTask(cmd) => {
            assert_eq!(cmd.args, vec!["add", "Buy milk", "due:2026-04-15", "priority:L"]);
        }
        other => panic!("unexpected {:?}", other),
    }
}

#[test]
fn forward_from_blank_due_without_default_reads_text() {
    let mut s = CaptureSession::new();
    s.focus(CaptureState::Details(DetailStep::Due));
    s.draft.due_input = "  ".to_string();
    match press(&mut s, ctrl_d(), &[], &[]) {
        Effect::CheckDue(text) => assert_eq!(text, "  "),
        other => panic!("unexpected {:?}", other),
    }
    assert_eq!(s.step, CaptureState::Details(DetailStep::Due));
}
