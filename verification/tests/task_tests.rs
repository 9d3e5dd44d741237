use lentil::command::RunOutput;
use lentil::draft::{due_arrow_plan, due_preview_text, DueArrowPlan, MetadataDraft};
use lentil::due::LocalDate;
use lentil::task::{build_task_command, task_list_command, task_list_from_output, task_outcome};

fn draft() -> MetadataDraft {
    MetadataDraft::default()
}

fn run(success: bool, stdout: &str, stderr: &str) -> Result<RunOutput, String> {
    Ok(RunOutput { success, stdout: stdout.to_string(), stderr: stderr.to_string() })
}

#[test]
fn minimal_task_command() {
    let cmd = build_task_command("  Buy milk ", &draft());
    assert_eq!(cmd.program, "task");
    assert_eq!(cmd.args, vec!["add", "Buy milk"]);
}

#[test]
fn full_task_command() {
    let mut d = draft();
    d.project_input = " home ".to_string();
    d.due_normalized = Some("05/03/2026".to_string());
    d.priority = Some('H');
    d.tags_input = "#Errand, idea errand".to_string();
    let cmd = build_task_command("Buy milk", &d);
    assert_eq!(
        cmd.args,
        vec!["add", "Buy milk", "project:home", "due:2026-03-05", "priority:H", "+errand", "+idea"]
    );
}

#[test]
fn unreadable_due_is_left_out() {
    let mut d = draft();
    d.project_input = "   ".to_string();
    d.due_normalized = Some("soon".to_string());
    let cmd = build_task_command("x", &d);
    assert_eq!(cmd.args, vec!["add", "x"]);
}

#[test]
fn taskwarrior_answers() {
    assert_eq!(task_outcome(run(true, "Created task 3.\n", "")), Ok("Created task 3.".to_string()));
    assert_eq!(task_outcome(run(true, "  \n", "")), Ok("Task added".to_string()));
    assert_eq!(task_outcome(run(false, "", " bad date \n")), Err("bad date".to_string()));
    assert_eq!(task_outcome(run(false, "out", "")), Err("Taskwarrior rejected the task".to_string()));
    assert_eq!(
        task_outcome(Err("not found".to_string())),
        Err("Unable to start Taskwarrior: not found".to_string())
    );
}

#[test]
fn task_lists() {
    let cmd = task_list_command("_projects");
    assert_eq!(cmd.program, "task");
    assert_eq!(cmd.args, vec!["_projects"]);
    assert_eq!(
        task_list_from_output(run(true, "home\n  work \r\n\n lentil\n", "")),
        vec!["home", "work", "lentil"]
    );
    assert_eq!(task_list_from_output(run(false, "home\n", "")), Vec::<String>::new());
    assert_eq!(task_list_from_output(Err("x".to_string())), Vec::<String>::new());
}

#[test]
fn due_preview_lines() {
    let mut d = draft();
    d.due_implicit_default = true;
    assert_eq!(due_preview_text(&d), "Defaulting to today. Type dd, dd/mm, /mm, dd/mm/YYYY, or /mm/YYYY.");
    d.due_implicit_default = false;
    assert_eq!(due_preview_text(&d), "Optional. Type dd, dd/mm, /mm, dd/mm/YYYY, or /mm/YYYY.");
    d.due_input = "3/4".to_string();
    assert_eq!(due_preview_text(&d), "Complete the date to continue");
    d.due_normalized = Some("03/04/2026".to_string());
    assert_eq!(due_preview_text(&d), "Resolved date");
}

#[test]
fn due_arrow_plans() {
    let today = LocalDate { day: 15, month: 4, year: 2026 };
    let mut d = draft();
    d.due_implicit_default = true;
    d.due_normalized = Some("15/04/2026".to_string());
    match due_arrow_plan(&d, today, 1) {
        DueArrowPlan::Ready(s) => assert_eq!(s, "15/04/2026"),
        other => panic!("unexpected {:?}", other),
    }
    d.due_implicit_default = false;
    d.due_input = "20".to_string();
    d.due_normalized = Some("20/04/2026".to_string());
    match due_arrow_plan(&d, today, -7) {
        DueArrowPlan::Shift(args) => assert_eq!(args, vec!["-d", "2026-04-20 -7 day", "+%d/%m/%Y"]),
        other => panic!("unexpected {:?}", other),
    }
    d.due_normalized = None;
    match due_arrow_plan(&d, today, 1) {
        DueArrowPlan::Shift(args) => assert_eq!(args, vec!["-d", "2026-04-15 +1 day", "+%d/%m/%Y"]),
        other => panic!("unexpected {:?}", other),
    }
    d.due_normalized = Some("garbage".to_string());
    assert!(matches!(due_arrow_plan(&d, today, 1), DueArrowPlan::Unavailable));
}
