use lentil::command::RunOutput;
use lentil::due::{
    calendar_state_for, date_check_command, date_check_outcome, display_date_to_taskwarrior,
    due_check, last_day_command, local_date_from_output, month_grid, month_name, number_outcome,
    parse_display_date, resolve_due_parts, shift_command, shift_outcome, today_command,
    today_display, weekday_command, CalendarState, DueCheck, LocalDate,
};

fn today() -> LocalDate {
    LocalDate { day: 15, month: 4, year: 2026 }
}

fn ok_run(stdout: &str) -> Result<RunOutput, String> {
    Ok(RunOutput { success: true, stdout: stdout.to_string(), stderr: String::new() })
}

fn failed_run(stderr: &str) -> Result<RunOutput, String> {
    Ok(RunOutput { success: false, stdout: String::new(), stderr: stderr.to_string() })
}

#[test]
fn display_dates_read() {
    assert_eq!(
        parse_display_date("05/03/2026"),
        Some(CalendarState { day: 5, month: 3, year: 2026 })
    );
    assert_eq!(
        parse_display_date("5/3/-44/extra"),
        Some(CalendarState { day: 5, month: 3, year: -44 })
    );
    assert_eq!(parse_display_date("05/03"), None);
    assert_eq!(parse_display_date("aa/03/2026"), None);
    assert_eq!(parse_display_date("05/-3/2026"), None);
    assert_eq!(parse_display_date("+05/+03/+2026"), Some(CalendarState { day: 5, month: 3, year: 2026 }));
    assert_eq!(parse_display_date("4294967296/1/1"), None);
}

#[test]
fn taskwarrior_form() {
    assert_eq!(display_date_to_taskwarrior("05/03/2026"), Some("2026-03-05".to_string()));
    assert_eq!(display_date_to_taskwarrior("1/2/33"), Some("0033-02-01".to_string()));
    assert_eq!(display_date_to_taskwarrior("1/2/-5"), Some("-005-02-01".to_string()));
    assert_eq!(display_date_to_taskwarrior("nonsense"), None);
}

#[test]
fn today_written_and_read_back() {
    let t = LocalDate { day: 7, month: 9, year: 987 };
    assert_eq!(today_display(t), "07/09/0987");
    assert_eq!(
        parse_display_date(&today_display(t)),
        Some(CalendarState { day: 7, month: 9, year: 987 })
    );
    let n = LocalDate { day: 31, month: 12, year: -3 };
    assert_eq!(today_display(n), "31/12/-003");
    assert_eq!(
        parse_display_date(&today_display(n)),
        Some(CalendarState { day: 31, month: 12, year: -3 })
    );
}

#[test]
fn calendar_state_falls_back_to_today() {
    assert_eq!(calendar_state_for("x", today()), CalendarState { day: 15, month: 4, year: 2026 });
    assert_eq!(calendar_state_for("01/02/2003", today()), CalendarState { day: 1, month: 2, year: 2003 });
}

#[test]
fn due_parts_forms() {
    assert_eq!(resolve_due_parts("   ", today()), Ok(None));
    assert_eq!(resolve_due_parts("20", today()), Ok(Some((20, 4, 2026))));
    assert_eq!(resolve_due_parts("12", today()), Ok(Some((15, 12, 2026))));
    assert_eq!(resolve_due_parts("13", today()), Ok(Some((13, 4, 2026))));
    assert_eq!(resolve_due_parts("3/7", today()), Ok(Some((3, 7, 2026))));
    assert_eq!(resolve_due_parts("/7", today()), Ok(Some((15, 7, 2026))));
    assert_eq!(resolve_due_parts(" 3/7/2027 ", today()), Ok(Some((3, 7, 2027))));
    assert_eq!(resolve_due_parts("/7/2027", today()), Ok(Some((15, 7, 2027))));
}

#[test]
fn due_parts_errors() {
    assert_eq!(resolve_due_parts("x", today()), Err("Invalid day".to_string()));
    assert_eq!(resolve_due_parts("/x", today()), Err("Invalid month".to_string()));
    assert_eq!(resolve_due_parts("x/y", today()), Err("Invalid day".to_string()));
    assert_eq!(resolve_due_parts("3/y", today()), Err("Invalid month".to_string()));
    assert_eq!(resolve_due_parts("/x/y", today()), Err("Invalid month".to_string()));
    assert_eq!(resolve_due_parts("/3/y", today()), Err("Invalid year".to_string()));
    assert_eq!(resolve_due_parts("3/4/y", today()), Err("Invalid year".to_string()));
    assert_eq!(resolve_due_parts("3 /4", today()), Err("Invalid day".to_string()));
    assert_eq!(
        resolve_due_parts("1/2/3/4", today()),
        Err("Use dd, dd/mm, /mm, dd/mm/YYYY, or /mm/YYYY".to_string())
    );
}

#[test]
fn date_commands() {
    assert_eq!(date_check_command(5, 3, 2026), vec!["-d", "2026-03-05", "+%d/%m/%Y"]);
    assert_eq!(
        shift_command("05/03/2026", 7),
        Some(vec!["-d".to_string(), "2026-03-05 +7 day".to_string(), "+%d/%m/%Y".to_string()])
    );
    assert_eq!(
        shift_command("05/03/2026", -1),
        Some(vec!["-d".to_string(), "2026-03-05 -1 day".to_string(), "+%d/%m/%Y".to_string()])
    );
    assert_eq!(shift_command("5/3", 1), None);
    assert_eq!(weekday_command(3, 2026), vec!["-d", "2026-03-01", "+%u"]);
    assert_eq!(last_day_command(11, 999), vec!["-d", "0999-11-01 +1 month -1 day", "+%d"]);
    assert_eq!(today_command(), vec!["+%d %m %Y"]);
}

#[test]
fn date_answers() {
    assert_eq!(date_check_outcome(ok_run("05/03/2026\n")), Ok(Some("05/03/2026".to_string())));
    assert_eq!(
        date_check_outcome(failed_run("date: invalid date")),
        Err("That date does not exist".to_string())
    );
    assert_eq!(
        date_check_outcome(Err("No such file".to_string())),
        Err("Unable to validate date: No such file".to_string())
    );
    assert_eq!(shift_outcome(ok_run(" 12/03/2026\n")), Some("12/03/2026".to_string()));
    assert_eq!(shift_outcome(failed_run("")), None);
    assert_eq!(shift_outcome(Err("gone".to_string())), None);
    assert_eq!(number_outcome(ok_run("7\n")), Some(7));
    assert_eq!(number_outcome(ok_run("x\n")), None);
    assert_eq!(number_outcome(failed_run("")), None);
}

#[test]
fn today_from_date_output() {
    assert_eq!(local_date_from_output(Some("15 04 2026\n".to_string())), today());
    assert_eq!(
        local_date_from_output(Some("  03\t11   1999 extra".to_string())),
        LocalDate { day: 3, month: 11, year: 1999 }
    );
    assert_eq!(
        local_date_from_output(Some("15 04".to_string())),
        LocalDate { day: 1, month: 1, year: 1970 }
    );
    assert_eq!(local_date_from_output(None), LocalDate { day: 1, month: 1, year: 1970 });
}

#[test]
fn month_names() {
    assert_eq!(month_name(1), "January");
    assert_eq!(month_name(9), "September");
    assert_eq!(month_name(12), "December");
    assert_eq!(month_name(0), "Month");
    assert_eq!(month_name(13), "Month");
}

#[test]
fn calendar_grid() {
    let cal = CalendarState { day: 2, month: 4, year: 2026 };
    let cells = month_grid(cal, today(), Some(3), Some(30));
    assert_eq!(cells.len(), 32);
    assert_eq!(cells[0].label, "");
    assert_eq!(cells[1].display, None);
    assert_eq!(cells[2].label, "1");
    assert_eq!(cells[2].display, Some("01/04/2026".to_string()));
    assert!(cells[3].is_selected && !cells[3].is_today);
    assert!(cells[16].is_today && !cells[16].is_selected);
    assert_eq!(cells[31].label, "30");
    let fallback = month_grid(cal, today(), None, None);
    assert_eq!(fallback.len(), 30);
    assert_eq!(fallback[0].label, "1");
    let zero = month_grid(cal, today(), Some(0), Some(1));
    assert_eq!(zero.len(), 1);
}

#[test]
fn due_check_plans() {
    assert!(matches!(due_check("  ", today()), DueCheck::Done(Ok(None))));
    match due_check("3/x", today()) {
        DueCheck::Done(Err(m)) => assert_eq!(m, "Invalid month"),
        other => panic!("unexpected {:?}", other),
    }
    match due_check("3/5", today()) {
        DueCheck::AskDate(args) => assert_eq!(args, vec!["-d", "2026-05-03", "+%d/%m/%Y"]),
        other => panic!("unexpected {:?}", other),
    }
}

#[test]
fn display_date_reads_back_as_due() {
    let shown = today_display(LocalDate { day: 7, month: 11, year: 2031 });
    assert_eq!(shown, "07/11/2031");
    assert_eq!(resolve_due_parts(&shown, today()), Ok(Some((7, 11, 2031))));
    let early = today_display(LocalDate { day: 1, month: 2, year: 987 });
    assert_eq!(resolve_due_parts(&early, today()), Ok(Some((1, 2, 987))));
}
