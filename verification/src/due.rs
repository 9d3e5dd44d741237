//! Due dates: the `dd/mm/YYYY` display form, the partial forms the due
//! field accepts (`dd`, `dd/mm`, `/mm`, `dd/mm/YYYY`, `/mm/YYYY`), the
//! `YYYY-MM-DD` form Taskwarrior takes, and the questions put to the `date`
//! program (is this a real date, what is the date `n` days later, which
//! weekday does a month start on, how long is it) with the reading of its
//! answers.
use vstd::prelude::*;

use crate::command::{string_views, RunOutput};
use crate::num::{
    padded, padded_chars, padded_signed, padded_signed_chars, parse_i32_chars, parse_u32_chars,
    parsed_i32, parsed_u32,
};
use crate::text::{
    append_chars, chars_of, split_by, split_chars, string_from_chars, trim, trim_chars, trim_end,
    trim_start, views, words, words_chars, Sep,
};

verus! {

/// Today's date, as the `date` program reports it.
#[derive(Clone, Copy, PartialEq, Eq, Debug, Structural)]
pub struct LocalDate {
    pub day: u32,
    pub month: u32,
    pub year: i32,
}

/// The date the calendar shows selected.
#[derive(Clone, Copy, PartialEq, Eq, Debug, Structural)]
pub struct CalendarState {
    pub day: u32,
    pub month: u32,
    pub year: i32,
}

/// `YYYY-MM-DD` (each part zero-padded, `{:04}-{:02}-{:02}`).
pub open spec fn iso_date(year: int, month: nat, day: nat) -> Seq<char> {
    padded_signed(year, 4) + seq!['-'] + padded(month, 2) + seq!['-'] + padded(day, 2)
}

/// `dd/mm/YYYY` (each part zero-padded, `{:02}/{:02}/{:04}`).
pub open spec fn display_of(day: nat, month: nat, year: int) -> Seq<char> {
    padded(day, 2) + seq!['/'] + padded(month, 2) + seq!['/'] + padded_signed(year, 4)
}

/// The date a display text holds: its first three `/`-separated pieces read
/// as day, month and year (pieces after the third are ignored).
pub open spec fn display_date(s: Seq<char>) -> Option<CalendarState> {
    let p = split_by(s, Sep::Char('/'));
    if p.len() >= 3 && parsed_u32(p[0]) is Some && parsed_u32(p[1]) is Some && parsed_i32(
        p[2],
    ) is Some {
        Some(
            CalendarState {
                day: parsed_u32(p[0])->0,
                month: parsed_u32(p[1])->0,
                year: parsed_i32(p[2])->0,
            },
        )
    } else {
        None
    }
}

fn iso_date_chars(year: i32, month: u32, day: u32) -> (res: Vec<char>)
    ensures
        res@ == iso_date(year as int, month as nat, day as nat),
{
    let mut res = padded_signed_chars(year, 4);
    res.push('-');
    append_chars(&mut res, &padded_chars(month, 2));
    res.push('-');
    append_chars(&mut res, &padded_chars(day, 2));
    res
}

fn display_chars(day: u32, month: u32, year: i32) -> (res: Vec<char>)
    ensures
        res@ == display_of(day as nat, month as nat, year as int),
{
    let mut res = padded_chars(day, 2);
    res.push('/');
    append_chars(&mut res, &padded_chars(month, 2));
    res.push('/');
    append_chars(&mut res, &padded_signed_chars(year, 4));
    res
}

/// Reads a `dd/mm/YYYY` display date.
pub fn parse_display_date(display: &str) -> (res: Option<CalendarState>)
    ensures
        res == display_date(display@),
{
    let chars = chars_of(display);
    let p = split_chars(&chars, Sep::Char('/'));
    if p.len() < 3 {
        return None;
    }
    assert(views(p@)[0] == p@[0]@ && views(p@)[1] == p@[1]@ && views(p@)[2] == p@[2]@);
    let day = match parse_u32_chars(&p[0]) {
        Some(d) => d,
        None => return None,
    };
    let month = match parse_u32_chars(&p[1]) {
        Some(m) => m,
        None => return None,
    };
    let year = match parse_i32_chars(&p[2]) {
        Some(y) => y,
        None => return None,
    };
    Some(CalendarState { day, month, year })
}

/// The `YYYY-MM-DD` form Taskwarrior takes for a `dd/mm/YYYY` display date,
/// or `None` when the text holds no date.
pub fn display_date_to_taskwarrior(display: &str) -> (res: Option<String>)
    ensures
        match display_date(display@) {
            Some(d) => res is Some && res->0@ == iso_date(
                d.year as int,
                d.month as nat,
                d.day as nat,
            ),
            None => res is None,
        },
{
    match parse_display_date(display) {
        Some(state) => Some(string_from_chars(&iso_date_chars(state.year, state.month, state.day))),
        None => None,
    }
}

/// Today written `dd/mm/YYYY`.
pub fn today_display(today: LocalDate) -> (res: String)
    ensures
        res@ == display_of(today.day as nat, today.month as nat, today.year as int),
{
    string_from_chars(&display_chars(today.day, today.month, today.year))
}

/// The date the calendar shows for a display text; today where the text
/// holds no date.
pub fn calendar_state_for(display: &str, today: LocalDate) -> (res: CalendarState)
    ensures
        res == match display_date(display@) {
            Some(d) => d,
            None => CalendarState { day: today.day, month: today.month, year: today.year },
        },
{
    match parse_display_date(display) {
        Some(d) => d,
        None => CalendarState { day: today.day, month: today.month, year: today.year },
    }
}

/// The message for due text of any other shape.
pub open spec fn due_format_hint() -> Seq<char> {
    "Use dd, dd/mm, /mm, dd/mm/YYYY, or /mm/YYYY"@
}

/// What the due field's text names, before the date is checked: `Ok(None)`
/// for blank text; otherwise day, month and year, where a part left out
/// comes from today, and a lone number up to 12 is a month (on today's day)
/// while a larger one is a day (in today's month). The first piece that is
/// not a number gives the error for its part.
pub open spec fn due_parts(raw: Seq<char>, today: LocalDate) -> Result<
    Option<(u32, u32, i32)>,
    Seq<char>,
> {
    let t = trim(raw);
    let s = split_by(t, Sep::Char('/'));
    if t.len() == 0 {
        Ok(None)
    } else if s.len() == 1 {
        match parsed_u32(s[0]) {
            None => Err("Invalid day"@),
            Some(v) => if v <= 12 {
                Ok(Some((today.day, v, today.year)))
            } else {
                Ok(Some((v, today.month, today.year)))
            },
        }
    } else if s.len() == 2 {
        if s[0].len() == 0 {
            match parsed_u32(s[1]) {
                None => Err("Invalid month"@),
                Some(m) => Ok(Some((today.day, m, today.year))),
            }
        } else {
            match (parsed_u32(s[0]), parsed_u32(s[1])) {
                (None, _) => Err("Invalid day"@),
                (Some(_), None) => Err("Invalid month"@),
                (Some(d), Some(m)) => Ok(Some((d, m, today.year))),
            }
        }
    } else if s.len() == 3 {
        if s[0].len() == 0 {
            match (parsed_u32(s[1]), parsed_i32(s[2])) {
                (None, _) => Err("Invalid month"@),
                (Some(_), None) => Err("Invalid year"@),
                (Some(m), Some(y)) => Ok(Some((today.day, m, y))),
            }
        } else {
            match (parsed_u32(s[0]), parsed_u32(s[1]), parsed_i32(s[2])) {
                (None, _, _) => Err("Invalid day"@),
                (Some(_), None, _) => Err("Invalid month"@),
                (Some(_), Some(_), None) => Err("Invalid year"@),
                (Some(d), Some(m), Some(y)) => Ok(Some((d, m, y))),
            }
        }
    } else {
        Err(due_format_hint())
    }
}

/// Reads the due field's text into day, month and year (see `due_parts`).
pub fn resolve_due_parts(raw: &str, today: LocalDate) -> (res: Result<
    Option<(u32, u32, i32)>,
    String,
>)
    ensures
        match res {
            Ok(v) => due_parts(raw@, today) == Ok::<Option<(u32, u32, i32)>, Seq<char>>(v),
            Err(e) => due_parts(raw@, today) == Err::<Option<(u32, u32, i32)>, Seq<char>>(e@),
        },
{
    let t = trim_chars(&chars_of(raw));
    if t.len() == 0 {
        return Ok(None);
    }
    let s = split_chars(&t, Sep::Char('/'));
    let ghost sv = views(s@);
    proof {
        crate::text::lemma_split_by_nonempty(t@, Sep::Char('/'));
    }
    if s.len() == 1 {
        assert(sv[0] == s@[0]@);
        match parse_u32_chars(&s[0]) {
            None => Err("Invalid day".to_owned()),
            Some(v) => if v <= 12 {
                Ok(Some((today.day, v, today.year)))
            } else {
                Ok(Some((v, today.month, today.year)))
            },
        }
    } else if s.len() == 2 {
        assert(sv[0] == s@[0]@ && sv[1] == s@[1]@);
        if s[0].len() == 0 {
            match parse_u32_chars(&s[1]) {
                None => Err("Invalid month".to_owned()),
                Some(m) => Ok(Some((today.day, m, today.year))),
            }
        } else {
            let d = match parse_u32_chars(&s[0]) {
                None => return Err("Invalid day".to_owned()),
                Some(d) => d,
            };
            match parse_u32_chars(&s[1]) {
                None => Err("Invalid month".to_owned()),
                Some(m) => Ok(Some((d, m, today.year))),
            }
        }
    } else if s.len() == 3 {
        assert(sv[0] == s@[0]@ && sv[1] == s@[1]@ && sv[2] == s@[2]@);
        if s[0].len() == 0 {
            let m = match parse_u32_chars(&s[1]) {
                None => return Err("Invalid month".to_owned()),
                Some(m) => m,
            };
            match parse_i32_chars(&s[2]) {
                None => Err("Invalid year".to_owned()),
                Some(y) => Ok(Some((today.day, m, y))),
            }
        } else {
            let d = match parse_u32_chars(&s[0]) {
                None => return Err("Invalid day".to_owned()),
                Some(d) => d,
            };
            let m = match parse_u32_chars(&s[1]) {
                None => return Err("Invalid month".to_owned()),
                Some(m) => m,
            };
            match parse_i32_chars(&s[2]) {
                None => Err("Invalid year".to_owned()),
                Some(y) => Ok(Some((d, m, y))),
            }
        }
    } else {
        Err("Use dd, dd/mm, /mm, dd/mm/YYYY, or /mm/YYYY".to_owned())
    }
}

/// The arguments for `date` that check a date and print it `dd/mm/YYYY`:
/// `-d YYYY-MM-DD +%d/%m/%Y`.
pub open spec fn date_check_args(day: u32, month: u32, year: i32) -> Seq<Seq<char>> {
    seq!["-d"@, iso_date(year as int, month as nat, day as nat), "+%d/%m/%Y"@]
}

/// The `date` arguments that check the given date (see `date_check_args`).
pub fn date_check_command(day: u32, month: u32, year: i32) -> (args: Vec<String>)
    ensures
        string_views(args@) == date_check_args(day, month, year),
{
    let mut args: Vec<String> = Vec::new();
    args.push("-d".to_owned());
    args.push(string_from_chars(&iso_date_chars(year, month, day)));
    args.push("+%d/%m/%Y".to_owned());
    assert(string_views(args@) =~= date_check_args(day, month, year));
    args
}

/// The next step in reading the due field.
#[derive(Debug)]
pub enum DueCheck {
    /// The reading is done: no due date, or an error.
    Done(Result<Option<String>, String>),
    /// Ask `date` with these arguments whether the date exists (see
    /// `date_check_outcome`).
    AskDate(Vec<String>),
}

/// How to read the due field's text: blank text gives no due date, text of
/// no date shape gives its error, and a date is checked with `date`.
pub fn due_check(raw: &str, today: LocalDate) -> (plan: DueCheck)
    ensures
        match due_parts(raw@, today) {
            Ok(None) => plan matches DueCheck::Done(Ok(None)),
            Err(e) => plan matches DueCheck::Done(Err(m)) && m@ == e,
            Ok(Some((d, m, y))) => plan matches DueCheck::AskDate(args) && string_views(args@)
                == date_check_args(d, m, y),
        },
{
    match resolve_due_parts(raw, today) {
        Ok(None) => DueCheck::Done(Ok(None)),
        Err(e) => DueCheck::Done(Err(e)),
        Ok(Some((d, m, y))) => DueCheck::AskDate(date_check_command(d, m, y)),
    }
}

/// What the date check means: the date `date` printed (trimmed) when it
/// succeeded; "That date does not exist" when it failed; and when it could
/// not be started, "Unable to validate date: " and the reason.
pub open spec fn date_check_result(run: Result<(bool, Seq<char>), Seq<char>>) -> Result<
    Option<Seq<char>>,
    Seq<char>,
> {
    match run {
        Err(reason) => Err("Unable to validate date: "@ + reason),
        Ok((success, stdout)) => if success {
            Ok(Some(trim(stdout)))
        } else {
            Err("That date does not exist"@)
        },
    }
}

/// The plain view of an attempt to run a program.
pub open spec fn run_view(run: Result<RunOutput, String>) -> Result<(bool, Seq<char>), Seq<char>> {
    match run {
        Ok(out) => Ok((out.success, out.stdout@)),
        Err(reason) => Err(reason@),
    }
}

/// Reads the answer to a date check (see `date_check_result`).
pub fn date_check_outcome(run: Result<RunOutput, String>) -> (res: Result<Option<String>, String>)
    ensures
        match (res, date_check_result(run_view(run))) {
            (Ok(None), Ok(None)) => true,
            (Ok(Some(d)), Ok(Some(e))) => d@ == e,
            (Err(a), Err(b)) => a@ == b,
            _ => false,
        },
{
    match run {
        Err(reason) => {
            let mut msg = chars_of("Unable to validate date: ");
            append_chars(&mut msg, &chars_of(reason.as_str()));
            Err(string_from_chars(&msg))
        },
        Ok(out) => {
            if out.success {
                Ok(Some(string_from_chars(&trim_chars(&chars_of(out.stdout.as_str())))))
            } else {
                Err("That date does not exist".to_owned())
            }
        },
    }
}

/// `n` as `{}` writes it.
pub open spec fn signed_text(n: int) -> Seq<char> {
    padded_signed(n, 1)
}

/// The arguments for `date` that print, `dd/mm/YYYY`, the date `delta`
/// days after the given display date (`-d "YYYY-MM-DD +n day"`, or
/// `"YYYY-MM-DD -n day"` for a negative `delta`); `None` when the text
/// holds no date.
pub open spec fn shift_args(display: Seq<char>, delta: i32) -> Option<Seq<Seq<char>>> {
    match display_date(display) {
        None => None,
        Some(d) => {
            let input = iso_date(d.year as int, d.month as nat, d.day as nat);
            let relative = if delta >= 0 {
                input + " +"@ + signed_text(delta as int) + " day"@
            } else {
                input + " "@ + signed_text(delta as int) + " day"@
            };
            Some(seq!["-d"@, relative, "+%d/%m/%Y"@])
        },
    }
}

/// The `date` arguments that move a display date by `delta_days` days
/// (see `shift_args`).
pub fn shift_command(display: &str, delta_days: i32) -> (res: Option<Vec<String>>)
    ensures
        match shift_args(display@, delta_days) {
            Some(a) => res is Some && string_views(res->0@) == a,
            None => res is None,
        },
{
    let state = match parse_display_date(display) {
        Some(s) => s,
        None => return None,
    };
    let mut relative = iso_date_chars(state.year, state.month, state.day);
    if delta_days >= 0 {
        append_chars(&mut relative, &chars_of(" +"));
    } else {
        append_chars(&mut relative, &chars_of(" "));
    }
    append_chars(&mut relative, &padded_signed_chars(delta_days, 1));
    append_chars(&mut relative, &chars_of(" day"));
    let mut args: Vec<String> = Vec::new();
    args.push("-d".to_owned());
    args.push(string_from_chars(&relative));
    args.push("+%d/%m/%Y".to_owned());
    assert(string_views(args@) =~= shift_args(display@, delta_days)->0);
    Some(args)
}

/// What `date` printed (trimmed) when it ran and succeeded; `None` otherwise.
pub fn shift_outcome(run: Result<RunOutput, String>) -> (res: Option<String>)
    ensures
        match run_view(run) {
            Ok((true, out)) => res is Some && res->0@ == trim(out),
            _ => res is None,
        },
{
    match run {
        Ok(out) => if out.success {
            Some(string_from_chars(&trim_chars(&chars_of(out.stdout.as_str()))))
        } else {
            None
        },
        Err(_) => None,
    }
}

/// The arguments for `date` that print the weekday (1 = Monday) of the
/// first day of a month: `-d YYYY-MM-01 +%u`.
pub open spec fn weekday_args(month: u32, year: i32) -> Seq<Seq<char>> {
    seq!["-d"@, padded_signed(year as int, 4) + seq!['-'] + padded(month as nat, 2) + "-01"@, "+%u"@]
}

/// The arguments for `date` that print the last day of a month:
/// `-d "YYYY-MM-01 +1 month -1 day" +%d`.
pub open spec fn last_day_args(month: u32, year: i32) -> Seq<Seq<char>> {
    seq![
        "-d"@,
        padded_signed(year as int, 4) + seq!['-'] + padded(month as nat, 2)
            + "-01 +1 month -1 day"@,
        "+%d"@,
    ]
}

fn year_month_prefix(month: u32, year: i32) -> (res: Vec<char>)
    ensures
        res@ == padded_signed(year as int, 4) + seq!['-'] + padded(month as nat, 2),
{
    let mut res = padded_signed_chars(year, 4);
    res.push('-');
    append_chars(&mut res, &padded_chars(month, 2));
    res
}

/// The `date` arguments for the weekday a month starts on.
pub fn weekday_command(month: u32, year: i32) -> (args: Vec<String>)
    ensures
        string_views(args@) == weekday_args(month, year),
{
    let mut input = year_month_prefix(month, year);
    append_chars(&mut input, &chars_of("-01"));
    let mut args: Vec<String> = Vec::new();
    args.push("-d".to_owned());
    args.push(string_from_chars(&input));
    args.push("+%u".to_owned());
    assert(string_views(args@) =~= weekday_args(month, year));
    args
}

/// The `date` arguments for the last day of a month.
pub fn last_day_command(month: u32, year: i32) -> (args: Vec<String>)
    ensures
        string_views(args@) == last_day_args(month, year),
{
    let mut input = year_month_prefix(month, year);
    append_chars(&mut input, &chars_of("-01 +1 month -1 day"));
    let mut args: Vec<String> = Vec::new();
    args.push("-d".to_owned());
    args.push(string_from_chars(&input));
    args.push("+%d".to_owned());
    assert(string_views(args@) =~= last_day_args(month, year));
    args
}

/// The number `date` printed, when it ran, succeeded and printed one.
pub fn number_outcome(run: Result<RunOutput, String>) -> (res: Option<u32>)
    ensures
        res == match run_view(run) {
            Ok((true, out)) => parsed_u32(trim(out)),
            _ => None,
        },
{
    match run {
        Ok(out) => if out.success {
            parse_u32_chars(&trim_chars(&chars_of(out.stdout.as_str())))
        } else {
            None
        },
        Err(_) => None,
    }
}

/// The arguments for `date` that print today as `dd mm YYYY`.
pub open spec fn today_args() -> Seq<Seq<char>> {
    seq!["+%d %m %Y"@]
}

/// The `date` arguments that print today's date.
pub fn today_command() -> (args: Vec<String>)
    ensures
        string_views(args@) == today_args(),
{
    let mut args: Vec<String> = Vec::new();
    args.push("+%d %m %Y".to_owned());
    assert(string_views(args@) =~= today_args());
    args
}

/// The date used when today's date cannot be read: 1 January 1970.
pub open spec fn fallback_date() -> LocalDate {
    LocalDate { day: 1, month: 1, year: 1970 }
}

/// Today's date from what `date +"%d %m %Y"` printed (`None` when it could
/// not be started): its first three words as day, month and year, or
/// 1 January 1970 when they are not all numbers.
pub open spec fn local_date_of(stdout: Option<Seq<char>>) -> LocalDate {
    match stdout {
        None => fallback_date(),
        Some(out) => {
            let w = words(out);
            if w.len() >= 3 && parsed_u32(w[0]) is Some && parsed_u32(w[1]) is Some && parsed_i32(
                w[2],
            ) is Some {
                LocalDate {
                    day: parsed_u32(w[0])->0,
                    month: parsed_u32(w[1])->0,
                    year: parsed_i32(w[2])->0,
                }
            } else {
                fallback_date()
            }
        },
    }
}

/// Reads today's date from the output of `date` (see `local_date_of`).
pub fn local_date_from_output(stdout: Option<String>) -> (res: LocalDate)
    ensures
        res == local_date_of(
            match stdout {
                Some(s) => Some(s@),
                None => None,
            },
        ),
{
    let out = match stdout {
        Some(s) => s,
        None => return LocalDate { day: 1, month: 1, year: 1970 },
    };
    let w = words_chars(&chars_of(out.as_str()));
    if w.len() < 3 {
        return LocalDate { day: 1, month: 1, year: 1970 };
    }
    assert(views(w@)[0] == w@[0]@ && views(w@)[1] == w@[1]@ && views(w@)[2] == w@[2]@);
    let day = parse_u32_chars(&w[0]);
    let month = parse_u32_chars(&w[1]);
    let year = parse_i32_chars(&w[2]);
    match (day, month, year) {
        (Some(day), Some(month), Some(year)) => LocalDate { day, month, year },
        _ => LocalDate { day: 1, month: 1, year: 1970 },
    }
}

/// The English name of a month (1 = January), or "Month" for any other
/// number.
pub fn month_name(month: u32) -> (name: &'static str)
    ensures
        name@ == if month == 1 {
            "January"@
        } else if month == 2 {
            "February"@
        } else if month == 3 {
            "March"@
        } else if month == 4 {
            "April"@
        } else if month == 5 {
            "May"@
        } else if month == 6 {
            "June"@
        } else if month == 7 {
            "July"@
        } else if month == 8 {
            "August"@
        } else if month == 9 {
            "September"@
        } else if month == 10 {
            "October"@
        } else if month == 11 {
            "November"@
        } else if month == 12 {
            "December"@
        } else {
            "Month"@
        },
{
    match month {
        1 => "January",
        2 => "February",
        3 => "March",
        4 => "April",
        5 => "May",
        6 => "June",
        7 => "July",
        8 => "August",
        9 => "September",
        10 => "October",
        11 => "November",
        12 => "December",
        _ => "Month",
    }
}

/// One square of the month calendar: a blank before the first day, or a day.
#[derive(Clone, Debug)]
pub struct CalendarCell {
    /// The day number, or empty for a blank.
    pub label: String,
    /// The day's `dd/mm/YYYY` date, or `None` for a blank.
    pub display: Option<String>,
    /// The day is the selected date.
    pub is_selected: bool,
    /// The day is today.
    pub is_today: bool,
}

/// The number of blanks before the first day, for a month starting on
/// `first_weekday` (1 = Monday).
pub open spec fn leading_blanks(first_weekday: u32) -> int {
    if first_weekday >= 1 {
        first_weekday - 1
    } else {
        0
    }
}

/// `cell` is the square of day `day` in the calendar of `calendar`'s month.
pub open spec fn is_day_cell(cell: CalendarCell, day: int, calendar: CalendarState, today: LocalDate) -> bool {
    &&& cell.label@ == crate::num::decimal(day as nat)
    &&& cell.display matches Some(d) && d@ == display_of(
        day as nat,
        calendar.month as nat,
        calendar.year as int,
    )
    &&& cell.is_selected == (day == calendar.day)
    &&& cell.is_today == (day == today.day && calendar.month == today.month && calendar.year
        == today.year)
}

/// `cell` is a blank square.
pub open spec fn is_blank_cell(cell: CalendarCell) -> bool {
    &&& cell.label@.len() == 0
    &&& cell.display is None
    &&& !cell.is_selected
    &&& !cell.is_today
}

/// The squares of the calendar for `calendar`'s month, Monday first: blanks
/// up to the weekday the month starts on, then one square per day up to its
/// last day. Where `date` gave no answer the month starts on a Monday
/// (`first_weekday` is `None`) and has 30 days (`last_day` is `None`).
pub fn month_grid(
    calendar: CalendarState,
    today: LocalDate,
    first_weekday: Option<u32>,
    last_day: Option<u32>,
) -> (cells: Vec<CalendarCell>)
    ensures
        ({
            let first = match first_weekday {
                Some(f) => f,
                None => 1u32,
            };
            let last = match last_day {
                Some(l) => l,
                None => 30u32,
            };
            let blanks = leading_blanks(first);
            &&& cells.len() == blanks + last
            &&& forall|i: int| 0 <= i < blanks ==> is_blank_cell(#[trigger] cells@[i])
            &&& forall|i: int|
                blanks <= i < blanks + last ==> is_day_cell(
                    #[trigger] cells@[i],
                    i - blanks + 1,
                    calendar,
                    today,
                )
        }),
{
    let first: u32 = match first_weekday {
        Some(f) => f,
        None => 1,
    };
    let last: u32 = match last_day {
        Some(l) => l,
        None => 30,
    };
    let ghost blanks = leading_blanks(first);
    let mut cells: Vec<CalendarCell> = Vec::new();
    let mut k: u32 = 1;
    while k < first
        invariant
            1 <= k,
            k <= first || k == 1,
            blanks == leading_blanks(first),
            cells.len() == k - 1,
            forall|i: int| 0 <= i < cells.len() ==> is_blank_cell(#[trigger] cells@[i]),
        decreases first - k,
    {
        cells.push(CalendarCell { label: String::new(), display: None, is_selected: false, is_today: false });
        k = k + 1;
    }
    assert(cells.len() == blanks);
    let mut d: u64 = 1;
    while d <= last as u64
        invariant
            1 <= d <= last as u64 + 1,
            cells.len() == blanks + d - 1,
            blanks == leading_blanks(first),
            forall|i: int| 0 <= i < blanks ==> is_blank_cell(#[trigger] cells@[i]),
            forall|i: int|
                blanks <= i < blanks + d - 1 ==> is_day_cell(
                    #[trigger] cells@[i],
                    i - blanks + 1,
                    calendar,
                    today,
                ),
        decreases last as u64 + 1 - d,
    {
        let day = d as u32;
        let label = string_from_chars(&crate::num::decimal_chars(day));
        let display = string_from_chars(&display_chars(day, calendar.month, calendar.year));
        let cell = CalendarCell {
            label,
            display: Some(display),
            is_selected: day == calendar.day,
            is_today: day == today.day && calendar.month == today.month && calendar.year == today.year,
        };
        cells.push(cell);
        d = d + 1;
    }
    cells
}

proof fn lemma_no_slash_digits(s: Seq<char>)
    requires
        forall|i: int| 0 <= i < s.len() ==> crate::num::is_digit(#[trigger] s[i]) || s[i] == '-',
    ensures
        split_by(s, Sep::Char('/')) == seq![s],
{
    assert forall|i: int| 0 <= i < s.len() implies !crate::text::is_sep(
        Sep::Char('/'),
        #[trigger] s[i],
    ) by {
        assert(crate::num::is_digit(s[i]) || s[i] == '-');
    }
    crate::text::lemma_split_no_sep(s, Sep::Char('/'));
}

/// A date written `dd/mm/YYYY` is its three parts joined by `/`, with
/// nothing for `str::trim` to take away at either end.
proof fn lemma_display_pieces(day: u32, month: u32, year: i32)
    ensures
        split_by(display_of(day as nat, month as nat, year as int), Sep::Char('/')) == seq![
            padded(day as nat, 2),
            padded(month as nat, 2),
            padded_signed(year as int, 4),
        ],
        trim(display_of(day as nat, month as nat, year as int)) == display_of(
            day as nat,
            month as nat,
            year as int,
        ),
        padded(day as nat, 2).len() > 0,
{
    let a = padded(day as nat, 2);
    let b = padded(month as nat, 2);
    let c = padded_signed(year as int, 4);
    let s = display_of(day as nat, month as nat, year as int);
    crate::num::lemma_padded_digits(day as nat, 2);
    crate::num::lemma_padded_digits(month as nat, 2);
    crate::num::lemma_padded_signed_digits(year as int, 4);
    lemma_no_slash_digits(a);
    lemma_no_slash_digits(b);
    lemma_no_slash_digits(c);
    crate::text::lemma_split_concat(a, b, Sep::Char('/'), '/');
    crate::text::lemma_split_concat(a + seq!['/'] + b, c, Sep::Char('/'), '/');
    assert(s == (a + seq!['/'] + b) + seq!['/'] + c);
    assert(split_by(s, Sep::Char('/')) =~= seq![a, b, c]);
    assert(c.len() > 0) by {
        if year < 0 {
        } else {
            crate::num::lemma_padded_digits(year as nat, 4);
        }
    }
    assert(s[0] == a[0]);
    assert(crate::num::is_digit(a[0]));
    assert(s.last() == c[c.len() - 1]);
    assert(crate::num::is_digit(c[c.len() - 1]) || c[c.len() - 1] == '-');
    assert(trim_start(s) == s);
    assert(trim_end(s) == s);
}

/// A date written `dd/mm/YYYY` reads back as the same date.
pub proof fn law_display_round_trip(day: u32, month: u32, year: i32)
    ensures
        display_date(display_of(day as nat, month as nat, year as int)) == Some(
            CalendarState { day, month, year },
        ),
{
    lemma_display_pieces(day, month, year);
    crate::num::law_padded_reads_back(day, 2);
    crate::num::law_padded_reads_back(month, 2);
    crate::num::law_padded_signed_reads_back(year, 4);
}

/// A date written `dd/mm/YYYY`, typed into the due field, names that same
/// day, month and year, whatever day today is.
pub proof fn law_display_reads_as_due(day: u32, month: u32, year: i32, today: LocalDate)
    ensures
        due_parts(display_of(day as nat, month as nat, year as int), today) == Ok::<
            Option<(u32, u32, i32)>,
            Seq<char>,
        >(Some((day, month, year))),
{
    lemma_display_pieces(day, month, year);
    crate::num::law_padded_reads_back(day, 2);
    crate::num::law_padded_reads_back(month, 2);
    crate::num::law_padded_signed_reads_back(year, 4);
}

/// Each day square of the calendar names that day of the calendar's own
/// month and year, whatever day today is: its date reads back as that
/// day, month and year, its label reads back as the day, and it is marked
/// today exactly when that date is today.
pub proof fn law_day_cell_names_its_date(
    cell: CalendarCell,
    day: u32,
    calendar: CalendarState,
    today: LocalDate,
)
    requires
        is_day_cell(cell, day as int, calendar, today),
    ensures
        cell.display matches Some(d) && display_date(d@) == Some(
            CalendarState { day, month: calendar.month, year: calendar.year },
        ),
        parsed_u32(cell.label@) == Some(day),
        cell.is_today <==> (day == today.day && calendar.month == today.month && calendar.year
            == today.year),
{
    law_display_round_trip(day, calendar.month, calendar.year);
    crate::num::law_padded_reads_back(day, 0);
    assert(padded(day as nat, 0) =~= crate::num::decimal(day as nat));
}

} // verus!
