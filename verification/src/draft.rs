//! The task being captured: its metadata fields as typed, and what the due
//! field shows and does with the arrow keys.
use vstd::prelude::*;

use crate::command::string_views;
use crate::due::{display_of, shift_args, shift_command, today_display, LocalDate};
use crate::text::{is_blank, trim};

verus! {

/// The metadata typed so far.
#[derive(Clone, Debug)]
pub struct MetadataDraft {
    /// The project field, as typed.
    pub project_input: String,
    /// The due field, as typed.
    pub due_input: String,
    /// The due date the field resolved to, `dd/mm/YYYY`.
    pub due_normalized: Option<String>,
    /// Whether `due_normalized` is today's date put there by default while
    /// the field itself is still empty.
    pub due_implicit_default: bool,
    /// `H`, `M` or `L`.
    pub priority: Option<char>,
    /// The tags field, as typed.
    pub tags_input: String,
}

impl Default for MetadataDraft {
    fn default() -> (res: Self)
        ensures
            res.project_input@ == Seq::<char>::empty(),
            res.due_input@ == Seq::<char>::empty(),
            res.due_normalized is None,
            !res.due_implicit_default,
            res.priority is None,
            res.tags_input@ == Seq::<char>::empty(),
    {
        MetadataDraft {
            project_input: String::new(),
            due_input: String::new(),
            due_normalized: None,
            due_implicit_default: false,
            priority: None,
            tags_input: String::new(),
        }
    }
}

/// The view of an optional string.
pub open spec fn opt_view(s: Option<String>) -> Option<Seq<char>> {
    match s {
        Some(v) => Some(v@),
        None => None,
    }
}

/// The line shown under the due field.
pub open spec fn due_preview(due_input: Seq<char>, implicit: bool, resolved: bool) -> Seq<char> {
    if trim(due_input).len() == 0 && implicit {
        "Defaulting to today. Type dd, dd/mm, /mm, dd/mm/YYYY, or /mm/YYYY."@
    } else if trim(due_input).len() == 0 {
        "Optional. Type dd, dd/mm, /mm, dd/mm/YYYY, or /mm/YYYY."@
    } else if resolved {
        "Resolved date"@
    } else {
        "Complete the date to continue"@
    }
}

/// The line shown under the due field (see `due_preview`).
pub fn due_preview_text(draft: &MetadataDraft) -> (text: &'static str)
    ensures
        text@ == due_preview(
            draft.due_input@,
            draft.due_implicit_default,
            draft.due_normalized is Some,
        ),
{
    let blank = is_blank(draft.due_input.as_str());
    if blank && draft.due_implicit_default {
        "Defaulting to today. Type dd, dd/mm, /mm, dd/mm/YYYY, or /mm/YYYY."
    } else if blank {
        "Optional. Type dd, dd/mm, /mm, dd/mm/YYYY, or /mm/YYYY."
    } else if draft.due_normalized.is_some() {
        "Resolved date"
    } else {
        "Complete the date to continue"
    }
}

/// What an arrow key in the due field leads to.
#[derive(Clone, Debug)]
pub enum DueArrowPlan {
    /// Take this date (today, committing the implicit default).
    Ready(String),
    /// Ask `date` with these arguments for the shifted date.
    Shift(Vec<String>),
    /// Nothing to move: the current date cannot be read.
    Unavailable,
}

/// The date an arrow key moves from: the resolved due date, or today.
pub open spec fn arrow_base(draft: MetadataDraft, today: LocalDate) -> Seq<char> {
    match draft.due_normalized {
        Some(d) => d@,
        None => display_of(today.day as nat, today.month as nat, today.year as int),
    }
}

/// What an arrow key moving the due date by `delta_days` does: while the
/// field is blank and today is the implicit default, the first key commits
/// today; otherwise it asks for the date `delta_days` away from the
/// resolved date (or from today when none is resolved).
pub fn due_arrow_plan(draft: &MetadataDraft, today: LocalDate, delta_days: i32) -> (plan:
    DueArrowPlan)
    ensures
        trim(draft.due_input@).len() == 0 && draft.due_implicit_default ==> plan is Ready
            && plan->Ready_0@ == display_of(
            today.day as nat,
            today.month as nat,
            today.year as int,
        ),
        !(trim(draft.due_input@).len() == 0 && draft.due_implicit_default) ==> match shift_args(
            arrow_base(*draft, today),
            delta_days,
        ) {
            Some(a) => plan is Shift && string_views(plan->Shift_0@) == a,
            None => plan is Unavailable,
        },
{
    if is_blank(draft.due_input.as_str()) && draft.due_implicit_default {
        DueArrowPlan::Ready(today_display(today))
    } else {
        let current = match &draft.due_normalized {
            Some(d) => d.clone(),
            None => today_display(today),
        };
        match shift_command(current.as_str(), delta_days) {
            Some(args) => DueArrowPlan::Shift(args),
            None => DueArrowPlan::Unavailable,
        }
    }
}

} // verus!
