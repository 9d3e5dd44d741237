//! The capture form as a state machine: what it holds, and what each key,
//! input, click and answer from outside does to it. Work that needs the
//! outside world (reading the due date with `date`, adding the task with
//! `task`, closing the window) comes back as an `Effect` for the caller to
//! carry out; its result comes back in through the matching method.
use vstd::prelude::*;

use crate::capture::{advanced, retreated, CaptureState, DetailStep};
use crate::command::{string_views, CommandLine};
use crate::config::LentilConfig;
use crate::draft::{opt_view, MetadataDraft};
use crate::due::{display_of, today_display, LocalDate};
use crate::suggest::{
    applied, apply_selected_suggestion, merge_tag_input, merged_tags, next_priority,
    previous_priority, selected_of, selected_suggestion, SuggestionKind,
};
use crate::task::{build_task_command, task_add_args};
use crate::text::{chars_eq, chars_of, is_blank, trim};

verus! {

/// A key as the form tells keys apart.
#[derive(Clone, Debug)]
pub enum KeyName {
    /// A printable key, with the text it types.
    Character(String),
    Tab,
    Escape,
    Enter,
    ArrowLeft,
    ArrowRight,
    ArrowUp,
    ArrowDown,
    /// Any other key.
    Other,
}

/// A key press: the key and whether Ctrl was held.
#[derive(Clone, Debug)]
pub struct KeyPress {
    pub key: KeyName,
    pub ctrl: bool,
}

/// `Ctrl+D`, the key that moves the form forward and submits it.
pub open spec fn is_eoi(k: KeyPress) -> bool {
    &&& k.ctrl
    &&& k.key matches KeyName::Character(s) && s@ == "d"@
}

/// Whether the key press is `Ctrl+D`.
pub fn is_eoi_signal(event: &KeyPress) -> (res: bool)
    ensures
        res == is_eoi(*event),
{
    match &event.key {
        KeyName::Character(s) => chars_eq(&chars_of(s.as_str()), &chars_of("d")) && event.ctrl,
        _ => false,
    }
}

/// What the caller is to do after a step of the form.
#[derive(Clone, Debug)]
pub enum Effect {
    /// Nothing.
    Nothing,
    /// Close the capture window.
    CloseWindow,
    /// Read this due text (see `due::resolve_due_parts`, checking the date
    /// with `date`), then hand the result to `due_checked`.
    CheckDue(String),
    /// Move the due date by this many days (see `draft::due_arrow_plan`),
    /// then hand the new date to `set_due_input`.
    MoveDue(i32),
    /// Run this command to add the task, then hand the answer (see
    /// `task::task_outcome`) to `task_finished`.
    RunTask(CommandLine),
}

/// The lists suggestions are drawn from.
#[derive(Clone, Debug)]
pub struct SuggestionCache {
    pub projects: Vec<String>,
    pub tags: Vec<String>,
}

/// The capture form.
#[derive(Clone, Debug)]
pub struct CaptureSession {
    /// Which field is being edited.
    pub step: CaptureState,
    /// The task's title.
    pub title: String,
    /// The metadata typed so far.
    pub draft: MetadataDraft,
    /// The highlighted project suggestion.
    pub project_selection: usize,
    /// The highlighted tag suggestion.
    pub tag_selection: usize,
    /// The message shown at the bottom (none when empty).
    pub toast_msg: String,
    /// Whether the message is an error.
    pub toast_is_error: bool,
}

/// The metadata, as plain values.
pub struct DraftView {
    pub project: Seq<char>,
    pub due_input: Seq<char>,
    pub due: Option<Seq<char>>,
    pub implicit: bool,
    pub priority: Option<char>,
    pub tags: Seq<char>,
}

/// The form, as plain values.
pub struct SessionView {
    pub step: CaptureState,
    pub title: Seq<char>,
    pub draft: DraftView,
    pub project_sel: int,
    pub tag_sel: int,
    pub toast: Seq<char>,
    pub toast_error: bool,
}

/// The plain values of the metadata.
pub open spec fn draft_view(d: MetadataDraft) -> DraftView {
    DraftView {
        project: d.project_input@,
        due_input: d.due_input@,
        due: opt_view(d.due_normalized),
        implicit: d.due_implicit_default,
        priority: d.priority,
        tags: d.tags_input@,
    }
}

impl View for CaptureSession {
    type V = SessionView;

    open spec fn view(&self) -> SessionView {
        SessionView {
            step: self.step,
            title: self.title@,
            draft: draft_view(self.draft),
            project_sel: self.project_selection as int,
            tag_sel: self.tag_selection as int,
            toast: self.toast_msg@,
            toast_error: self.toast_is_error,
        }
    }
}

/// What an effect asks for, as plain values.
pub enum EffectView {
    Nothing,
    CloseWindow,
    CheckDue(Seq<char>),
    MoveDue(i32),
    RunTask(Seq<char>, Seq<Seq<char>>),
}

/// The plain values of an effect.
pub open spec fn effect_view(e: Effect) -> EffectView {
    match e {
        Effect::Nothing => EffectView::Nothing,
        Effect::CloseWindow => EffectView::CloseWindow,
        Effect::CheckDue(s) => EffectView::CheckDue(s@),
        Effect::MoveDue(d) => EffectView::MoveDue(d),
        Effect::RunTask(c) => EffectView::RunTask(c.program@, string_views(c.args@)),
    }
}

/// The empty metadata.
pub open spec fn empty_draft() -> DraftView {
    DraftView {
        project: Seq::empty(),
        due_input: Seq::empty(),
        due: None,
        implicit: false,
        priority: None,
        tags: Seq::empty(),
    }
}

/// The form as it opens, and as it is cleared: the title step, everything
/// empty, no message.
pub open spec fn initial_view() -> SessionView {
    SessionView {
        step: CaptureState::Title,
        title: Seq::empty(),
        draft: empty_draft(),
        project_sel: 0,
        tag_sel: 0,
        toast: Seq::empty(),
        toast_error: false,
    }
}

/// `v` showing an error message.
pub open spec fn with_error(v: SessionView, msg: Seq<char>) -> SessionView {
    SessionView { toast: msg, toast_error: true, ..v }
}

/// `v` showing a message that is no error.
pub open spec fn with_message(v: SessionView, msg: Seq<char>) -> SessionView {
    SessionView { toast: msg, toast_error: false, ..v }
}

/// `v` without a message.
pub open spec fn without_toast(v: SessionView) -> SessionView {
    with_message(v, Seq::empty())
}

/// `v` at another step.
pub open spec fn at_step(v: SessionView, s: CaptureState) -> SessionView {
    SessionView { step: s, ..v }
}

/// `v` with other metadata.
pub open spec fn with_draft(v: SessionView, d: DraftView) -> SessionView {
    SessionView { draft: d, ..v }
}

/// The message for a blank title.
pub open spec fn empty_title_message() -> Seq<char> {
    "Task name cannot be empty"@
}

/// The message for a due date without a priority.
pub open spec fn priority_required_message() -> Seq<char> {
    "Priority is required when a due date is set"@
}

/// A due date is set but no priority, and the settings require one.
pub open spec fn missing_priority(v: SessionView, config: LentilConfig) -> bool {
    config.require_priority_with_due && v.draft.due is Some && v.draft.priority is None
}

/// Today, `dd/mm/YYYY`.
pub open spec fn today_text(today: LocalDate) -> Seq<char> {
    display_of(today.day as nat, today.month as nat, today.year as int)
}

/// Submitting the form (`Ctrl+D` on the tags step): a blank title sends the
/// form back to the title with an error; a due date without a required
/// priority sends it to the priority step with an error; otherwise the task
/// is added with `task add …`.
pub open spec fn submitted(v: SessionView, config: LentilConfig, draft: MetadataDraft, title: Seq<char>) -> (
    SessionView,
    EffectView,
) {
    if trim(v.title).len() == 0 {
        (at_step(with_error(v, empty_title_message()), CaptureState::Title), EffectView::Nothing)
    } else if missing_priority(v, config) {
        (
            at_step(
                with_error(v, priority_required_message()),
                CaptureState::Details(DetailStep::Priority),
            ),
            EffectView::Nothing,
        )
    } else {
        (v, EffectView::RunTask("task"@, task_add_args(title, draft)))
    }
}

/// Moving forward (`Ctrl+D`) from each step: the title needs a non-blank
/// title; leaving the project step accepts the highlighted suggestion and,
/// when no due date is typed or resolved, makes today the implicit due
/// date; leaving the due step keeps today as the due date while the field
/// is blank and today is the implicit default, and otherwise first has the
/// due text read; leaving the
/// priority step needs a priority when a due date is set and the settings
/// require one; the tags step submits.
pub open spec fn forwarded(
    v: SessionView,
    today: LocalDate,
    config: LentilConfig,
    projects: Seq<Seq<char>>,
    draft: MetadataDraft,
) -> (SessionView, EffectView) {
    match v.step {
        CaptureState::Title => if trim(v.title).len() == 0 {
            (with_error(v, empty_title_message()), EffectView::Nothing)
        } else {
            (
                at_step(without_toast(v), CaptureState::Details(DetailStep::Project)),
                EffectView::Nothing,
            )
        },
        CaptureState::Details(DetailStep::Project) => {
            let project = applied(
                selected_of(v.project_sel, projects),
                v.draft.project,
                SuggestionKind::Project,
            );
            let d = if trim(v.draft.due_input).len() == 0 && v.draft.due is None {
                DraftView {
                    project,
                    due_input: Seq::empty(),
                    due: Some(today_text(today)),
                    implicit: true,
                    ..v.draft
                }
            } else {
                DraftView { project, ..v.draft }
            };
            (at_step(with_draft(v, d), advanced(v.step)), EffectView::Nothing)
        },
        CaptureState::Details(DetailStep::Due) => if trim(v.draft.due_input).len() == 0
            && v.draft.implicit {
            (
                at_step(
                    with_draft(v, DraftView { due: Some(today_text(today)), ..v.draft }),
                    advanced(v.step),
                ),
                EffectView::Nothing,
            )
        } else {
            (v, EffectView::CheckDue(v.draft.due_input))
        },
        CaptureState::Details(DetailStep::Priority) => if missing_priority(v, config) {
            (with_error(v, priority_required_message()), EffectView::Nothing)
        } else {
            (at_step(v, advanced(v.step)), EffectView::Nothing)
        },
        CaptureState::Details(DetailStep::Tags) => submitted(v, config, draft, v.title),
    }
}

/// `Esc`: on the title step it clears a typed title (and the message), or
/// closes the window when the title is already empty; elsewhere it steps
/// back.
pub open spec fn escaped(v: SessionView) -> (SessionView, EffectView) {
    if v.step is Title {
        if v.title.len() == 0 {
            (v, EffectView::CloseWindow)
        } else {
            (without_toast(SessionView { title: Seq::empty(), ..v }), EffectView::Nothing)
        }
    } else {
        (at_step(v, retreated(v.step)), EffectView::Nothing)
    }
}

/// The highlight one place further along a list of `len` suggestions,
/// stopping at the last.
pub open spec fn highlight_next(sel: int, len: int) -> int {
    if sel + 1 < len - 1 {
        sel + 1
    } else {
        len - 1
    }
}

/// The highlight one place back, stopping at the first.
pub open spec fn highlight_prev(sel: int) -> int {
    if sel > 0 {
        sel - 1
    } else {
        0
    }
}

/// A key in the project field: the arrows move the highlight and copy the
/// highlighted suggestion into the field; Enter accepts it.
pub open spec fn project_key(v: SessionView, key: KeyName, projects: Seq<Seq<char>>) -> SessionView {
    match key {
        KeyName::ArrowRight | KeyName::ArrowDown => if projects.len() == 0 {
            v
        } else {
            let next = highlight_next(v.project_sel, projects.len() as int);
            let w = SessionView { project_sel: next, ..v };
            match selected_of(next, projects) {
                Some(s) => with_draft(w, DraftView { project: s, ..v.draft }),
                None => w,
            }
        },
        KeyName::ArrowLeft | KeyName::ArrowUp => {
            let next = highlight_prev(v.project_sel);
            let w = SessionView { project_sel: next, ..v };
            match selected_of(next, projects) {
                Some(s) => with_draft(w, DraftView { project: s, ..v.draft }),
                None => w,
            }
        },
        KeyName::Enter => with_draft(
            v,
            DraftView {
                project: applied(
                    selected_of(v.project_sel, projects),
                    v.draft.project,
                    SuggestionKind::Project,
                ),
                ..v.draft
            },
        ),
        _ => v,
    }
}

/// A key in the priority field: the arrows cycle through the priorities,
/// Enter picks `M` when none is set.
pub open spec fn priority_key(v: SessionView, key: KeyName) -> SessionView {
    let p = v.draft.priority;
    match key {
        KeyName::ArrowLeft | KeyName::ArrowUp => with_draft(
            v,
            DraftView {
                priority: Some(
                    match p {
                        Some('L') => 'M',
                        Some('M') => 'H',
                        _ => 'L',
                    },
                ),
                ..v.draft
            },
        ),
        KeyName::ArrowRight | KeyName::ArrowDown => with_draft(
            v,
            DraftView {
                priority: Some(
                    match p {
                        Some('H') => 'M',
                        Some('M') => 'L',
                        _ => 'H',
                    },
                ),
                ..v.draft
            },
        ),
        KeyName::Enter => if p is None {
            with_draft(v, DraftView { priority: Some('M'), ..v.draft })
        } else {
            v
        },
        _ => v,
    }
}

/// A key in the tags field: the arrows move the highlight; Enter merges
/// the highlighted suggestion into the field.
pub open spec fn tags_key(v: SessionView, key: KeyName, tags: Seq<Seq<char>>) -> SessionView {
    match key {
        KeyName::ArrowRight | KeyName::ArrowDown => if tags.len() == 0 {
            v
        } else {
            SessionView { tag_sel: highlight_next(v.tag_sel, tags.len() as int), ..v }
        },
        KeyName::ArrowLeft | KeyName::ArrowUp => SessionView {
            tag_sel: highlight_prev(v.tag_sel),
            ..v
        },
        KeyName::Enter => with_draft(
            v,
            DraftView {
                tags: applied(selected_of(v.tag_sel, tags), v.draft.tags, SuggestionKind::Tag),
                ..v.draft
            },
        ),
        _ => v,
    }
}

/// How many days an arrow key moves the due date: a day left or right, a
/// week up or down.
pub open spec fn due_delta(key: KeyName) -> Option<i32> {
    match key {
        KeyName::ArrowLeft => Some(-1i32),
        KeyName::ArrowRight => Some(1i32),
        KeyName::ArrowUp => Some(-7i32),
        KeyName::ArrowDown => Some(7i32),
        _ => None,
    }
}

/// A key press in the form, `field` being the step whose input field has
/// the focus (`None` when the key comes from elsewhere in the window, such
/// as a suggestion chip or a calendar day): `Ctrl+D` moves forward, `Esc`
/// back, `Tab` does nothing, and other keys go to the field being edited
/// when that field has the focus, and are ignored otherwise.
pub open spec fn key_pressed(
    v: SessionView,
    field: Option<CaptureState>,
    key: KeyPress,
    today: LocalDate,
    config: LentilConfig,
    projects: Seq<Seq<char>>,
    tags: Seq<Seq<char>>,
    draft: MetadataDraft,
) -> (SessionView, EffectView) {
    if is_eoi(key) {
        forwarded(v, today, config, projects, draft)
    } else {
        match key.key {
            KeyName::Escape => escaped(v),
            KeyName::Tab => (v, EffectView::Nothing),
            _ => if field != Some(v.step) {
                (v, EffectView::Nothing)
            } else {
                match v.step {
                CaptureState::Details(DetailStep::Project) => (
                    project_key(v, key.key, projects),
                    EffectView::Nothing,
                ),
                CaptureState::Details(DetailStep::Due) => match due_delta(key.key) {
                    Some(d) => (v, EffectView::MoveDue(d)),
                    None => (v, EffectView::Nothing),
                },
                CaptureState::Details(DetailStep::Priority) => (
                    priority_key(v, key.key),
                    EffectView::Nothing,
                ),
                CaptureState::Details(DetailStep::Tags) => (
                    tags_key(v, key.key, tags),
                    EffectView::Nothing,
                ),
                CaptureState::Title => (v, EffectView::Nothing),
                }
            },
        }
    }
}

/// The due field set to `value`, read as `checked`: blank text leaves the
/// field empty, with today as due date when today is the implicit default
/// and no due date otherwise, and no message; other text is kept, its date
/// (or none, when it cannot be read) becomes the due date, the implicit
/// default ends, and a reading error is shown.
pub open spec fn due_set(
    v: SessionView,
    value: Seq<char>,
    checked: Result<Option<Seq<char>>, Seq<char>>,
    today: LocalDate,
) -> SessionView {
    if trim(value).len() == 0 {
        without_toast(
            with_draft(
                v,
                DraftView {
                    due_input: Seq::empty(),
                    due: if v.draft.implicit {
                        Some(today_text(today))
                    } else {
                        None
                    },
                    ..v.draft
                },
            ),
        )
    } else {
        let w = with_draft(
            v,
            DraftView {
                due_input: value,
                due: match checked {
                    Ok(d) => d,
                    Err(_) => None,
                },
                implicit: false,
                ..v.draft
            },
        );
        match checked {
            Ok(_) => without_toast(w),
            Err(m) => with_error(w, m),
        }
    }
}

/// The plain view of a due reading.
pub open spec fn checked_view(r: Result<Option<String>, String>) -> Result<
    Option<Seq<char>>,
    Seq<char>,
> {
    match r {
        Ok(d) => Ok(opt_view(d)),
        Err(m) => Err(m@),
    }
}

/// The priority typed into the priority field: its first character in
/// ASCII upper case, when that is `H`, `M` or `L`.
pub open spec fn typed_priority(value: Seq<char>) -> Option<char> {
    if value.len() == 0 {
        None
    } else {
        let c = value[0];
        let u = if 97 <= c as u32 <= 122 {
            ((c as u32) - 32) as char
        } else {
            c
        };
        if u == 'H' || u == 'M' || u == 'L' {
            Some(u)
        } else {
            None
        }
    }
}

/// Whether the input field of `step` is the one with the focus.
fn has_focus(field: Option<CaptureState>, step: CaptureState) -> (res: bool)
    ensures
        res == (field == Some(step)),
{
    match field {
        Some(f) => f == step,
        None => false,
    }
}

fn clear_toast(s: &mut CaptureSession)
    ensures
        final(s)@ == without_toast(old(s)@),
{
    s.toast_msg = String::new();
    s.toast_is_error = false;
}

fn show_error(s: &mut CaptureSession, message: String)
    ensures
        final(s)@ == with_error(old(s)@, message@),
{
    s.toast_msg = message;
    s.toast_is_error = true;
}

impl CaptureSession {
    /// The form as it opens.
    pub fn new() -> (s: Self)
        ensures
            s@ == initial_view(),
    {
        CaptureSession {
            step: CaptureState::Title,
            title: String::new(),
            draft: MetadataDraft::default(),
            project_selection: 0,
            tag_selection: 0,
            toast_msg: String::new(),
            toast_is_error: false,
        }
    }

    /// The project suggestions for the form as it stands.
    pub fn project_suggestions(&self, cache: &SuggestionCache, config: &LentilConfig) -> (res:
        Vec<String>)
        ensures
            crate::suggest::is_top_ranked(
                string_views(res@),
                crate::suggest::candidates(
                    string_views(cache.projects@),
                    self.draft.project_input@,
                    self.title@,
                    false,
                ),
            ),
    {
        crate::suggest::ranked_suggestions(
            cache.projects.as_slice(),
            self.draft.project_input.as_str(),
            self.title.as_str(),
            SuggestionKind::Project,
            config,
            self.draft.due_normalized.is_none(),
        )
    }

    /// The tag suggestions for the form as it stands.
    pub fn tag_suggestions(&self, cache: &SuggestionCache, config: &LentilConfig) -> (res: Vec<
        String,
    >)
        ensures
            crate::suggest::is_top_ranked(
                string_views(res@),
                crate::suggest::candidates(
                    string_views(cache.tags@),
                    self.draft.tags_input@,
                    self.title@,
                    config.suggest_idea_without_due && self.draft.due_normalized is None,
                ),
            ),
    {
        crate::suggest::ranked_suggestions(
            cache.tags.as_slice(),
            self.draft.tags_input.as_str(),
            self.title.as_str(),
            SuggestionKind::Tag,
            config,
            self.draft.due_normalized.is_none(),
        )
    }

    /// Clears the form back to how it opens (the message stays).
    pub fn reset(&mut self)
        ensures
            final(self)@ == (SessionView {
                toast: old(self)@.toast,
                toast_error: old(self)@.toast_error,
                ..initial_view()
            }),
    {
        self.title = String::new();
        self.draft = MetadataDraft::default();
        self.project_selection = 0;
        self.tag_selection = 0;
        self.step = CaptureState::Title;
    }

    /// A field got focus: the form moves to that field's step.
    pub fn focus(&mut self, state: CaptureState)
        ensures
            final(self)@ == at_step(old(self)@, state),
    {
        self.step = state;
    }

    /// The title was edited.
    pub fn title_input(&mut self, value: String)
        ensures
            final(self)@ == (SessionView { title: value@, ..old(self)@ }),
    {
        self.title = value;
    }

    /// The project field was edited: the highlight goes back to the first
    /// suggestion.
    pub fn project_input(&mut self, value: String)
        ensures
            final(self)@ == with_draft(
                SessionView { project_sel: 0, ..old(self)@ },
                DraftView { project: value@, ..old(self)@.draft },
            ),
    {
        self.project_selection = 0;
        self.draft.project_input = value;
    }

    /// The tags field was edited: the highlight goes back to the first
    /// suggestion.
    pub fn tags_input(&mut self, value: String)
        ensures
            final(self)@ == with_draft(
                SessionView { tag_sel: 0, ..old(self)@ },
                DraftView { tags: value@, ..old(self)@.draft },
            ),
    {
        self.tag_selection = 0;
        self.draft.tags_input = value;
    }

    /// The priority field was edited (see `typed_priority`).
    pub fn priority_input(&mut self, value: &str)
        ensures
            final(self)@ == with_draft(
                old(self)@,
                DraftView { priority: typed_priority(value@), ..old(self)@.draft },
            ),
    {
        let chars = chars_of(value);
        let p = if chars.len() == 0 {
            None
        } else {
            let c = chars[0];
            let n = c as u32;
            let u = if 97 <= n && n <= 122 {
                ((n - 32) as u8) as char
            } else {
                c
            };
            if u == 'H' || u == 'M' || u == 'L' {
                Some(u)
            } else {
                None
            }
        };
        self.draft.priority = p;
    }

    /// A priority button was clicked.
    pub fn priority_chip(&mut self, option: char)
        ensures
            final(self)@ == with_draft(
                old(self)@,
                DraftView { priority: Some(option), ..old(self)@.draft },
            ),
    {
        self.draft.priority = Some(option);
    }

    /// A project suggestion was clicked: it is highlighted and copied into
    /// the field.
    pub fn project_chip(&mut self, index: usize, item: String)
        ensures
            final(self)@ == with_draft(
                SessionView { project_sel: index as int, ..old(self)@ },
                DraftView { project: item@, ..old(self)@.draft },
            ),
    {
        self.project_selection = index;
        self.draft.project_input = item;
    }

    /// A tag suggestion was clicked: it is highlighted and merged into the
    /// field.
    pub fn tag_chip(&mut self, index: usize, item: &str)
        ensures
            final(self)@ == with_draft(
                SessionView { tag_sel: index as int, ..old(self)@ },
                DraftView { tags: merged_tags(old(self)@.draft.tags, Some(item@)), ..old(self)@.draft },
            ),
    {
        self.tag_selection = index;
        let merged = merge_tag_input(self.draft.tags_input.as_str(), Some(item));
        self.draft.tags_input = merged;
    }

    /// The due field was set to `value` (typed, picked in the calendar, or
    /// moved with an arrow key), `checked` being what reading it gave (see
    /// `due_set`).
    pub fn set_due_input(
        &mut self,
        value: String,
        checked: Result<Option<String>, String>,
        today: LocalDate,
    )
        ensures
            final(self)@ == due_set(old(self)@, value@, checked_view(checked), today),
    {
        if is_blank(value.as_str()) {
            let fallback = today_display(today);
            self.draft.due_input = String::new();
            if self.draft.due_implicit_default {
                self.draft.due_normalized = Some(fallback);
            } else {
                self.draft.due_normalized = None;
            }
            clear_toast(self);
            return;
        }
        self.draft.due_input = value;
        self.draft.due_implicit_default = false;
        match checked {
            Ok(d) => {
                self.draft.due_normalized = d;
                clear_toast(self);
            },
            Err(m) => {
                self.draft.due_normalized = None;
                show_error(self, m);
            },
        }
    }

    /// The due text read for `Ctrl+D` on the due step: a date (or none)
    /// becomes the due date and the form moves on; an error is shown.
    pub fn due_checked(&mut self, checked: Result<Option<String>, String>)
        ensures
            final(self)@ == match checked_view(checked) {
                Ok(d) => at_step(
                    with_draft(old(self)@, DraftView { due: d, ..old(self)@.draft }),
                    advanced(old(self)@.step),
                ),
                Err(m) => with_error(old(self)@, m),
            },
    {
        match checked {
            Ok(d) => {
                self.draft.due_normalized = d;
                self.step = self.step.advance();
            },
            Err(m) => show_error(self, m),
        }
    }

    /// `Ctrl+D` (see `forwarded`).
    fn forward(
        &mut self,
        today: LocalDate,
        config: &LentilConfig,
        project_suggestions: &[String],
    ) -> (effect: Effect)
        ensures
            ({
                let (v, e) = forwarded(
                    old(self)@,
                    today,
                    *config,
                    string_views(project_suggestions@),
                    old(self).draft,
                );
                final(self)@ == v && effect_view(effect) == e
            }),
    {
        match self.step {
            CaptureState::Title => {
                if is_blank(self.title.as_str()) {
                    show_error(self, "Task name cannot be empty".to_owned());
                } else {
                    clear_toast(self);
                    self.step = self.step.enter_details();
                }
                Effect::Nothing
            },
            CaptureState::Details(DetailStep::Project) => {
                let updated = apply_selected_suggestion(
                    self.project_selection,
                    project_suggestions,
                    self.draft.project_input.as_str(),
                    SuggestionKind::Project,
                );
                let td = today_display(today);
                self.draft.project_input = updated;
                if is_blank(self.draft.due_input.as_str()) && self.draft.due_normalized.is_none() {
                    self.draft.due_input = String::new();
                    self.draft.due_normalized = Some(td);
                    self.draft.due_implicit_default = true;
                }
                self.step = self.step.advance();
                Effect::Nothing
            },
            CaptureState::Details(DetailStep::Due) => {
                if is_blank(self.draft.due_input.as_str()) && self.draft.due_implicit_default {
                    self.draft.due_normalized = Some(today_display(today));
                    self.step = self.step.advance();
                    Effect::Nothing
                } else {
                    Effect::CheckDue(self.draft.due_input.clone())
                }
            },
            CaptureState::Details(DetailStep::Priority) => {
                if config.require_priority_with_due && self.draft.due_normalized.is_some()
                    && self.draft.priority.is_none() {
                    show_error(self, "Priority is required when a due date is set".to_owned());
                } else {
                    self.step = self.step.advance();
                }
                Effect::Nothing
            },
            CaptureState::Details(DetailStep::Tags) => {
                if is_blank(self.title.as_str()) {
                    show_error(self, "Task name cannot be empty".to_owned());
                    self.step = CaptureState::Title;
                    Effect::Nothing
                } else if config.require_priority_with_due && self.draft.due_normalized.is_some()
                    && self.draft.priority.is_none() {
                    show_error(self, "Priority is required when a due date is set".to_owned());
                    self.step = CaptureState::Details(DetailStep::Priority);
                    Effect::Nothing
                } else {
                    Effect::RunTask(build_task_command(self.title.as_str(), &self.draft))
                }
            },
        }
    }

    /// `Esc` (see `escaped`).
    fn escape(&mut self) -> (effect: Effect)
        ensures
            ({
                let (v, e) = escaped(old(self)@);
                final(self)@ == v && effect_view(effect) == e
            }),
    {
        if self.step == CaptureState::Title {
            if self.title.as_str().is_empty() {
                Effect::CloseWindow
            } else {
                self.title = String::new();
                clear_toast(self);
                Effect::Nothing
            }
        } else {
            self.step = self.step.retreat();
            Effect::Nothing
        }
    }

    /// A key in the project field (see `project_key`).
    fn project_key_down(&mut self, key: &KeyName, project_suggestions: &[String])
        ensures
            final(self)@ == project_key(old(self)@, *key, string_views(project_suggestions@)),
    {
        match key {
            KeyName::ArrowRight | KeyName::ArrowDown => {
                if project_suggestions.len() > 0 {
                    let len = project_suggestions.len();
                    let sel = self.project_selection;
                    let next = if sel < len - 1 && sel + 1 < len - 1 {
                        sel + 1
                    } else {
                        len - 1
                    };
                    self.project_selection = next;
                    match selected_suggestion(next, project_suggestions) {
                        Some(s) => self.draft.project_input = s,
                        None => {},
                    }
                }
            },
            KeyName::ArrowLeft | KeyName::ArrowUp => {
                let next = if self.project_selection > 0 {
                    self.project_selection - 1
                } else {
                    0
                };
                self.project_selection = next;
                match selected_suggestion(next, project_suggestions) {
                    Some(s) => self.draft.project_input = s,
                    None => {},
                }
            },
            KeyName::Enter => {
                let updated = apply_selected_suggestion(
                    self.project_selection,
                    project_suggestions,
                    self.draft.project_input.as_str(),
                    SuggestionKind::Project,
                );
                self.draft.project_input = updated;
            },
            _ => {},
        }
    }

    /// A key in the priority field (see `priority_key`).
    fn priority_key_down(&mut self, key: &KeyName)
        ensures
            final(self)@ == priority_key(old(self)@, *key),
    {
        match key {
            KeyName::ArrowLeft | KeyName::ArrowUp => {
                let next = previous_priority(self.draft.priority);
                self.draft.priority = Some(next);
            },
            KeyName::ArrowRight | KeyName::ArrowDown => {
                let next = next_priority(self.draft.priority);
                self.draft.priority = Some(next);
            },
            KeyName::Enter => {
                if self.draft.priority.is_none() {
                    self.draft.priority = Some('M');
                }
            },
            _ => {},
        }
    }

    /// A key in the tags field (see `tags_key`).
    fn tags_key_down(&mut self, key: &KeyName, tag_suggestions: &[String])
        ensures
            final(self)@ == tags_key(old(self)@, *key, string_views(tag_suggestions@)),
    {
        match key {
            KeyName::ArrowRight | KeyName::ArrowDown => {
                if tag_suggestions.len() > 0 {
                    let len = tag_suggestions.len();
                    let sel = self.tag_selection;
                    self.tag_selection = if sel < len - 1 && sel + 1 < len - 1 {
                        sel + 1
                    } else {
                        len - 1
                    };
                }
            },
            KeyName::ArrowLeft | KeyName::ArrowUp => {
                self.tag_selection = if self.tag_selection > 0 {
                    self.tag_selection - 1
                } else {
                    0
                };
            },
            KeyName::Enter => {
                let merged = apply_selected_suggestion(
                    self.tag_selection,
                    tag_suggestions,
                    self.draft.tags_input.as_str(),
                    SuggestionKind::Tag,
                );
                self.draft.tags_input = merged;
            },
            _ => {},
        }
    }

    /// A key press in the form (see `key_pressed`): `field` is the step
    /// whose input field received it, `None` for the rest of the window; the
    /// suggestion lists are the ones on screen when the key was pressed.
    pub fn key_down(
        &mut self,
        field: Option<CaptureState>,
        event: &KeyPress,
        today: LocalDate,
        config: &LentilConfig,
        project_suggestions: &[String],
        tag_suggestions: &[String],
    ) -> (effect: Effect)
        ensures
            ({
                let (v, e) = key_pressed(
                    old(self)@,
                    field,
                    *event,
                    today,
                    *config,
                    string_views(project_suggestions@),
                    string_views(tag_suggestions@),
                    old(self).draft,
                );
                final(self)@ == v && effect_view(effect) == e
            }),
    {
        if is_eoi_signal(event) {
            return self.forward(today, config, project_suggestions);
        }
        match &event.key {
            KeyName::Escape => self.escape(),
            KeyName::Tab => Effect::Nothing,
            _ if !has_focus(field, self.step) => Effect::Nothing,
            key => match self.step {
                CaptureState::Details(DetailStep::Project) => {
                    self.project_key_down(key, project_suggestions);
                    Effect::Nothing
                },
                CaptureState::Details(DetailStep::Due) => match key {
                    KeyName::ArrowLeft => Effect::MoveDue(-1),
                    KeyName::ArrowRight => Effect::MoveDue(1),
                    KeyName::ArrowUp => Effect::MoveDue(-7),
                    KeyName::ArrowDown => Effect::MoveDue(7),
                    _ => Effect::Nothing,
                },
                CaptureState::Details(DetailStep::Priority) => {
                    self.priority_key_down(key);
                    Effect::Nothing
                },
                CaptureState::Details(DetailStep::Tags) => {
                    self.tags_key_down(key, tag_suggestions);
                    Effect::Nothing
                },
                CaptureState::Title => Effect::Nothing,
            },
        }
    }

    /// Taskwarrior answered the submission: its message is shown; on
    /// success the form is cleared when the settings keep the window open,
    /// and the window is closed otherwise.
    pub fn task_finished(&mut self, result: Result<String, String>, config: &LentilConfig) -> (effect:
        Effect)
        ensures
            match result {
                Ok(m) => if config.clear_and_stay_open {
                    final(self)@ == with_message(initial_view(), m@) && effect_view(effect)
                        == EffectView::Nothing
                } else {
                    final(self)@ == with_message(old(self)@, m@) && effect_view(effect)
                        == EffectView::CloseWindow
                },
                Err(m) => final(self)@ == with_error(old(self)@, m@) && effect_view(effect)
                    == EffectView::Nothing,
            },
    {
        match result {
            Ok(message) => {
                self.toast_msg = message;
                self.toast_is_error = false;
                if config.clear_and_stay_open {
                    self.reset();
                    Effect::Nothing
                } else {
                    Effect::CloseWindow
                }
            },
            Err(message) => {
                show_error(self, message);
                Effect::Nothing
            },
        }
    }
}

/// An arrow key.
pub open spec fn is_arrow(k: KeyName) -> bool {
    k is ArrowLeft || k is ArrowRight || k is ArrowUp || k is ArrowDown
}

/// The form takes the key for itself (the window does not act on it):
/// `Tab`, `Esc` and `Ctrl+D` everywhere; the arrows in the metadata field
/// of the current step while it has the focus; Enter in the project,
/// priority and tags fields while they have the focus.
pub open spec fn consumes(step: CaptureState, field: Option<CaptureState>, key: KeyPress) -> bool {
    let in_field = field == Some(step) && step is Details;
    ||| is_eoi(key)
    ||| key.key is Tab
    ||| key.key is Escape
    ||| (in_field && is_arrow(key.key))
    ||| (in_field && step->Details_0 != DetailStep::Due && key.key is Enter)
}

/// Whether the form takes the key (see `consumes`).
pub fn key_consumed(step: CaptureState, field: Option<CaptureState>, event: &KeyPress) -> (res:
    bool)
    ensures
        res == consumes(step, field, *event),
{
    let eoi = is_eoi_signal(event);
    let in_field = has_focus(field, step) && step.details_visible();
    match &event.key {
        KeyName::Tab | KeyName::Escape => true,
        KeyName::ArrowLeft | KeyName::ArrowRight | KeyName::ArrowUp | KeyName::ArrowDown => in_field,
        KeyName::Enter => in_field && step != CaptureState::Details(DetailStep::Due),
        _ => eoi,
    }
}

/// `Tab` never moves the form nor changes anything in it.
pub proof fn law_tab_does_nothing(
    v: SessionView,
    field: Option<CaptureState>,
    key: KeyPress,
    today: LocalDate,
    config: LentilConfig,
    projects: Seq<Seq<char>>,
    tags: Seq<Seq<char>>,
    draft: MetadataDraft,
)
    requires
        key.key is Tab,
    ensures
        key_pressed(v, field, key, today, config, projects, tags, draft) == (v, EffectView::Nothing),
{
}

/// A task is only ever added from the tags step, with a title that is not
/// blank, and with a priority whenever it has a due date and the settings
/// require one; what is added is `task add …` for that title and metadata.
pub proof fn law_task_added_only_when_complete(
    v: SessionView,
    field: Option<CaptureState>,
    key: KeyPress,
    today: LocalDate,
    config: LentilConfig,
    projects: Seq<Seq<char>>,
    tags: Seq<Seq<char>>,
    draft: MetadataDraft,
)
    requires
        key_pressed(v, field, key, today, config, projects, tags, draft).1 is RunTask,
    ensures
        is_eoi(key),
        v.step == CaptureState::Details(DetailStep::Tags),
        trim(v.title).len() > 0,
        !missing_priority(v, config),
        key_pressed(v, field, key, today, config, projects, tags, draft).1 == EffectView::RunTask(
            "task"@,
            task_add_args(v.title, draft),
        ),
{
}

/// `Ctrl+D` never moves the form backwards: from every step before the
/// tags step it stays where it is or moves one step on.
pub proof fn law_forward_moves_on(
    v: SessionView,
    field: Option<CaptureState>,
    key: KeyPress,
    today: LocalDate,
    config: LentilConfig,
    projects: Seq<Seq<char>>,
    tags: Seq<Seq<char>>,
    draft: MetadataDraft,
)
    requires
        is_eoi(key),
        !(v.step is Details && v.step->Details_0 == DetailStep::Tags),
    ensures
        ({
            let w = key_pressed(v, field, key, today, config, projects, tags, draft).0;
            w.step == v.step || w.step == advanced(v.step)
        }),
{
}

/// `Esc` steps back from every metadata step, and only closes the window
/// from the title step with an empty title.
pub proof fn law_escape_steps_back(
    v: SessionView,
    field: Option<CaptureState>,
    key: KeyPress,
    today: LocalDate,
    config: LentilConfig,
    projects: Seq<Seq<char>>,
    tags: Seq<Seq<char>>,
    draft: MetadataDraft,
)
    requires
        key.key is Escape,
    ensures
        v.step is Details ==> key_pressed(v, field, key, today, config, projects, tags, draft) == (
            at_step(v, retreated(v.step)),
            EffectView::Nothing,
        ),
        key_pressed(v, field, key, today, config, projects, tags, draft).1 == EffectView::CloseWindow
            <==> (v.step is Title && v.title.len() == 0),
{
}

/// The arrow keys keep the highlighted suggestion on the list: starting on
/// it, the highlight stays on it.
pub proof fn law_highlight_stays_on_list(sel: int, len: int)
    requires
        0 <= sel < len,
    ensures
        0 <= highlight_next(sel, len) < len,
        0 <= highlight_prev(sel) < len,
{
}

/// Blanking the due field while today is the implicit default keeps today
/// as the due date; blanking it otherwise leaves no due date.
pub proof fn law_blank_due_keeps_default(
    v: SessionView,
    value: Seq<char>,
    checked: Result<Option<Seq<char>>, Seq<char>>,
    today: LocalDate,
)
    requires
        trim(value).len() == 0,
    ensures
        due_set(v, value, checked, today).draft.due == if v.draft.implicit {
            Some(today_text(today))
        } else {
            None
        },
        due_set(v, value, checked, today).draft.due_input.len() == 0,
        !due_set(v, value, checked, today).toast_error,
{
}

/// `Ctrl+D` on the due step with the field still blank while today is the
/// implicit default keeps today as the due date and moves on to the
/// priority step, without reading the blank text.
pub proof fn law_forward_keeps_implicit_due(
    v: SessionView,
    field: Option<CaptureState>,
    key: KeyPress,
    today: LocalDate,
    config: LentilConfig,
    projects: Seq<Seq<char>>,
    tags: Seq<Seq<char>>,
    draft: MetadataDraft,
)
    requires
        is_eoi(key),
        v.step == CaptureState::Details(DetailStep::Due),
        trim(v.draft.due_input).len() == 0,
        v.draft.implicit,
    ensures
        ({
            let (w, e) = key_pressed(v, field, key, today, config, projects, tags, draft);
            &&& w.draft.due == Some(today_text(today))
            &&& w.step == CaptureState::Details(DetailStep::Priority)
            &&& e == EffectView::Nothing
        }),
{
}

/// Keys other than `Ctrl+D`, `Esc` and `Tab` change nothing unless the
/// input field of the current step has the focus.
pub proof fn law_unfocused_keys_ignored(
    v: SessionView,
    field: Option<CaptureState>,
    key: KeyPress,
    today: LocalDate,
    config: LentilConfig,
    projects: Seq<Seq<char>>,
    tags: Seq<Seq<char>>,
    draft: MetadataDraft,
)
    requires
        !is_eoi(key),
        !(key.key is Escape),
        field != Some(v.step),
    ensures
        key_pressed(v, field, key, today, config, projects, tags, draft) == (v, EffectView::Nothing),
        !consumes(v.step, field, key) <==> !(key.key is Tab),
{
}

/// `Ctrl+D` on the project step takes the highlighted project suggestion
/// (when the highlight is on a non-empty one) and moves to the due step.
pub proof fn law_forward_takes_highlighted_project(
    v: SessionView,
    field: Option<CaptureState>,
    key: KeyPress,
    today: LocalDate,
    config: LentilConfig,
    projects: Seq<Seq<char>>,
    tags: Seq<Seq<char>>,
    draft: MetadataDraft,
)
    requires
        is_eoi(key),
        v.step == CaptureState::Details(DetailStep::Project),
        0 <= v.project_sel < projects.len(),
        projects[v.project_sel].len() > 0,
    ensures
        ({
            let w = key_pressed(v, field, key, today, config, projects, tags, draft).0;
            &&& w.draft.project == projects[v.project_sel]
            &&& w.step == CaptureState::Details(DetailStep::Due)
        }),
{
}

/// Moving the highlight down in the project field and then pressing
/// `Ctrl+D` keeps the suggestion the highlight moved to: the one after the
/// old highlight, or the last one.
pub proof fn law_highlight_then_forward_keeps_project(
    v: SessionView,
    down: KeyPress,
    eoi: KeyPress,
    today: LocalDate,
    config: LentilConfig,
    projects: Seq<Seq<char>>,
    tags: Seq<Seq<char>>,
    draft: MetadataDraft,
)
    requires
        v.step == CaptureState::Details(DetailStep::Project),
        down.key is ArrowDown,
        is_eoi(eoi),
        0 <= v.project_sel < projects.len(),
        forall|i: int| 0 <= i < projects.len() ==> (#[trigger] projects[i]).len() > 0,
    ensures
        ({
            let k = if v.project_sel + 1 < projects.len() {
                v.project_sel + 1
            } else {
                projects.len() - 1
            };
            let field = Some(v.step);
            let w = key_pressed(v, field, down, today, config, projects, tags, draft).0;
            let x = key_pressed(w, field, eoi, today, config, projects, tags, draft).0;
            &&& w.project_sel == k
            &&& w.draft.project == projects[k]
            &&& x.draft.project == projects[k]
        }),
{
    let k = if v.project_sel + 1 < projects.len() {
        v.project_sel + 1
    } else {
        projects.len() - 1
    };
    assert(projects[k].len() > 0);
}

/// In the focused due field the arrow keys move the due date: right a day
/// later, left a day earlier, down a week later, up a week earlier; the
/// form itself stays as it is.
pub proof fn law_due_arrows_move_date(
    v: SessionView,
    key: KeyPress,
    today: LocalDate,
    config: LentilConfig,
    projects: Seq<Seq<char>>,
    tags: Seq<Seq<char>>,
    draft: MetadataDraft,
)
    requires
        v.step == CaptureState::Details(DetailStep::Due),
    ensures
        ({
            let (w, e) = key_pressed(v, Some(v.step), key, today, config, projects, tags, draft);
            &&& key.key is ArrowRight ==> w == v && e == EffectView::MoveDue(1i32)
            &&& key.key is ArrowLeft ==> w == v && e == EffectView::MoveDue(-1i32)
            &&& key.key is ArrowDown ==> w == v && e == EffectView::MoveDue(7i32)
            &&& key.key is ArrowUp ==> w == v && e == EffectView::MoveDue(-7i32)
        }),
{
}

/// Opposite arrow keys in the focused due field move the due date by
/// opposite amounts, so one undoes the other.
pub proof fn law_due_arrows_undo(
    v: SessionView,
    a: KeyPress,
    b: KeyPress,
    today: LocalDate,
    config: LentilConfig,
    projects: Seq<Seq<char>>,
    tags: Seq<Seq<char>>,
    draft: MetadataDraft,
)
    requires
        v.step == CaptureState::Details(DetailStep::Due),
        (a.key is ArrowDown && b.key is ArrowUp) || (a.key is ArrowRight && b.key is ArrowLeft),
    ensures
        ({
            let ea = key_pressed(v, Some(v.step), a, today, config, projects, tags, draft).1;
            let eb = key_pressed(v, Some(v.step), b, today, config, projects, tags, draft).1;
            ea matches EffectView::MoveDue(x) && eb matches EffectView::MoveDue(y) && x > 0 && x + y
                == 0
        }),
{
}

} // verus!
