//! The guided capture flow: the title first, then project, due date,
//! priority and tags, one step at a time. `Ctrl+D` moves forward, `Esc`
//! moves back.
use vstd::prelude::*;

verus! {

/// The metadata steps, in the order the form asks for them.
#[derive(Clone, Copy, PartialEq, Eq, Debug, Structural)]
pub enum DetailStep {
    Project,
    Due,
    Priority,
    Tags,
}

/// Where the capture form is.
#[derive(Clone, Copy, PartialEq, Eq, Debug, Structural)]
pub enum CaptureState {
    /// Editing the task's title.
    Title,
    /// Editing one metadata field, under the title.
    Details(DetailStep),
}

/// The position of a state in the flow: the title is 0, tags are 4.
pub open spec fn step_index(s: CaptureState) -> int {
    match s {
        CaptureState::Title => 0,
        CaptureState::Details(DetailStep::Project) => 1,
        CaptureState::Details(DetailStep::Due) => 2,
        CaptureState::Details(DetailStep::Priority) => 3,
        CaptureState::Details(DetailStep::Tags) => 4,
    }
}

/// The state at a position of the flow (positions outside 0..=4 are clamped).
pub open spec fn state_at(i: int) -> CaptureState {
    if i <= 0 {
        CaptureState::Title
    } else if i == 1 {
        CaptureState::Details(DetailStep::Project)
    } else if i == 2 {
        CaptureState::Details(DetailStep::Due)
    } else if i == 3 {
        CaptureState::Details(DetailStep::Priority)
    } else {
        CaptureState::Details(DetailStep::Tags)
    }
}

/// One step forward from `s`.
pub open spec fn advanced(s: CaptureState) -> CaptureState {
    state_at(step_index(s) + 1)
}

/// One step back from `s`.
pub open spec fn retreated(s: CaptureState) -> CaptureState {
    state_at(step_index(s) - 1)
}

/// Each state sits at its own position of the flow, between 0 and 4.
pub proof fn law_state_at_own_index(s: CaptureState)
    ensures
        state_at(step_index(s)) == s,
        0 <= step_index(s) <= 4,
{
}

impl CaptureState {
    /// The element id of the input that has focus in this state.
    pub fn input_id(self) -> (id: &'static str)
        ensures
            id@ == input_id_of(self),
    {
        match self {
            CaptureState::Title => "capture-title-input",
            CaptureState::Details(DetailStep::Project) => "capture-project-input",
            CaptureState::Details(DetailStep::Due) => "capture-due-input",
            CaptureState::Details(DetailStep::Priority) => "capture-priority-input",
            CaptureState::Details(DetailStep::Tags) => "capture-tags-input",
        }
    }

    /// The element id of the section shown for this state.
    pub fn section_id(self) -> (id: &'static str)
        ensures
            id@ == section_id_of(self),
    {
        match self {
            CaptureState::Title => "capture-title-section",
            CaptureState::Details(DetailStep::Project) => "capture-project-section",
            CaptureState::Details(DetailStep::Due) => "capture-due-section",
            CaptureState::Details(DetailStep::Priority) => "capture-priority-section",
            CaptureState::Details(DetailStep::Tags) => "capture-tags-section",
        }
    }

    /// Whether the metadata part of the form is shown.
    pub fn details_visible(self) -> (res: bool)
        ensures
            res == (self is Details),
    {
        match self {
            CaptureState::Details(_) => true,
            CaptureState::Title => false,
        }
    }

    /// Leaves the title for the first metadata step; a metadata step stays.
    pub fn enter_details(self) -> (res: Self)
        ensures
            res == if self is Title {
                CaptureState::Details(DetailStep::Project)
            } else {
                self
            },
    {
        match self {
            CaptureState::Title => CaptureState::Details(DetailStep::Project),
            state => state,
        }
    }

    /// One step back; the title stays where it is.
    pub fn retreat(self) -> (res: Self)
        ensures
            res == retreated(self),
    {
        match self {
            CaptureState::Title => CaptureState::Title,
            CaptureState::Details(DetailStep::Project) => CaptureState::Title,
            CaptureState::Details(DetailStep::Due) => CaptureState::Details(DetailStep::Project),
            CaptureState::Details(DetailStep::Priority) => CaptureState::Details(DetailStep::Due),
            CaptureState::Details(DetailStep::Tags) => CaptureState::Details(DetailStep::Priority),
        }
    }

    /// One step forward; the tags step stays where it is.
    pub fn advance(self) -> (res: Self)
        ensures
            res == advanced(self),
    {
        match self {
            CaptureState::Title => CaptureState::Details(DetailStep::Project),
            CaptureState::Details(DetailStep::Project) => CaptureState::Details(DetailStep::Due),
            CaptureState::Details(DetailStep::Due) => CaptureState::Details(DetailStep::Priority),
            CaptureState::Details(DetailStep::Priority) => CaptureState::Details(DetailStep::Tags),
            CaptureState::Details(DetailStep::Tags) => CaptureState::Details(DetailStep::Tags),
        }
    }
}

/// Stepping back undoes stepping forward, everywhere but on the last step.
pub proof fn law_retreat_undoes_advance(s: CaptureState)
    requires
        s != CaptureState::Details(DetailStep::Tags),
    ensures
        retreated(advanced(s)) == s,
{
}

/// Stepping forward undoes stepping back, everywhere but on the title.
pub proof fn law_advance_undoes_retreat(s: CaptureState)
    requires
        s != CaptureState::Title,
    ensures
        advanced(retreated(s)) == s,
{
}

/// Stepping forward always lands on a metadata step, and four steps forward
/// from anywhere reach the tags step.
pub proof fn law_advance_reaches_tags(s: CaptureState)
    ensures
        advanced(s) is Details,
        advanced(advanced(advanced(advanced(s)))) == CaptureState::Details(DetailStep::Tags),
{
}

/// Four steps back from anywhere reach the title.
pub proof fn law_retreat_reaches_title(s: CaptureState)
    ensures
        retreated(retreated(retreated(retreated(s)))) == CaptureState::Title,
{
}

/// Each state focuses its own input and shows its own section: no two
/// states share an input id or a section id.
pub proof fn law_ids_distinct(a: CaptureState, b: CaptureState)
    requires
        a != b,
    ensures
        input_id_of(a) != input_id_of(b),
        section_id_of(a) != section_id_of(b),
{
    reveal_strlit("capture-title-input");
    reveal_strlit("capture-project-input");
    reveal_strlit("capture-due-input");
    reveal_strlit("capture-priority-input");
    reveal_strlit("capture-tags-input");
    reveal_strlit("capture-title-section");
    reveal_strlit("capture-project-section");
    reveal_strlit("capture-due-section");
    reveal_strlit("capture-priority-section");
    reveal_strlit("capture-tags-section");
    assert(input_id_of(a).len() != input_id_of(b).len() || input_id_of(a)[8] != input_id_of(
        b,
    )[8]);
    assert(section_id_of(a).len() != section_id_of(b).len() || section_id_of(a)[8]
        != section_id_of(b)[8]);
}

/// The input id of a state, as `CaptureState::input_id` gives it.
pub open spec fn input_id_of(s: CaptureState) -> Seq<char> {
    match s {
        CaptureState::Title => "capture-title-input"@,
        CaptureState::Details(DetailStep::Project) => "capture-project-input"@,
        CaptureState::Details(DetailStep::Due) => "capture-due-input"@,
        CaptureState::Details(DetailStep::Priority) => "capture-priority-input"@,
        CaptureState::Details(DetailStep::Tags) => "capture-tags-input"@,
    }
}

/// The section id of a state, as `CaptureState::section_id` gives it.
pub open spec fn section_id_of(s: CaptureState) -> Seq<char> {
    match s {
        CaptureState::Title => "capture-title-section"@,
        CaptureState::Details(DetailStep::Project) => "capture-project-section"@,
        CaptureState::Details(DetailStep::Due) => "capture-due-section"@,
        CaptureState::Details(DetailStep::Priority) => "capture-priority-section"@,
        CaptureState::Details(DetailStep::Tags) => "capture-tags-section"@,
    }
}

} // verus!
