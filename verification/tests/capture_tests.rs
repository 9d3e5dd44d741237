use lentil::capture::{CaptureState, DetailStep};

const ALL: [CaptureState; 5] = [
    CaptureState::Title,
    CaptureState::Details(DetailStep::Project),
    CaptureState::Details(DetailStep::Due),
    CaptureState::Details(DetailStep::Priority),
    CaptureState::Details(DetailStep::Tags),
];

#[test]
fn advance_and_retreat_walk_the_steps() {
    for i in 0..5 {
        assert_eq!(ALL[i].advance(), ALL[(i + 1).min(4)]);
        assert_eq!(ALL[i].retreat(), ALL[i.saturating_sub(1)]);
    }
}

#[test]
fn retreat_undoes_advance() {
    for s in ALL.iter().take(4) {
        assert_eq!(s.advance().retreat(), *s);
    }
    for s in ALL.iter().skip(1) {
        assert_eq!(s.retreat().advance(), *s);
    }
}

#[test]
fn four_steps_reach_the_ends() {
    for s in ALL {
        assert_eq!(s.advance().advance().advance().advance(), CaptureState::Details(DetailStep::Tags));
        assert_eq!(s.retreat().retreat().retreat().retreat(), CaptureState::Title);
    }
}

#[test]
fn details_and_ids() {
    assert!(!CaptureState::Title.details_visible());
    assert!(CaptureState::Details(DetailStep::Due).details_visible());
    assert_eq!(CaptureState::Title.enter_details(), CaptureState::Details(DetailStep::Project));
    assert_eq!(
        CaptureState::Details(DetailStep::Tags).enter_details(),
        CaptureState::Details(DetailStep::Tags)
    );
    assert_eq!(CaptureState::Title.input_id(), "capture-title-input");
    assert_eq!(CaptureState::Details(DetailStep::Priority).input_id(), "capture-priority-input");
    assert_eq!(CaptureState::Details(DetailStep::Tags).section_id(), "capture-tags-section");
    let mut ids: Vec<&str> = ALL.iter().map(|s| s.input_id()).collect();
    ids.sort();
    ids.dedup();
    assert_eq!(ids.len(), 5);
}

