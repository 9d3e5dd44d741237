use lentil::config::{parse_config, LentilConfig};

fn cfg(a: bool, b: bool, c: bool) -> LentilConfig {
    LentilConfig {
        clear_and_stay_open: a,
        suggest_idea_without_due: b,
        require_priority_with_due: c,
    }
}

#[test]
fn defaults_when_empty() {
    assert_eq!(parse_config(""), cfg(false, true, true));
    assert_eq!(LentilConfig::default(), cfg(false, true, true));
}

#[test]
fn reads_each_key() {
    let text = "clear_and_stay_open = true\nsuggest_idea_without_due=false\n  require_priority_with_due =  false  \n";
    assert_eq!(parse_config(text), cfg(true, false, false));
}

#[test]
fn comments_blank_and_unknown_lines_are_ignored() {
    let text = "# clear_and_stay_open = true\n\n   \nunknown = true\nclear_and_stay_open = yes\nnot a setting\n";
    assert_eq!(parse_config(text), cfg(false, true, true));
}

#[test]
fn last_setting_wins() {
    let text = "clear_and_stay_open = true\nsuggest_idea_without_due = false\nclear_and_stay_open = false\n";
    assert_eq!(parse_config(text), cfg(false, false, true));
}

#[test]
fn crlf_line_endings() {
    let text = "clear_and_stay_open = true\r\nrequire_priority_with_due = false\r\n";
    assert_eq!(parse_config(text), cfg(true, true, false));
}

#[test]
fn value_after_first_equals_sign() {
    assert_eq!(parse_config("clear_and_stay_open = true = false"), cfg(false, true, true));
    assert_eq!(parse_config("clear_and_stay_open==true"), cfg(false, true, true));
}

#[test]
fn case_matters() {
    assert_eq!(parse_config("Clear_And_Stay_Open = TRUE"), cfg(false, true, true));
}

#[test]
fn reading_in_parts_matches_reading_whole() {
    let first = "clear_and_stay_open = true\nsuggest_idea_without_due = false";
    let second = "clear_and_stay_open = false\nrequire_priority_with_due = false";
    let whole = format!("{}\n{}", first, second);
    assert_eq!(parse_config(&whole), cfg(false, false, false));
}

#[test]
fn file_contents_or_defaults() {
    assert_eq!(LentilConfig::from_file_contents(None), cfg(false, true, true));
    assert_eq!(
        LentilConfig::from_file_contents(Some("require_priority_with_due = false")),
        cfg(false, true, false)
    );
}
