use lentil::config::LentilConfig;
use lentil::suggest::{
    apply_selected_suggestion, merge_tag_input, next_priority, normalize_tags, previous_priority,
    ranked_suggestions, selected_suggestion, suggestion_score, SuggestionKind,
};

fn s(v: &[&str]) -> Vec<String> {
    v.iter().map(|x| x.to_string()).collect()
}

fn config(idea: bool) -> LentilConfig {
    LentilConfig {
        clear_and_stay_open: false,
        suggest_idea_without_due: idea,
        require_priority_with_due: true,
    }
}

#[test]
fn tags_normalized() {
    assert_eq!(normalize_tags("#Work, home  ##Idea,,work"), s(&["home", "idea", "work"]));
    assert_eq!(normalize_tags("   ,, # ## "), Vec::<String>::new());
    assert_eq!(normalize_tags("b a\tc\nB"), s(&["a", "b", "c"]));
    assert_eq!(normalize_tags("ab a abc"), s(&["a", "ab", "abc"]));
    assert_eq!(normalize_tags("Éa a#b"), s(&["a#b", "Éa"]));
}

#[test]
fn tags_merged() {
    assert_eq!(merge_tag_input("  #b a ", None), "#b a");
    assert_eq!(merge_tag_input("#b a", Some("c")), "#a #b #c");
    assert_eq!(merge_tag_input("#b a", Some("a")), "#a #b");
    assert_eq!(merge_tag_input("", Some("idea")), "#idea");
    assert_eq!(merge_tag_input("x", Some("X")), "#X #x");
}

#[test]
fn scores() {
    assert_eq!(suggestion_score("work", "", "write report"), 5);
    assert_eq!(suggestion_score("Work", " work ", "x"), 100);
    assert_eq!(suggestion_score("workshop", "WORK", "x"), 70);
    assert_eq!(suggestion_score("homework", "work", "x"), 35);
    assert_eq!(suggestion_score("home", "work", "x"), 0);
    assert_eq!(suggestion_score("home", "work", "fix the HOME wifi"), 25);
    assert_eq!(suggestion_score("home", "", "fix the home wifi"), 30);
}

#[test]
fn ranking_orders_and_limits() {
    let items = s(&["homework", "work", "workshop", "garden", "networking"]);
    let r = ranked_suggestions(&items, "work", "", SuggestionKind::Project, &config(true), true);
    assert_eq!(r, s(&["work", "workshop", "homework", "networking"]));
    let many = s(&["g", "f", "e", "d", "c", "b", "a", "hh"]);
    let r = ranked_suggestions(&many, "", "", SuggestionKind::Project, &config(true), true);
    assert_eq!(r, s(&["a", "b", "c", "d", "e", "f"]));
}

#[test]
fn ranking_keeps_exact_case_sensitive_match() {
    let items = s(&["abc"]);
    let r = ranked_suggestions(&items, "zz", "", SuggestionKind::Project, &config(true), true);
    assert_eq!(r, Vec::<String>::new());
}

#[test]
fn idea_tag_offered() {
    let items = s(&["writing", "idea"]);
    let r = ranked_suggestions(&items, "", "", SuggestionKind::Tag, &config(true), true);
    assert_eq!(r, s(&["idea", "writing"]));
    let r = ranked_suggestions(&items, "", "", SuggestionKind::Tag, &config(true), false);
    assert_eq!(r, s(&["idea", "writing"]));
    let none = s(&["writing"]);
    let r = ranked_suggestions(&none, "", "", SuggestionKind::Tag, &config(true), true);
    assert_eq!(r, s(&["idea", "writing"]));
    let r = ranked_suggestions(&none, "", "", SuggestionKind::Tag, &config(false), true);
    assert_eq!(r, s(&["writing"]));
    let r = ranked_suggestions(&none, "", "", SuggestionKind::Project, &config(true), true);
    assert_eq!(r, s(&["writing"]));
    let r = ranked_suggestions(&none, "wri", "", SuggestionKind::Tag, &config(true), true);
    assert_eq!(r, s(&["writing", "idea"]));
}

#[test]
fn ties_broken_by_byte_length_then_order() {
    let items = s(&["é", "ab", "b", "a"]);
    let r = ranked_suggestions(&items, "", "", SuggestionKind::Project, &config(true), true);
    assert_eq!(r, s(&["a", "b", "ab", "é"]));
}

#[test]
fn selection() {
    let list = s(&["alpha", "", "beta"]);
    assert_eq!(selected_suggestion(0, &list), Some("alpha".to_string()));
    assert_eq!(selected_suggestion(1, &list), None);
    assert_eq!(selected_suggestion(3, &list), None);
    assert_eq!(apply_selected_suggestion(2, &list, " x ", SuggestionKind::Project), "beta");
    assert_eq!(apply_selected_suggestion(9, &list, " x ", SuggestionKind::Project), "x");
    assert_eq!(apply_selected_suggestion(2, &list, "#a", SuggestionKind::Tag), "#a #beta");
    assert_eq!(apply_selected_suggestion(9, &list, " #a ", SuggestionKind::Tag), "#a");
}

#[test]
fn priorities_cycle() {
    assert_eq!(next_priority(None), 'H');
    assert_eq!(next_priority(Some('H')), 'M');
    assert_eq!(next_priority(Some('M')), 'L');
    assert_eq!(next_priority(Some('L')), 'H');
    assert_eq!(previous_priority(None), 'L');
    assert_eq!(previous_priority(Some('L')), 'M');
    assert_eq!(previous_priority(Some('M')), 'H');
    assert_eq!(previous_priority(Some('H')), 'L');
}

#[test]
fn merging_a_tag_twice_changes_nothing() {
    let once = merge_tag_input("#Work, home", Some("idea"));
    assert_eq!(once, "#home #idea #work");
    let twice = merge_tag_input(&once, Some("idea"));
    assert_eq!(twice, once);
    assert_eq!(normalize_tags(&once), s(&["home", "idea", "work"]));
}

#[test]
fn normalized_tags_read_back() {
    let input = "Work, #urgent  #Work home,,##later";
    let tags = normalize_tags(input);
    assert_eq!(tags, s(&["home", "later", "urgent", "work"]));
    assert_eq!(normalize_tags(&tags.join(" ")), tags);
    let hashed: Vec<String> = tags.iter().map(|t| format!("#{t}")).collect();
    assert_eq!(normalize_tags(&hashed.join(" ")), tags);
    assert_eq!(normalize_tags(""), Vec::<String>::new());
}
