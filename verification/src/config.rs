//! The user's settings and the reader for the `key = value` settings file
//! (`~/.config/lentil/config.toml`).
use vstd::prelude::*;

use crate::text::{
    chars_eq, chars_of, split_by, split_chars, split_once, split_once_chars, trim, trim_chars,
    views, Sep,
};

verus! {

/// Behaviour switches read from the settings file.
#[derive(Clone, Copy, Debug, PartialEq, Eq, Structural)]
pub struct LentilConfig {
    /// After a task is added, clear the form and keep the window open
    /// (instead of closing it).
    pub clear_and_stay_open: bool,
    /// Offer the `idea` tag when the task has no due date.
    pub suggest_idea_without_due: bool,
    /// Refuse a task with a due date but no priority.
    pub require_priority_with_due: bool,
}

/// The settings used when the file does not say otherwise.
pub open spec fn default_config() -> LentilConfig {
    LentilConfig {
        clear_and_stay_open: false,
        suggest_idea_without_due: true,
        require_priority_with_due: true,
    }
}

impl Default for LentilConfig {
    fn default() -> (res: Self)
        ensures
            res == default_config(),
    {
        LentilConfig {
            clear_and_stay_open: false,
            suggest_idea_without_due: true,
            require_priority_with_due: true,
        }
    }
}

/// The settings the file can set.
#[derive(Clone, Copy, Debug, PartialEq, Eq, Structural)]
pub enum ConfigKey {
    ClearAndStayOpen,
    SuggestIdeaWithoutDue,
    RequirePriorityWithDue,
}

/// The setting a (trimmed) key names.
pub open spec fn key_named(k: Seq<char>) -> Option<ConfigKey> {
    if k == "clear_and_stay_open"@ {
        Some(ConfigKey::ClearAndStayOpen)
    } else if k == "suggest_idea_without_due"@ {
        Some(ConfigKey::SuggestIdeaWithoutDue)
    } else if k == "require_priority_with_due"@ {
        Some(ConfigKey::RequirePriorityWithDue)
    } else {
        None
    }
}

/// The boolean a (trimmed) value spells: exactly `true` or `false`.
pub open spec fn bool_named(v: Seq<char>) -> Option<bool> {
    if v == "true"@ {
        Some(true)
    } else if v == "false"@ {
        Some(false)
    } else {
        None
    }
}

/// The value of one setting in `cfg`.
pub open spec fn setting_of(cfg: LentilConfig, key: ConfigKey) -> bool {
    match key {
        ConfigKey::ClearAndStayOpen => cfg.clear_and_stay_open,
        ConfigKey::SuggestIdeaWithoutDue => cfg.suggest_idea_without_due,
        ConfigKey::RequirePriorityWithDue => cfg.require_priority_with_due,
    }
}

/// `cfg` with one setting changed.
pub open spec fn with_setting(cfg: LentilConfig, key: ConfigKey, value: bool) -> LentilConfig {
    match key {
        ConfigKey::ClearAndStayOpen => LentilConfig { clear_and_stay_open: value, ..cfg },
        ConfigKey::SuggestIdeaWithoutDue => LentilConfig { suggest_idea_without_due: value, ..cfg },
        ConfigKey::RequirePriorityWithDue => LentilConfig {
            require_priority_with_due: value,
            ..cfg
        },
    }
}

/// The setting one line of the file makes, if any: after trimming, a line
/// that is not empty and does not start with `#`, holding a known key and a
/// boolean on either side of its first `=` (each side trimmed).
pub open spec fn line_setting(line: Seq<char>) -> Option<(ConfigKey, bool)> {
    let t = trim(line);
    if t.len() == 0 || t[0] == '#' {
        None
    } else {
        match split_once(t, '=') {
            None => None,
            Some((k, v)) => match (key_named(trim(k)), bool_named(trim(v))) {
                (Some(key), Some(b)) => Some((key, b)),
                _ => None,
            },
        }
    }
}

/// `cfg` after one line of the file.
pub open spec fn apply_line(cfg: LentilConfig, line: Seq<char>) -> LentilConfig {
    match line_setting(line) {
        Some((key, value)) => with_setting(cfg, key, value),
        None => cfg,
    }
}

/// `cfg` after the lines in order.
pub open spec fn apply_lines(cfg: LentilConfig, lines: Seq<Seq<char>>) -> LentilConfig
    decreases lines.len(),
{
    if lines.len() == 0 {
        cfg
    } else {
        apply_line(apply_lines(cfg, lines.drop_last()), lines.last())
    }
}

/// The lines of a text (split at `\n`; a `\r` before it is whitespace and
/// is trimmed away with the rest).
pub open spec fn lines_of(contents: Seq<char>) -> Seq<Seq<char>> {
    split_by(contents, Sep::Char('\n'))
}

/// The settings a file with these contents gives.
pub open spec fn parsed_config(contents: Seq<char>) -> LentilConfig {
    apply_lines(default_config(), lines_of(contents))
}

/// The setting the given line makes (see `line_setting`).
fn line_setting_exec(line: &Vec<char>) -> (res: Option<(ConfigKey, bool)>)
    ensures
        res == line_setting(line@),
{
    let t = trim_chars(line);
    if t.len() == 0 || t[0] == '#' {
        return None;
    }
    let (k, v) = match split_once_chars(&t, '=') {
        Some(parts) => parts,
        None => return None,
    };
    let key_t = trim_chars(&k);
    let value_t = trim_chars(&v);
    let key = if chars_eq(&key_t, &chars_of("clear_and_stay_open")) {
        Some(ConfigKey::ClearAndStayOpen)
    } else if chars_eq(&key_t, &chars_of("suggest_idea_without_due")) {
        Some(ConfigKey::SuggestIdeaWithoutDue)
    } else if chars_eq(&key_t, &chars_of("require_priority_with_due")) {
        Some(ConfigKey::RequirePriorityWithDue)
    } else {
        None
    };
    let value = if chars_eq(&value_t, &chars_of("true")) {
        Some(true)
    } else if chars_eq(&value_t, &chars_of("false")) {
        Some(false)
    } else {
        None
    };
    match (key, value) {
        (Some(key), Some(b)) => Some((key, b)),
        _ => None,
    }
}

/// Reads the settings from the contents of the settings file. Every
/// setting starts at its default; each line `key = true` or `key = false`
/// for a known key sets it, a later line winning over an earlier one;
/// blank lines, `#` comments and any other line change nothing.
pub fn parse_config(contents: &str) -> (config: LentilConfig)
    ensures
        config == parsed_config(contents@),
{
    let chars = chars_of(contents);
    let lines = split_chars(&chars, Sep::Char('\n'));
    let ghost ls = views(lines@);
    let mut config = LentilConfig::default();
    let mut i: usize = 0;
    assert(ls.take(0) =~= Seq::<Seq<char>>::empty());
    while i < lines.len()
        invariant
            i <= lines.len(),
            ls == views(lines@),
            ls == lines_of(contents@),
            config == apply_lines(default_config(), ls.take(i as int)),
        decreases lines.len() - i,
    {
        assert(ls.take(i + 1).drop_last() =~= ls.take(i as int));
        assert(ls.take(i + 1).last() == lines@[i as int]@);
        match line_setting_exec(&lines[i]) {
            Some((key, value)) => {
                config = match key {
                    ConfigKey::ClearAndStayOpen => LentilConfig {
                        clear_and_stay_open: value,
                        ..config
                    },
                    ConfigKey::SuggestIdeaWithoutDue => LentilConfig {
                        suggest_idea_without_due: value,
                        ..config
                    },
                    ConfigKey::RequirePriorityWithDue => LentilConfig {
                        require_priority_with_due: value,
                        ..config
                    },
                };
            },
            None => {},
        }
        i = i + 1;
    }
    assert(ls.take(lines.len() as int) =~= ls);
    config
}

impl LentilConfig {
    /// The settings given the settings file's contents, or `None` where
    /// there is no file to read: then every setting keeps its default.
    pub fn from_file_contents(contents: Option<&str>) -> (config: LentilConfig)
        ensures
            config == match contents {
                Some(c) => parsed_config(c@),
                None => default_config(),
            },
    {
        match contents {
            Some(c) => parse_config(c),
            None => LentilConfig::default(),
        }
    }
}

/// Whether a line sets `key`.
pub open spec fn line_sets(line: Seq<char>, key: ConfigKey) -> bool {
    line_setting(line) matches Some((k, _)) && k == key
}

proof fn lemma_apply_lines_setting(cfg: LentilConfig, lines: Seq<Seq<char>>, key: ConfigKey)
    ensures
        (forall|i: int| 0 <= i < lines.len() ==> !line_sets(#[trigger] lines[i], key)) ==> setting_of(
            apply_lines(cfg, lines),
            key,
        ) == setting_of(cfg, key),
        forall|i: int|
            0 <= i < lines.len() && line_sets(#[trigger] lines[i], key) && (forall|j: int|
                i < j < lines.len() ==> !line_sets(#[trigger] lines[j], key)) ==> line_setting(
                lines[i],
            ) == Some((key, setting_of(apply_lines(cfg, lines), key))),
    decreases lines.len(),
{
    if lines.len() > 0 {
        let init = lines.drop_last();
        lemma_apply_lines_setting(cfg, init, key);
        assert forall|i: int|
            0 <= i < lines.len() && line_sets(#[trigger] lines[i], key) && (forall|j: int|
                i < j < lines.len() ==> !line_sets(#[trigger] lines[j], key)) implies line_setting(
            lines[i],
        ) == Some((key, setting_of(apply_lines(cfg, lines), key))) by {
            if i < lines.len() - 1 {
                assert(!line_sets(lines[lines.len() - 1], key));
                assert(init[i] == lines[i]);
                assert forall|j: int| i < j < init.len() implies !line_sets(#[trigger] init[j], key) by {
                    assert(init[j] == lines[j]);
                }
            }
        }
        if forall|i: int| 0 <= i < lines.len() ==> !line_sets(#[trigger] lines[i], key) {
            assert(!line_sets(lines[lines.len() - 1], key));
            assert forall|i: int| 0 <= i < init.len() implies !line_sets(#[trigger] init[i], key) by {
                assert(init[i] == lines[i]);
            }
        }
    }
}

/// Each setting is decided by the last line of the file that sets it, and
/// keeps its default when no line sets it; lines that set other keys, and
/// lines that are not settings, do not touch it.
pub proof fn law_last_setting_wins(contents: Seq<char>, key: ConfigKey)
    ensures
        (forall|i: int|
            0 <= i < lines_of(contents).len() ==> !line_sets(#[trigger] lines_of(contents)[i], key))
            ==> setting_of(parsed_config(contents), key) == setting_of(default_config(), key),
        forall|i: int|
            0 <= i < lines_of(contents).len() && line_sets(#[trigger] lines_of(contents)[i], key)
                && (forall|j: int|
                i < j < lines_of(contents).len() ==> !line_sets(
                    #[trigger] lines_of(contents)[j],
                    key,
                )) ==> line_setting(lines_of(contents)[i]) == Some(
                (key, setting_of(parsed_config(contents), key)),
            ),
{
    lemma_apply_lines_setting(default_config(), lines_of(contents), key);
}

proof fn lemma_apply_lines_concat(cfg: LentilConfig, l1: Seq<Seq<char>>, l2: Seq<Seq<char>>)
    ensures
        apply_lines(cfg, l1 + l2) == apply_lines(apply_lines(cfg, l1), l2),
    decreases l2.len(),
{
    if l2.len() == 0 {
        assert(l1 + l2 =~= l1);
    } else {
        lemma_apply_lines_concat(cfg, l1, l2.drop_last());
        assert((l1 + l2).drop_last() =~= l1 + l2.drop_last());
    }
}

/// Reading two texts joined by a line break gives what reading the second
/// text gives when it starts from the settings the first one made: a file
/// can be read in parts, top to bottom.
pub proof fn law_parse_concat(first: Seq<char>, second: Seq<char>)
    ensures
        parsed_config(first + seq!['\n'] + second) == apply_lines(
            parsed_config(first),
            lines_of(second),
        ),
{
    crate::text::lemma_split_concat(first, second, Sep::Char('\n'), '\n');
    lemma_apply_lines_concat(default_config(), lines_of(first), lines_of(second));
}

} // verus!
