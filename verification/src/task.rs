//! Talking to Taskwarrior: the `task add` command for a captured task, the
//! meaning of its answer, and the project and tag lists it prints.
use vstd::prelude::*;

use crate::command::{string_views, CommandLine, RunOutput};
use crate::draft::{opt_view, MetadataDraft};
use crate::due::{display_date, display_date_to_taskwarrior, iso_date};
use crate::order::sorted_set;
use crate::suggest::{normalize_tags, tags_in};
use crate::text::{
    append_chars, chars_of, is_blank, split_by, split_chars, string_from_chars, trim, trim_chars,
    views, Sep,
};

verus! {

/// `+tag` for each tag, in order.
pub open spec fn plus_tags(tags: Seq<Seq<char>>) -> Seq<Seq<char>>
    decreases tags.len(),
{
    if tags.len() == 0 {
        Seq::empty()
    } else {
        plus_tags(tags.drop_last()).push("+"@ + tags.last())
    }
}

/// The `due:YYYY-MM-DD` argument for a resolved due date, when it holds one.
pub open spec fn due_arg(due: Option<Seq<char>>) -> Seq<Seq<char>> {
    match due {
        Some(d) => match display_date(d) {
            Some(c) => seq!["due:"@ + iso_date(c.year as int, c.month as nat, c.day as nat)],
            None => Seq::empty(),
        },
        None => Seq::empty(),
    }
}

/// The arguments of `task` that add the captured task: `add`, the trimmed
/// title, then `project:…` when a project is given, `due:YYYY-MM-DD` when a
/// due date is resolved, `priority:…` when one is chosen, and `+tag` for
/// each tag the tags field names (sorted, each once).
pub open spec fn task_add_args(title: Seq<char>, draft: MetadataDraft) -> Seq<Seq<char>> {
    seq!["add"@, trim(title)] + (if trim(draft.project_input@).len() == 0 {
        Seq::empty()
    } else {
        seq!["project:"@ + trim(draft.project_input@)]
    }) + due_arg(opt_view(draft.due_normalized)) + (match draft.priority {
        Some(p) => seq!["priority:"@ + seq![p]],
        None => Seq::empty(),
    }) + plus_tags(sorted_set(tags_in(draft.tags_input@)))
}

/// The command that adds the captured task to Taskwarrior.
pub fn build_task_command(title: &str, draft: &MetadataDraft) -> (cmd: CommandLine)
    ensures
        cmd.program@ == "task"@,
        string_views(cmd.args@) == task_add_args(title@, *draft),
{
    let mut args: Vec<String> = Vec::new();
    args.push("add".to_owned());
    args.push(crate::text::trimmed(title));
    let ghost a0 = string_views(args@);
    assert(a0 =~= seq!["add"@, trim(title@)]);
    if !is_blank(draft.project_input.as_str()) {
        let mut p = chars_of("project:");
        append_chars(&mut p, &trim_chars(&chars_of(draft.project_input.as_str())));
        args.push(string_from_chars(&p));
    }
    let ghost a1 = string_views(args@);
    assert(a1 =~= a0 + (if trim(draft.project_input@).len() == 0 {
        Seq::<Seq<char>>::empty()
    } else {
        seq!["project:"@ + trim(draft.project_input@)]
    }));
    match &draft.due_normalized {
        Some(due) => match display_date_to_taskwarrior(due.as_str()) {
            Some(iso) => {
                let mut d = chars_of("due:");
                append_chars(&mut d, &chars_of(iso.as_str()));
                args.push(string_from_chars(&d));
            },
            None => {},
        },
        None => {},
    }
    let ghost a2 = string_views(args@);
    assert(a2 =~= a1 + due_arg(opt_view(draft.due_normalized)));
    match draft.priority {
        Some(pr) => {
            let mut d = chars_of("priority:");
            d.push(pr);
            assert(d@ =~= "priority:"@ + seq![pr]);
            args.push(string_from_chars(&d));
        },
        None => {},
    }
    let ghost a3 = string_views(args@);
    assert(a3 =~= a2 + (match draft.priority {
        Some(p) => seq!["priority:"@ + seq![p]],
        None => Seq::<Seq<char>>::empty(),
    }));
    let tags = normalize_tags(draft.tags_input.as_str());
    let ghost tv = string_views(tags@);
    let mut i: usize = 0;
    assert(tv.take(0) =~= Seq::<Seq<char>>::empty());
    assert(a3 + plus_tags(tv.take(0)) =~= a3);
    while i < tags.len()
        invariant
            i <= tags.len(),
            tv == string_views(tags@),
            string_views(args@) == a3 + plus_tags(tv.take(i as int)),
        decreases tags.len() - i,
    {
        let mut d = chars_of("+");
        append_chars(&mut d, &chars_of(tags[i].as_str()));
        let ghost prev = string_views(args@);
        args.push(string_from_chars(&d));
        assert(tv.take(i + 1).drop_last() =~= tv.take(i as int));
        assert(tv.take(i + 1).last() == tags@[i as int]@);
        assert(string_views(args@) =~= prev.push("+"@ + tags@[i as int]@));
        i = i + 1;
    }
    assert(tv.take(tags.len() as int) =~= tv);
    CommandLine { program: "task".to_owned(), args }
}

/// What Taskwarrior's answer to `task add` means: on success its output
/// (trimmed), or "Task added" when it printed nothing; on failure its
/// error output (trimmed), or "Taskwarrior rejected the task" when it
/// printed none; when it could not be started, "Unable to start
/// Taskwarrior: " and the reason.
pub open spec fn task_result(run: Result<(bool, Seq<char>, Seq<char>), Seq<char>>) -> Result<
    Seq<char>,
    Seq<char>,
> {
    match run {
        Err(reason) => Err("Unable to start Taskwarrior: "@ + reason),
        Ok((success, stdout, stderr)) => if success {
            if trim(stdout).len() == 0 {
                Ok("Task added"@)
            } else {
                Ok(trim(stdout))
            }
        } else if trim(stderr).len() == 0 {
            Err("Taskwarrior rejected the task"@)
        } else {
            Err(trim(stderr))
        },
    }
}

/// The plain view of an attempt to run a program, both outputs included.
pub open spec fn full_run_view(run: Result<RunOutput, String>) -> Result<
    (bool, Seq<char>, Seq<char>),
    Seq<char>,
> {
    match run {
        Ok(out) => Ok((out.success, out.stdout@, out.stderr@)),
        Err(reason) => Err(reason@),
    }
}

/// Reads Taskwarrior's answer to `task add` (see `task_result`).
pub fn task_outcome(run: Result<RunOutput, String>) -> (res: Result<String, String>)
    ensures
        match (res, task_result(full_run_view(run))) {
            (Ok(a), Ok(b)) => a@ == b,
            (Err(a), Err(b)) => a@ == b,
            _ => false,
        },
{
    match run {
        Err(reason) => {
            let mut msg = chars_of("Unable to start Taskwarrior: ");
            append_chars(&mut msg, &chars_of(reason.as_str()));
            Err(string_from_chars(&msg))
        },
        Ok(out) => {
            let stdout = trim_chars(&chars_of(out.stdout.as_str()));
            let stderr = trim_chars(&chars_of(out.stderr.as_str()));
            if out.success {
                if stdout.len() == 0 {
                    Ok("Task added".to_owned())
                } else {
                    Ok(string_from_chars(&stdout))
                }
            } else if stderr.len() == 0 {
                Err("Taskwarrior rejected the task".to_owned())
            } else {
                Err(string_from_chars(&stderr))
            }
        },
    }
}

/// The `task` command that prints one of its lists (`_projects`, `_tags`).
pub fn task_list_command(task_arg: &str) -> (cmd: CommandLine)
    ensures
        cmd.program@ == "task"@,
        string_views(cmd.args@) == seq![task_arg@],
{
    let mut args: Vec<String> = Vec::new();
    args.push(task_arg.to_owned());
    assert(string_views(args@) =~= seq![task_arg@]);
    CommandLine { program: "task".to_owned(), args }
}

/// The trimmed lines that are not blank, in order.
pub open spec fn listed_lines(lines: Seq<Seq<char>>) -> Seq<Seq<char>>
    decreases lines.len(),
{
    if lines.len() == 0 {
        Seq::empty()
    } else if trim(lines.last()).len() == 0 {
        listed_lines(lines.drop_last())
    } else {
        listed_lines(lines.drop_last()).push(trim(lines.last()))
    }
}

/// The entries of a list `task` printed: its lines, trimmed, blank ones
/// dropped; nothing when the program failed or could not be started.
pub open spec fn task_list(run: Result<(bool, Seq<char>), Seq<char>>) -> Seq<Seq<char>> {
    match run {
        Ok((true, stdout)) => listed_lines(split_by(stdout, Sep::Char('\n'))),
        _ => Seq::empty(),
    }
}

/// Reads a list `task` printed (see `task_list`).
pub fn task_list_from_output(run: Result<RunOutput, String>) -> (res: Vec<String>)
    ensures
        string_views(res@) == task_list(crate::due::run_view(run)),
{
    let mut res: Vec<String> = Vec::new();
    let out = match run {
        Ok(out) => out,
        Err(_) => {
            assert(string_views(res@) =~= Seq::<Seq<char>>::empty());
            return res;
        },
    };
    if !out.success {
        assert(string_views(res@) =~= Seq::<Seq<char>>::empty());
        return res;
    }
    let lines = split_chars(&chars_of(out.stdout.as_str()), Sep::Char('\n'));
    let ghost ls = views(lines@);
    let mut i: usize = 0;
    assert(ls.take(0) =~= Seq::<Seq<char>>::empty());
    assert(string_views(res@) =~= Seq::<Seq<char>>::empty());
    while i < lines.len()
        invariant
            i <= lines.len(),
            ls == views(lines@),
            string_views(res@) == listed_lines(ls.take(i as int)),
        decreases lines.len() - i,
    {
        assert(ls.take(i + 1).drop_last() =~= ls.take(i as int));
        assert(ls.take(i + 1).last() == lines@[i as int]@);
        let t = trim_chars(&lines[i]);
        if t.len() > 0 {
            let ghost prev = string_views(res@);
            res.push(string_from_chars(&t));
            assert(string_views(res@) =~= prev.push(t@));
        }
        i = i + 1;
    }
    assert(ls.take(lines.len() as int) =~= ls);
    res
}

/// The task is added under the project as typed or picked: when the
/// project field is not blank, the argument right after the title is
/// `project:` followed by the field trimmed, character for character (case
/// kept); when it is blank, that argument is not a project argument.
pub proof fn law_project_argument_verbatim(title: Seq<char>, draft: MetadataDraft)
    ensures
        task_add_args(title, draft)[0] == "add"@,
        task_add_args(title, draft)[1] == trim(title),
        trim(draft.project_input@).len() > 0 ==> task_add_args(title, draft).len() >= 3
            && task_add_args(title, draft)[2] == "project:"@ + trim(draft.project_input@)
            && task_add_args(title, draft)[2].subrange(8, task_add_args(title, draft)[2].len() as int)
            == trim(draft.project_input@),
{
    let p = trim(draft.project_input@);
    if p.len() > 0 {
        let a = "project:"@ + p;
        assert("project:"@.len() == 8) by {
            reveal_strlit("project:");
        }
        assert(a.subrange(8, a.len() as int) =~= p);
    }
}

} // verus!
