# lentil

The verified core of lentil, a small desktop window for capturing tasks
into Taskwarrior: a title, then project, due date, priority and tags,
one step at a time (`Ctrl+D` forward, `Esc` back).

- `src/` is the library, proved with Verus:
  - `config`: the settings file reader (`key = true|false` lines);
  - `capture`: the order of the form's steps;
  - `session`: the whole form as a state machine — keys, inputs, clicks,
    and the effects (read a due date, add the task, close the window) it
    asks its caller to carry out;
  - `due`: due-date forms (`dd`, `dd/mm`, `/mm`, `dd/mm/YYYY`,
    `/mm/YYYY`), the questions put to `date` and the reading of its answers,
    the month calendar;
  - `suggest`: tags, suggestion scoring and ranking;
  - `task`: the `task add` command and Taskwarrior's answers;
  - `text`, `num`, `order`, `draft`, `command`: the text, number and
    ordering helpers and plain data they share.
- `app/` is the Dioxus desktop window: it draws the form, starts `date`
  and `task`, and reads the settings file.
- `tests/` runs the library on concrete cases.
