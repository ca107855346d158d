# gtd

A task manager after *Getting Things Done*, over an append-only event log. The
library under `src/` holds its rules, stated as contracts and proved with Verus;
the program under `app/` puts SQLite, HTTP and a terminal around it.

## The model

- A task belongs to one list (`in`, `next-action`, `waiting-for`,
  `someday-maybe`, `archive`) and is in one state (`pending`, `doing`, `done`,
  `trash`). Only `archive` holds tasks that are `done` or `trash`.
- Every change appends one event with the next revision. An event records the
  task after the change and, unless it creates the task, the task before it.
- The current state of a task is what its last event left. An update names the
  revision that it expects; if another update came first, it is refused.
- Compaction closes history through a revision and removes the events that a
  later one within the closed part supersedes.
- A watcher reads the log from a revision onwards and sees each change that its
  filter matches on either side.

## The library

| Module | What it holds |
| --- | --- |
| `domain` | tasks, events, filters, and the names and texts of their parts |
| `rules` | which descriptions, labels and changes are accepted |
| `repository` | the event log: creating, updating, reading, compacting |
| `listing`, `replay`, `compaction` | what a list, a reading and a compaction give |
| `rows` | how an event is stored and read back |
| `history`, `laws`, `roundtrip` | what holds across several operations |
| `api`, `watch` | how requests are read, and how a watcher goes on |
| `client`, `commands` | what a client sends and what the command line prints |
| `sessions`, `screens` | the interactive sessions and what they show |
| `labels`, `text`, `numbers`, `sequences`, `errors`, `ids`, `clock` | what the others share |

The library trusts a few outside functions, each behind a wrapper whose comment
says what is claimed of it: the text, reading and drawing of UUIDs (`ids`), JSON
for label maps (`rows`), the present time (`clock`), the width of a text
(`screens`), and two methods of `String` (`text`).
