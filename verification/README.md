# rigger

The record of a line of projects - what is done, what is next, when it
ships - and the screens derived from it: the context packet a coding
assistant starts a session from, the owner's inbox and digest, the release
calendar, the MCP server's tools.

The library under `src/` is written in Verus: each function states what it
does in `requires`/`ensures` over mathematical models (`Seq`, `Map`, `int`),
and Verus proves the code meets it. Laws that span functions are public
proof functions named `law_*`.

The record itself is modelled as plain values: a project's stages with
their versions and tasks (`record`), the rows a reading writes against
(`recorded`), the projects and cards the assistant's pen writes against
(`pen`), the facts a packet and the health check are built from (`context`,
`doctor`). What the library decides over them - importing a hub, building a
packet, a writing tool's edit, what the check reports - is verified; reading
and writing the SQLite database and asking git are not part of this crate,
which takes neither `rusqlite` nor `gix`.

- `text`, `number`, `order`: characters, decimal numbers and sorting, the
  ground the rest stands on.
- `hub`: reading a hub's markdown files into stages, decisions, questions,
  diary entries, prose and state lines.
- `record`, `recorded`, `import`: importing a hub into the record of its
  stages, and that importing it again is quiet; the stage being built, and
  a version with the release before it.
- `calendar`, `ics`, `moment`: ISO weeks, the release calendar and its grid,
  the iCalendar file; the calendar arithmetic itself is jiff's.
- `context`, `page`: the context packet and a card's page, each within a
  token budget, with what the budget left out counted.
- `owner`: the inbox of questions and the digest.
- `mcp`, `pen`: which methods the server answers, its tools, what a writing
  tool writes and what it says.
- `doctor`: the health check's findings, the hubs the record cannot vouch
  for, and what closing a session does and reports.
- `retro`: the look back over a window of weeks.
- `db`, `profile`, `link`, `card`, `delivery`, `commit`, `gate`, `doc`,
  `answers`, `activity`, `kasl`, `line`, `open`, `adopt`, `paint`: the rules
  of the record and of its neighbours.

`app/` is the command line around the library: reading files and the clock,
running programs, the config file, printing. It is not verified. The record
it works on is a JSON file of stages (`rigger import`, `rigger stage`,
`rigger version`); the health check and the look back read JSON files of
the facts they judge.
