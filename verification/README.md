# wcl_tools

Tools for Warcraft Logs reports, written in Verus.

- `src/` is the verified library:
  - `assignments`: dynamic timers and the extraction of a priest's cast assignments from a
    combat log, with their note-line text;
  - `healing`: the spell table parser (`Name: <name> (id=<id>)` lines) and the healing
    analysis that ranks each judged heal's target among the living players by health;
  - `warcraft_logs::combat_log` and `warcraft_logs::report`: the event and report types,
    the fight's actor and difficulty lookups;
  - `text`: decimal writing and reading of integers, byte search, whitespace trimming.
- `app/` is the command line program: the GraphQL client for the Warcraft Logs API, the
  serde shapes of its answers, file reading and printing.
- `tests/` runs the library on concrete logs and spell tables.
