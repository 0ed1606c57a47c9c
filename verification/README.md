# clin

The verified core of `clin`, a terminal note manager that reads an
Obsidian vault: Tasks-plugin checklist items and their query language, the
Daily Notes plugin's note names and appends, obsidian-contacts birthdays,
and note frontmatter.

- `src/` is the library, written and proved with Verus. Each module states
  what its functions compute as spec functions over sequences, maps and
  integers, and the `law_*` proof functions state properties that relate
  several functions or hold for every input.
  - `text`, `date`: character-level helpers and calendar dates.
  - `markdown`, `signifiers`, `tasks`: reading checklist items out of a
    note (Markdown parsed by `comrak`), their emoji signifiers, statuses,
    filters and sorting.
  - `tasks_query`: the multi-line query language.
  - `daily_notes`, `contacts`, `frontmatter`, `cli`.
- `tests/` exercises the library on concrete values.
- `app/` is the `clin` program: command-line parsing with `clap`, files,
  the clock, and YAML decoding with `serde`.
