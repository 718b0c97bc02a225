# fix-engine

Applies pattern-based fixes to code that has to migrate, and describes the
work that is left to a language model or to a person. The input is the output
of a Konveyor analysis, and files of strategies that say what to do about each
rule.

- `src/` is the library, verified with Verus. Every public function says in its
  contract what it gives; `src/laws/` states what holds of the library as a
  whole.
- `app/` is the program around it: arguments, files, processes and services.
- `tests/` runs the library on concrete values.

## Modules

| Module | What it holds |
|--------|---------------|
| `engine` | planning, removing overlaps, merging, applying, diffs |
| `js`, `java` | what depends on the language of a project |
| `input` | reading the results of an analysis and strategy files |
| `strategy`, `report`, `model` | strategies, analysis results, plans and reports |
| `registry`, `context` | what a rule set tells a language model |
| `cli`, `answers` | the decisions and the lines of a run |
| `workspace` | the files that planning and applying look at |
| `text`, `paths`, `table`, `order`, `views` | texts, paths and ordered tables |
| `json`, `yaml`, `konveyor`, `pattern`, `syntax_check` | calls into other crates, each behind a stated contract |
| `laws` | statements about several operations, or about every input of one |
