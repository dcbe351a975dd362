# session_import

Opens an [opencode](https://opencode.ai/) session in the current directory. A session that
belongs to the project of the current directory is resumed in place. Any other session is
copied: it is exported, given new identifiers throughout, and imported again, so that the
exported session stays as it is.

`src/` is the library, verified with [Verus](https://github.com/verus-lang/verus):

- `json`: documents as plain values; `codec`: reading and writing them by `serde_json`
- `text`: digits, order of text, white space; `clock`: milliseconds since the epoch
- `id`: identifiers, and in what order they sort
- `copy`: what a copy of an export says; `draw`: making its identifiers; `rewrite`: making it
- `laws`: what holds of every copy
- `import`: the steps of a copy, from the export to the import
- `project`: whether a session belongs to the current directory's project
- `keys`: what the keys do while a session is asked for

`app/` runs the programs, writes the file and shows the prompt. `tests/` holds the tests.
