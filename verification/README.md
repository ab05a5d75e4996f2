# hermes

`hermes` installs curated OpenCode skills, agents and commands from shared
source libraries into a project's `.opencode/` workspace, records what it
installed in `.opencode/catalog.toml`, and keeps those copies in step with
their sources (`install`, `list`, `sync`, `remove`, `doctor`, `configure`,
`init`).

## Layout

- `src/` — the library, verified with Verus. It holds every decision the
  tool makes, over plain values: frontmatter splitting and metadata checks,
  discovery of grouped libraries and withdrawal of duplicate names, the
  selection tree of the interactive screen and what each key does, what
  `install` selects and when it may overwrite a copy, the catalog updates,
  content hashes, what `sync`, `remove` and `doctor` decide, and the text
  every command prints. Properties that span functions (reading back what
  was recorded, unique and sorted catalog names, the tree's leaves, key
  round trips, a skill hash that depends only on the paths and bytes of the
  files it covers) are proof functions
  next to the code they are about.
- `app/` — the `hermes` program: command-line parsing, file-system and
  terminal work, TOML and YAML decoding, and the loop of the interactive
  screen. It hands the library what it read and performs what the library
  decided.
- `tests/` — tests of the library on concrete values.

The SHA-256 digest comes from the `sha2` crate; the library states of it
only that it is the digest of its input and has 32 bytes.
