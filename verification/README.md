# aip

`aip` manages AI image projects: projects with a style prefix, assets that
move through a fixed pipeline (concept, prompt ready, generated, confirmed),
versioned prompts written as seven-section directing sheets, a JSON rule
engine that checks prompts, and a terminal view over all of it.

## Layout

- `src/` is the library, verified with Verus. Every public function states
  what it returns in `ensures`; the laws of the library stand as public proof
  functions (`lemma_*`).
  - `text.rs`: the string operations the rest builds on (search, trim,
    split, decimal numbers), with their specifications.
  - `rules.rs`: the rule engine (keyword lists, section checks, duplicate
    words across sections, regex captures with allowed values and ranges).
  - `prompt.rs`: the gates before a prompt is saved, version numbering,
    sheet status, history order.
  - `asset.rs`: the asset pipeline, asset types and folders, image names.
  - `project.rs`, `git.rs`, `skill.rs`: project metadata, commit lines,
    repository names and the skill commands' decisions.
  - `tui.rs`: navigation of the terminal view as a state machine.
- `tests/`: tests of the library on concrete values.
- `app/`: the command line around the library: argument parsing (clap),
  files and JSON (serde), git (git2), downloads (ureq) and drawing
  (ratatui, crossterm).

The library calls two outside crates itself: `regex-lite` for the regex
rules and `chrono` for commit times, each behind one small function whose
contract is stated over a named result.
