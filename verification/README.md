# gitenv

gitenv keeps configuration files that live in a repository in place in the
home directory, as symlinks or copies. `gitenv` reports, entry by entry,
whether each one is set up; `gitenv apply` sets up what is missing, by a
conflict policy for what is already there. The repository named in the
configuration can be overridden with the `GITENV_REPO` environment variable;
`--log-level` shows the events each stage reports.

## Layout

- `src/` is the library, verified with Verus. Every stage is a function of
  its input and of the answers gathered so far from the outside world: it
  either finishes or names the next question (an environment variable, a
  directory probe, a configuration file, a readability check, a directory
  listing, a path's kind, a change to make).
  - `config`: the configuration model, its shorthand spellings and its
    structural validation.
  - `intent`: the intent plan of a configuration and of its includes
    (environment-backed sources, guards, include cycles).
  - `operation`: the concrete operations of an intent plan (selections
    expanded depth first in name order, exclusions, unavailable sources).
  - `status`: what inspection finds at each target.
  - `actions`: the changes apply makes, by conflict policy.
  - `cli`, `color`, `logging`, `errors`: rendering of outcomes, errors and
    log lines.
  - `commands`: the `info` and `apply` commands, end to end, with the
    repository root chosen by precedence and the events of every stage.
  - `filesystem`: a model of the file system apply changes and inspection
    reads, with the laws that tie the two together.
  - `glob`, `text`: exclusion patterns, paths and the orders of texts and
    paths.
- `app/` is the program: argument parsing, configuration files, the real
  file system, and the loop that answers the library's questions.
- `tests/` exercises the library through its public interface.
