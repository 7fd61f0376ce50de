# enact_core

A local runner of GitHub Actions workflows whose logic is verified with
Verus: the expression language (lexer, parser, evaluator and built-in
functions), the workflow model and its checks, job ordering, matrix
expansion, path confinement, the emulated actions' decisions, and the
decisions the runner takes around each workflow, job, step and composite
action.

- `src/` is the verified library. Each public function states in its
  contract what it returns; the laws the library keeps (ordering of jobs,
  matrix counts, map reads after writes, environment precedence, distinct
  event names) are public proof functions.
- Where a result depends on the file system (path confinement, finding an
  action), the answers of the file system are plain values (`Probe`, a
  canonical path or its error) and a public decision function takes them
  and has an exact contract: a path that exists is accepted only when its
  canonical form lies under the canonical jail, root, workspace or cache,
  and one that does not only when each existing prefix on the way does. Each
  answer is recorded against the path it was asked about
  (`exists_answer`, `canonical_answer`), so the function that asks the file
  system states that its result is the decision for the answers given
  about exactly the paths it names; what the answers were is left to the
  file system.
- `app/` is the `enact` command: argument handling, YAML reading, logging,
  running shells and `git`, and the file work of the emulated actions. It
  performs what the library decides and hands back what came of it.
- `tests/` runs the library on concrete inputs.
