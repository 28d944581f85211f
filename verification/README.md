# tangl

tangl manages a git repository as a feature model. Branch names follow a
convention (`_main/_feature/foo` is the feature `foo` under the feature root
of the area `main`), and tangl reads the tree of areas, feature and product
roots, features and products out of them. On that tree it navigates like a
shell (`..`, `.`, absolute paths), test-merges branches to find conflicts,
and derives products from features in a staged, resumable process whose
state travels in commit messages.

## Layout

- `src/` is the verified library, checked with Verus:
  - `base/` and `model/`: paths through the tree (parsing, printing,
    joining, git branch names), node types, the tree itself and paths into
    it, filters over paths, commit metadata records.
  - `git/`: the git command lines the tool runs and the parsing of git's
    output (`interface`), the bookkeeping of test merges, the conflict
    matrix and the greedy merge order (`conflict`), errors.
  - `spl/`: the derivation state machine (start, continue, reorder, abort,
    revert, update) and the inspection of derivation history.
  - `cli/`: the decisions and messages of each command, and argument
    completion.
  - `text.rs`: string operations with their specifications.
- `app/` is the command-line program: argument parsing, running git,
  printing, colours, serialisation of metadata, and the loops that alternate
  git calls with the library's decisions.
- `tests/` exercises the library on concrete values.
