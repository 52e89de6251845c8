# git-sprout

`git worktree add` that clones what an existing checkout can supply and leaves the rest to
git.

Git creates the new worktree without files, and git finishes it: a `reset --hard` writes
whatever is missing and the real index, and the `post-checkout` hook fires once. In between,
files that are unmodified checkouts of the blobs wanted are block-cloned from another
worktree of the same repository.

`src/` is the verified library. It decides; it runs nothing.

| module                | what it decides                                                     |
|-----------------------|---------------------------------------------------------------------|
| `argv`                | what a command line asks for, and which go to git untouched         |
| crate root            | whether a request is accelerated                                    |
| `source`              | which checkout to clone from                                        |
| `verify`              | whether a file may stand in for a fresh checkout                    |
| `sprout::add`         | the course of one request, from its first question to its exit code |
| `sprout::populate`    | the clone phase: every condition for it, and what is reported       |
| `sprout::differences` | which paths git has to be asked about, and what its answers mean    |
| `sprout::materialise` | cloning a plan, and abandoning it at the first failure              |
| `sprout::checkout`    | permissions and times that a checkout would have left               |
| `sprout::finish`      | the reset and the hook                                              |
| `tree`, `paths`, `bytes`, `sprout::text` | trees, paths, byte strings and wording           |

Arguments and paths are byte strings. What a machine of `sprout` asks for is done by whoever
drives it; `app/` does so with processes and files, on top of a `Host` that brings block
cloning, planning, the scratch index and reporting.
