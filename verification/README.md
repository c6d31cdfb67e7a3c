# Portboard

Dev servers, ports, and URLs, one Git worktree at a time. Portboard finds the processes and TCP
listeners of a worktree, tells which of them run a target of its `portboard.toml`, and opens,
starts, and stops those targets without mixing up projects.

## Layout

- `src/` is the library, written in Verus: every function states what it does in `requires` and
  `ensures`, and Verus proves it. It reads nothing and writes nothing itself. Where work and
  decisions alternate, it says what is done next: `open_or_start_launch_target`,
  `ensure_launch_target_in_herdr`, `stop_launch_target`, `wait_for_launch_target_ready` and
  their like take a step and what came of it, and give the next step.
- `app/` is the `portboard` command around it: files, `/proc`, sockets, Git, Herdr, the terminal
  and the documents that serde reads and writes.
- `tests/` runs the library on concrete values.

## What is proved

Each module ends in, or holds next to its functions, public proof functions that state what
holds of all inputs. Some of them:

- Processes of other worktrees, and the one that looks, are never taken for runs of a target
  (`launch_target_processes`).
- Metadata counts only for a live run of its target (`runtime_metadata`), and a reservation only
  for the exact process that it was made for (`launch_target_lock`).
- Nothing is started without approval on the command line (`launch_target_open`), and a changed
  manifest revokes what was approved before (`manifest_approval`).
- A stop is reported, and its tab closed, only behind confirmed shutdown (`launch_target_stop`).
- The dashboard changes nothing for a request without its host and token (`dashboard_server`).
- Arguments reach a program as they stand in the manifest, through the shell of a pane
  (`herdr_workspace`).

## What is trusted

The functions marked `#[verifier::external_body]`, and `String::push`, call other crates or the
standard library. The comment above each says what is believed of it.
