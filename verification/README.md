# paj

Local session discovery, agent-to-agent messaging, job and subagent
bookkeeping, and an editor bridge for Pi coding agents.

The rules of the tool live in a library whose behaviour is stated in
`requires`/`ensures` contracts and proved with Verus; the command-line program
around it reads and writes the runtime directory, runs git, tmux and Pi, and
prints.

## Layout

- `src/` — the verified library.
  - `ids.rs`: identifiers and their textual forms (through `uuid`).
  - `text.rs`, `paths.rs`, `seqs.rs`: trimming, lines, splitting, integer
    parsing, Unix path joining and components, and the stable sort by time.
  - `path_order.rs`: the order of canonical paths and their sorted, duplicate-free
    list.
  - `project.rs`: project identifiers (through `blake3`), search roots, the
    recursive-search predicates and the single-project rule.
  - `registry.rs`: sessions and messages, names, status, staleness, listing,
    lookup and recipient resolution.
  - `jobs.rs`: jobs in the private tmux server: starting rules, command lines,
    pane reports and their effect, lookup.
  - `subagent.rs`: spawn records and the garbage-collection steps.
  - `agents.rs`, `background_agents.rs`: plans of foreground runs and of
    background agents in their own worktrees.
  - `bridge.rs`: the editor-bridge protocol as a step function over events.
  - `cli.rs`: prompt sources, listing parents and the printed lines.
- `app/` — the `paj` program: argument parsing, the stores on disk, and the
  calls to git, tmux, Pi and the bridge socket.
- `tests/` — tests of the library on concrete values.

Run `paj --help` for the commands. `PAJ_RUNTIME_DIR` overrides the runtime
root (`$XDG_RUNTIME_DIR/paj`), and `PAJ_PROJECT_DIRS` sets the project search
roots (`~/Development` by default).
