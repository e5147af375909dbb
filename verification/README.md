# upgrade_core

A verified library for preparing a major Debian upgrade, and the command-line
backend built on it.

- `src/` is the library, proved with Verus.
  - `session.rs`: each task (release check, APT sources, third-party
    sources, package preparation, simulated upgrade, offline scheduling,
    postponing the notification, the full pipeline) as a state machine.
    A `Session` takes the system's reply to its last request and gives the
    events to report and the next request; `step_spec` says exactly what
    each step does.
  - `properties.rs`: what every session keeps (its context, no change to
    the system in dry-run mode, debug events only in debug mode, a final
    `Finish`), and that dry-run mode reports what a real run changes.
  - `release.rs`, `sources.rs`, `third_party.rs`: reading `/etc/os-release`
    and the archive's `Release` files, moving APT suites to the new
    codename, and disabling third-party sources.
  - `stream.rs`: cutting a running command's output into report lines.
  - `ui.rs`: what the graphical assistant decides (event display, the
    bounded log pane, the privileged agent's protocol, the sources offered
    for reactivation).
  - `agent.rs`: driving the privileged agent through a list of backend
    subcommands, as a state machine the program around it feeds.
  - `screens.rs`: the assistant's run context, and what it shows once the
    sources are validated, after a privileged retry, and around the reboot.
  - `protocol.rs`, `model.rs`, `text.rs`: requests and replies, the event
    model, and text helpers with their specifications.
- `app/` performs the requests on the real system (files, network, commands)
  and prints each event as a JSON line; `app/agent.rs` holds the process and
  file work of the graphical assistant's privileged agent, and feeds the
  agent driver of `src/agent.rs`.
- The graphical assistant's window itself is not built here: its interface
  toolkit is not among the dependencies. Its decisions are in `src/ui.rs`,
  `src/screens.rs` and `src/agent.rs`; `app/agent.rs` is the process work it
  would call, and the command-line binary does not call it.
- `tests/` runs the library on concrete values.
