# app-powerd

A user-level daemon that saves battery by suspending applications nobody looks at.
An application in the background is frozen or throttled after a delay, and is
released the moment it is focused again. Everything that is frozen is first
recorded in a journal, so that a daemon that was killed leaves nothing behind that
cannot be resumed.

## Layout

- `src/`: the library `app_powerd_core`. Its functions take plain values: what was
  read of processes, windows and files, and the time. They hand back what is to be
  done, and take the report on it. Every function is verified with Verus against its
  contract.
  - `config`: the configuration, its validation, and the rules.
  - `state`: the state machine of an application, the registry, and the journal of
    what is suspended.
  - `engine`: the decisions on events. `engine/model.rs` says how each event changes
    what the engine knows; `engine/laws.rs` states what follows.
  - `system`: processes, protection, cgroups, and the outcome of operations on
    several processes.
  - `guards`: reasons not to suspend.
  - `desktop`: focus tracking on X11 and Wayland.
  - `ipc`, `cli`: the protocol between client and daemon, and what the client prints.
- `app/`: the program around it: `/proc`, signals, cgroup files, D-Bus, display
  servers, sockets, and the event loop.
- `tests/`: tests of the library. `tests/engine.rs` drives the engine with a simulated
  process table and clock.

## What is trusted

The `regex` crate compiles and matches patterns; `config/pattern.rs` says what is
assumed of it. Of the standard library, `String::push`, `char::is_alphanumeric` and
`str::to_lowercase` are assumed to do what their documentation says.
