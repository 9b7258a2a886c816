# cage

`cage` runs a command inside a sandbox built from a named policy: which paths
are writable, which are read-only or hidden, how far the network reaches
(none, localhost only, full), and which environment variables pass.

## Layout

- `src/` — the library, verified with Verus:
  - `cli.rs`: the command line, with a model of how it is read;
  - `policy/`: policies, their layering, environment filtering, path
    templates (`~`, `$CWD`, `$NAME`, `${NAME}`);
  - `glob.rs`: `*` / `?` patterns for variable names and commands;
  - `config.rs`: layering configurations, choosing and preparing a policy;
  - `platform/`: the bubblewrap command line (Linux), the seccomp supervisor's
    decisions for localhost-only networking, the Seatbelt profile (macOS),
    the Windows description;
  - `session.rs`: the session directory name and the configuration report.
- `app/` — the program around it: reading configuration files, probing the
  file system, creating the session directory, starting the sandbox.
- `tests/` — tests of the library.
