# devcontainer-env

Bridges devcontainers and the host environment: `devcontainer-env export`
prints the environment that a devcontainer declares, with every service URL
that points at a container rewritten to the host port that Docker published
for it; `exec` runs a command in that environment; `inspect` describes the
workspace.

The library under `src/` is verified with Verus:

- `text` — decimal rendering and parsing of port numbers, prefix stripping,
  splitting and joining;
- `env` — `KEY=VALUE` parsing, runtime values overriding declared ones, and
  the collapse of a variable list into a map;
- `container` — containers and port mappings, built from what the Docker
  daemon reports;
- `urls` — the questions asked of the `url` crate;
- `workspace` — URL rewriting and the workspace description;
- `query` — the label filters and the search for a workspace's containers;
- `json`, `report`, `cli` — what the commands print and run.

`app/` is the command line around it: clap, the Docker daemon, the
configuration file, the process to run, and the output stream.
