# forge

Forge is a Lua-powered project scaffolder: it runs templates from local
(`.forge/templates/`), global (`~/.forge/templates/`) or package
(`~/.forge/packages/`) directories, renders `.tpl` files, prompts for inputs
and runs controlled commands.

## Layout

- `src/` is the library, verified with Verus. Each module states its
  behaviour as contracts over mathematical models (`Seq`, `Map`, views):
  - `cli`: the command-line grammar;
  - `manifest`: `manifest.toml` validation;
  - `templates`: template resolution, trust decisions, validation;
  - `render`: `{{ expr }}` and `%{{ literal }}%` templates, directory rendering;
  - `lua`: the runtime's policies (exec checks, argument prompts, program
    helpers' command lines);
  - `paths`: path joining and the sandbox checks;
  - `config`, `storage`, `trust`, `packages`: the stored state and how each
    command changes it;
  - `checksum`, `order`, `strmap`, `text`, `casing`, `stdlib`, `scaffold`:
    supporting algorithms.
  The public proof functions named `law_*` state the properties that hold
  across operations (a read gives back a write, trust lapses when files
  change, resolution precedence, and so on).
- `app/` is the `forge` program: argument reading, files, terminal, processes
  and the Lua interpreter, calling the library for every decision.
- `tests/` runs the library on concrete values.
