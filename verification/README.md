# terb

A blog generator for the terminal: `terb -I` sets up a blog (directories, a TOML
configuration and two Liquid templates), `terb -G` renders every markdown post of
`posts/` into `out/posts/` and writes the list page, and `terb -S` serves `out/` on
port 7878.

- `src/` is the library, verified with Verus: markdown metadata (title and date of a
  post), the stable newest-first ordering of the post list, file stems and path joins,
  the configuration schema, the page variables handed to Liquid, the routing of HTTP
  requests and the command line.
- `app/main.rs` is the program: prompts, files, the TCP listener.
- `tests/` exercises the library with the real markdown, TOML and Liquid crates.
