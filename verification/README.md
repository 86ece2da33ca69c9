# rocs

Serves a folder of Markdown documentation as a website: `README.md` is the
index page of each directory, fenced code blocks are highlighted, and in watch
mode the browser reloads when the folder changes.

- `src/` is the verified library:
  - `path.rs`: paths as `std::path::Path` reads them (components, file name,
    extension, joining), with the proof that a path of plain names joined to a
    folder stays below it.
  - `page.rs`: the steps that turn a request into a file to read, or into
    "not found"; the page template.
  - `markdown.rs`, `highlight.rs`: rendering through `pulldown-cmark` and
    `syntect`, and the pass that replaces fenced code by highlighted HTML.
  - `watch.rs`: when a change is announced (debouncing).
  - `routes.rs`: the server's own addresses and reload events.
  - `text.rs`: character and string helpers.
- `app/` is the server: command line, axum routes, file-system calls, the
  notify watcher and the embedded page assets.
- `tests/` runs the library on concrete inputs.
