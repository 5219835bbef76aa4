# extract_file_context

A desktop tool that gathers the source files of a project into one text
(Markdown or plain text), with a drawing of the project structure, ready to
paste into a language model. It can also compact that text ("minify").

The logic is a library verified with Verus; the window is a thin eframe
program around it.

## Layout

- `src/` — the verified library
  - `config.rs` — languages, their extensions, the default ignored folders
    and extensions, the language filter
  - `tree.rs` — the file tree shown in the window: counts, check boxes,
    inversion, collected paths, name search
  - `scan.rs` — the decisions of a folder scan: which entries are kept and
    in which order, and how nodes are assembled from them
  - `tree_text.rs` — the text drawing of the project structure
  - `extract.rs` — the text of an extraction from what reading each file gave
  - `minify.rs` — the line splitting of `str::lines` and the compact form
  - `app.rs` — the window's state and what each action does to it
  - `order.rs`, `text.rs`, `paths.rs` — orderings, character sequences and
    paths used by the rest
- `tests/` — tests run against the compiled library
- `app/` — the eframe window, file system access, the file dialog, the
  clipboard and the worker thread

Each public function states its result in `ensures` over spec functions;
the `law_*` proof functions state properties that span several calls, such
as that inverting the selection twice restores it, or that the drawing of
the project structure does not depend on the order of the files.
