# editor

A terminal markdown editor for the blog posts and project pages of a static
site. Entries are markdown files with a YAML-like frontmatter block.

- `src/` is the library, written and proved with Verus: the line buffer and
  its cursor (`editor::buffer`), frontmatter extraction, writing and
  validation (`editor::frontmatter`), the editor of one entry (`editor`),
  key decoding (`key`), the screen state machine (`app`), the layout and
  parsing of entry files (`storage::local`), the content service's
  addresses and requests (`storage::remote`), the text the screens show
  (`ui`), and the character grid that the browser build turns into ANSI
  text (`screen`). The app asks for storage work by returning a `StorageRequest` from
  `App::handle_key` and takes the answer through `App::handle_reply`.
- `app/` is the program around it: the terminal loop, file and network
  storage, drawing with ratatui, and the browser build.
- `tests/` runs the library on concrete inputs.
