# reddit_tui

A terminal browser for reddit: a list of posts, the focused post with its
comment tree (expandable node by node), a command line (`home`, `goto
<subreddit>`, `search <query>`, `q`) and a status log.

The browser's logic is a library verified with Verus; the program around it
is plain Rust.

- `src/` — the verified library:
  - `text.rs`: characters, decimal numbers, Unicode whitespace, trimming,
    lines, paragraphs and words;
  - `json.rs`, `model.rs`: a JSON document model and the extraction of posts
    (from a listing) and comment trees (from a thread);
  - `fetch.rs`: where content comes from, response statuses, fetch errors,
    the search address;
  - `helpers.rs`: counting wrapped rows, word wrapping, the command history
    file and its contents, the plans for opening a browser (the address
    passed as one single-quoted shell word) and viewing media;
  - `pane.rs`, `app.rs`: the browser state and how commands, keys and loaded
    content change it;
  - `tree.rs`: addresses in a comment tree and the facts about its flattened
    rows;
  - `laws.rs`: properties across operations (the state's invariant, toggling,
    keys that undo each other, what the rows show, the notice's lifetime);
  - `render.rs`: the texts and rectangles that the screen shows.
- `app/` — the terminal, the network, the file system, threads and drawing
  with ratatui.
- `tests/` — tests of the library on concrete values.
