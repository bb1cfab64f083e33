# asfml

A verified library for reading Apache Pony Mail archives on
`lists.apache.org`, and the `asfml` command line around it.

`src/` is the library, checked by Verus:

- `cookie.rs` reads the `ponymail` session cookie out of a raw value,
  `ponymail=<value>`, a `Cookie:` header or Netscape cookies.txt content;
- `models.rs` holds sessions, list addresses, preferences, emails and threads;
- `thread.rs` finds emails in a thread and resolves direct parents and roots
  by following `In-Reply-To` links;
- `auth.rs` decides whether a session is valid and a list is visible, and
  which session store is used;
- `client.rs` builds the API requests (URL, cookie header) and post-processes
  answers;
- `output.rs` renders emails, threads, errors and the summary table;
- `text.rs` holds the character-level primitives (trim, split, decimals);
- `external.rs` holds the contracts taken on trust for `url`, `chrono` and
  `comfy-table`.

`app/` is the command line: argument parsing, HTTP, JSON, the keyring and the
session file, and printing.
