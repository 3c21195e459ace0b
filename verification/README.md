# agentos_web

The web interface of an agent kernel, with its rules verified in Verus.

- `src/` is the verified library: which routes there are, who may pass, what a form is
  refused for, how chats, conversations and files are kept, what a running reply holds for a
  browser that comes back to it, how pipelines are drawn and read back, and how values are shown.
  Each function states in its contract what it returns and what it changes. The laws that span
  several functions are proof functions whose names begin with `law_`.
- `tests/` runs the library on concrete values.
- `app/` is the server around it: sockets, files, the database, the templates and the calls to
  the kernel, which it reaches through the `Kernel` trait.

What the library takes from other crates stands behind small functions marked
`external_body`. The comment above each names the outside function and says what is relied on.
