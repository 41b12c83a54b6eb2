# ds_free_api

Chat completions over a pool of accounts of a text-only service, verified with Verus.

- `src/` is the library. It turns a request into a prompt, reads tool calls back from whole
  and from streamed answers, hands out accounts and says which calls initialise an account.
  `src/lib.rs` gives an overview of its modules.
- `tests/` runs the library on concrete values.
- `app/` is the asynchronous code around the library: the service behind the accounts, the
  pool shared between tasks, and streams of chunks.
