# rek2_nntp

An NNTP client library (RFC 3977, RFC 4643) for reading, listing and posting
articles over TLS, with its protocol logic verified in Verus.

## Layout

- `src/` — the verified library. Each command (`AUTHINFO`, `GROUP`, `LIST`,
  `NEWGROUPS`, `NEWNEWS`, `HEAD`, `BODY`, `STAT`, `ARTICLE`, `XOVER`, `POST`,
  `QUIT`) is a small state machine: `start` says what to send and how to read the
  reply, `on_reply` takes the reply and `on_line` the lines of a multi-line
  block, until the session hands back its result. The contracts state the exact
  command text, which replies are accepted, and what is made of the lines read
  over the whole exchange; multi-line blocks follow RFC 3977's dot rule (a leading
  `.` is doubled when sending and undoubled when reading).
  - `text.rs`: whitespace, trimming, splitting, decimal numbers.
  - `command.rs`: the command lines.
  - `utils.rs`: decoding received lines, waiting for an expected reply.
  - `session.rs`: the steps of an exchange and multi-line blocks.
  - one module per command.
- `app/` — the asynchronous client on top of the library: TLS connection, login,
  and the network I/O each session asks for (tokio, native-tls).
- `tests/` — tests of the library on concrete exchanges.
