# gemini-web-image

Image generation through the web Gemini app by cookie replay, with the
decision logic written in Verus and proved against its contracts.

- `src/` is the verified library. It reads Netscape cookie exports
  (`cookies`), re-mints the short-lived session cookie and applies the
  `Set-Cookie` answers to the jar (`rotate`), scrapes the session tokens from
  the app page (`auth`), builds the `StreamGenerate` and `batchexecute`
  requests (`generate`, `download`), splits Google's length-prefixed frame
  streams (`frames`), reads the generated images and the download url out of
  the answers (`images`, `download`), and walks the `alr=yes` redirect chain
  (`download::AlrWalk`). HTTP exchanges are described as `request::HttpRequest`
  values; nothing in `src/` touches the network or the disk.
- `app/` sends those requests with `wreq` (Chrome TLS emulation), reads and
  writes files, and holds the async `Client`.
- `tests/` runs the library on concrete inputs.

Verify with Verus; the outside crates `regex`, `serde_json` and `uuid` are
called behind trusted wrappers whose contracts are stated in their doc comments.
