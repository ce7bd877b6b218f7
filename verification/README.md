# codex_messages

Two small parts of a command-line client, verified with Verus:

- `l10n`: localized messages. A locale is chosen once, from an explicit code or from the
  environment; messages are looked up by ID in an embedded bundle, with `{var}` placeholders
  substituted. A message without a translation is its own ID.
- `history`: bounded lookups in an append-only JSONL history log. A lookup reads the log forward
  and returns the newest rows at or before an absolute offset, within a row cap and a byte cap.

`src/` is the verified library. Each function states its result in `ensures`; the `laws` modules
hold what relates several functions. The lookup is a machine that takes events and asks for
actions, so that the file system stays outside of it.

`app/` is the ordinary Rust around it: the process-wide locale, the environment, and the file that
a lookup is driven on. `tests/` runs the library.
