# connect_padding

Optional padding for TCP CONNECT streams. Each direction of a padded stream
frames its first eight payload records, with a random amount of padding after
each, and carries later bytes as they are.

- `src/` is the library. Its contracts and laws are proved with Verus.
- `app/` runs the library on asynchronous pipes: the library decides what to do
  next, and `app/` does it on the stream underneath.
- `tests/` runs the library on streams in memory.
