# darkfi

A verified ring buffer of fixed capacity, and the rules of a chat view that were
separated from its rendering: how chat lines are ordered and where a new one goes,
where day separators stand, which colour a nick gets and how far it extends on a
line, how colours are read from a flat list of components, and how a layer hands an
input event to its children.

- `src/` is the library, verified with Verus.
- `tests/` runs it.
- `app/` holds what the library leaves to its caller: the serde form of the ring
  buffer, the local-time calendar of chat lines (which depends on the machine's time
  zone) and the floating-point height of the chat view.
