# accesskit_web

The core of an AccessKit adapter for the web, verified with Verus.

- `src/adapter.rs`: the adapter's lifecycle. It starts waiting, remembering the host
  window's focus state, until the application supplies a tree, and then holds
  the tree and the elements that mirror it.
- `src/registry.rs`: the map from node ids to DOM elements, and what each
  reported tree change (node added, updated, removed; focus moved) does to it.
- `src/elements.rs`: which element kind mirrors a node's role, and how clicks,
  key presses, changes, pastes and input events become action requests.
- `src/walk.rs`: the depth-first walk that mirrors a new tree, skipping the
  subtree of a node whose element could not be made.
- `src/attributes.rs`: the ARIA attributes (`aria-label`, `aria-checked`)
  that mirror a node's properties, and the updates that keep them in line.
- `src/error.rs`: the error raised when a DOM call throws.
- `app/`: the DOM side, built on `web-sys` and `accesskit_consumer`, which
  runs the library's decisions.
