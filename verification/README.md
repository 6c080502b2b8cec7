# tetherscript

Deterministic building blocks for a scripted browser agent, verified with
Verus. Every public function states its result in `ensures` over
mathematical models (`Seq`, `Set`, views of the library's types), and the
laws of the library are public proof functions.

## Layout

- `src/document.rs` — the recursive document model (elements, attributes, text).
- `src/browser_dom.rs` — the arena DOM with stable ids and parent/child links,
  conversion to and from documents, and CSS selector queries (`src/selector.rs`
  parses selectors).
- `src/dom_tree.rs` — path-addressed DOM operations of the page bindings:
  attributes, text, markup, insertion and removal, script collection, node
  search, node properties.
- `src/events.rs` — listener and handler registration and dispatch order.
- `src/url.rs`, `src/fetch.rs`, `src/storage.rs`, `src/timers.rs` — the page's
  `location`/`URL`/`URLSearchParams`, `fetch`/`Headers`/`Response`,
  `localStorage`/`sessionStorage`, and the FIFO timer queue.
- `src/value.rs` — host values, their text and JSON forms.
- `src/origin.rs`, `src/authority.rs`, `src/call_args.rs`, `src/trace.rs` — the
  capability gate for a remote browser: origin and scope checks, method
  payloads, narrowing, and the call trace.
- `src/bridge.rs` — the readings of a bridge reply's status line, headers and status.
- `src/browserctl.rs` — browserctl action scopes and request mappings.
- `src/navigation.rs`, `src/resources.rs` — document requests, redirects,
  subresource inlining and cross-origin checks.
- `src/agent.rs` — pointer and touch event scripts, viewport resizing, page
  regions, element fingerprints.
- `src/report.rs` — script run results and the compatibility report as host values.
- `src/text.rs` — character-level string helpers.
- `app/` — the HTTP bridge client, the clock, and the floating-point scores.
