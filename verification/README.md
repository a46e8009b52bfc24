# novel_core

The core of a desktop novel-writing workspace, written in Verus: the domain
types of books, chapters, blocks and canon; the writing protocol that cuts a
chapter's blocks into graded training examples; block editing; context
assembly under a token budget; the matching signals behind writing hints;
the event-stream parser and reply handling of model clients; the secret
vault's state machine; and the queue's retry and idempotency rules.

Layout:

- `src/` — the verified library. Each module states its behaviour in
  `requires` / `ensures` clauses over spec functions; public `proof fn`s
  state the laws that span functions (for example, that a secret written is
  what the next lookup answers, or that feeding an event stream in two pieces
  yields what feeding it at once does).
- `tests/` — executable tests of the library on concrete values.
- `app/` — what surrounds the library and is not verified: JSON forms of
  exported data, floating-point scores, keychain and file access, HTTP
  transport of the model clients, and workflow conditions over JSON payloads.
