# bendengine

The context engine of a coding agent: it estimates how large a conversation
is, decides what to keep when it grows too large, and compacts it.

- `src/` is the library, verified with Verus. Every public function states
  what it returns in its contract; `proof fn`s state the laws that hold
  across calls.
  - `tokens`, `context`: token estimates, context tracking, the tiered
    compaction (truncate, summarize, drop) and execution limits.
  - `compaction`: the planner, the structural pass pipeline (reclaim,
    microcompact, shrink, collapse, evict), markers and memory extraction,
    the controller's decisions, session planning, provider-native
    compaction items, and `prune`, the judge-driven pruning ledger.
  - `agent`: the editable prompt queue.
  - `api`: which protocol a model is spoken to with, the chat-completions
    request body and the endpoints, and reading a provider's reply
    (Anthropic and OpenAI event streams, or plain JSON).
- `app/` is the runtime around it: the judge rounds run concurrently, the
  prompt queue shared behind a lock, serialisable records, the environment,
  and the providers' HTTP exchange (serialising requests, sending them,
  receiving the reply body).
- `tests/` exercises the library from outside.
