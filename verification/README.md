# nzb-news

Layered NNTP download engine for the `nzb-*` usenet crate stack, verified with
Verus.

Persistent per-connection workers, priority-aware article dispatch with
cascade-retry across servers, and pipelined batch fetching. This is a pure
fetch layer: no yEnc decode, no file assembly.

- `src/` is the engine: configuration, try-lists, selection, the scheduler, the
  queues, the workers' decisions, and what a batch's replies mean. Each function
  states what it does, and Verus proves it. The functions named `law_..` state
  what holds of several of them together: no item is lost or resolved twice, a
  server is only asked once every enabled server of a higher priority has
  failed, retries are bounded, no queue outgrows its cap, a worker reports each
  item that it takes once and keeps its pipeline saturated, counters say what was
  emitted.
- `app/` owns the tasks, channels and sockets: it performs what the engine
  decides, and hands back what happened. How long a server rests after an error,
  and whether it takes work at the moment, comes from the embedding application
  through the `Policy` trait.
- `tests/` runs the engine on concrete values.

What is trusted rather than proved: the default configuration, the error texts
and the request queue of `nzb_nntp`, and the quoting of strings by the standard
library. Each stands behind an item whose comment says what is claimed of it.
