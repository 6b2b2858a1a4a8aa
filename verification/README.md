# flashq

A job queue server whose queue logic is a verified library.

- `src/` is the library, checked by Verus. `QueueManager` holds the jobs of
  every queue in four lists (waiting, waiting for dependencies, processing,
  dead letter) with an invariant on their IDs (`QueueManager::wf`). Every
  operation states in its contract how the lists, the per-queue tables and
  the counters change: push (debounce, custom IDs, unique keys,
  dependencies), pull (priority/run-time/ID order, groups, concurrency
  slots, rate limits as token buckets), ack and fail (retries with exponential backoff, the dead letter
  queue), timeouts, stall detection, cron jobs, per-job operations
  (cancel, promote, discard, progress, …), per-queue operations (drain,
  purge, retry, clean, obliterate), the job browser, recovery from stored
  jobs, and the NATS naming, routing and leader-election rules.
  Calls into `croner`, `chrono` and `uuid` go through small trusted
  wrappers whose contracts name their results.
- `tests/` runs the library on concrete scenarios.
- `app/` is the server around it: HTTP routes (axum), JSON conversion
  (serde), the clock and the periodic background work (tokio).
