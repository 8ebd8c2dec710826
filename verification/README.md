# svoote

A live-poll service: a host builds slides (multiple-choice questions and
open questions answered in a word cloud), starts a poll and shows it;
participants join with a short number, answer each slide once and send emoji
reactions, and the host sees the statistics as they come in.

- `src/` is the library, verified with Verus: slides and their answer tallies
  (`slide`, `free_text`, `tally`), the running poll with its participants
  (`live_poll`), the registry of running polls (`live_poll_store`), the checks of
  a poll as the host sends it (`polls`), session ids and languages
  (`session_id`, `language`), the host connection's decisions (`host`), static
  asset bundles (`static_file`), word-cloud counting (`word_cloud`) and string
  helpers (`text`).
- `app/` is the web server around it (axum, maud, tokio): routes, pages,
  cookies, websockets, the tasks that run each poll, and reading files.
- `tests/` runs the library on concrete inputs.
