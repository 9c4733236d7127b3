# Charge overview

Live charge readback and front-end control for charge diagnostics: wall current monitors, dark
charge, Faraday cups and integrating current transformers.

- `src/` is the library. It holds every decision that the server and its clients make, and Verus
  proves it against its contracts.
- `app/` is the program around it: the server with its sockets, files and processes, the client in
  the browser, and what is computed in floating point.
  It reaches process variables through the command line tools of EPICS base, which must be on the
  path.
- `tests/` runs the library on concrete values.

Some of what the library states, and where:

- A client that was sent a snapshot and then every delta holds what the server holds
  (`buffer::delta_follows_buffer`, `sync::ticks_keep_charts_in_step`).
- The extrema of a rolling buffer are those of its readings, though they are sought anew only when
  one of them leaves (`buffer::is_statistics`).
- A reset of the front-end boxes writes back every trigger that it cut, and pushes the
  sensitivities only after that, whatever fails (`reset::cut_triggers_are_written_back`,
  `reset::reset_accounts_for_triggers`, `reset::reset_ends`).
- No client gets more than ten commands through in any second (`ws::limiter_stays_limited`).
- A request to a front-end box ends at the first post that fails
  (`hardware::first_failed_post_ends_request`).
- The text of an event stream has the same frames however it is cut into pieces
  (`fe_events::frames_do_not_depend_on_chunks`).
- A sensitivity that the server has set itself is no news when the box reports it, neither to the
  device nor to the dark-charge device that shares the box (`fe_events::own_change_is_no_news`,
  `fe_events::own_change_is_no_news_to_companion`).
- Zeroing averages the hundred readings that came last, however small the buffers are
  (`zero::zero_averages_a_hundred_fresh_readings`).
- Where a waveform is flat, or high in places far from each other, no peak window is judged; a
  pulse may be of any width (`peak_check::flat_waveform_is_no_pulse`,
  `peak_check::scattered_heights_are_no_pulse`, `peak_check::one_run_is_a_clear_pulse`).
- What is saved is what the server starts with again (`persist::saved_sensitivity_restores`,
  `lineup::reconciled_keeps_fitting`), and every device is displayed
  (`lineup::reconciled_is_complete`).

The library calls `serde_json` to read and write JSON texts, and `String::push` and
`String::from_utf8_lossy` of the standard library. What is taken for granted of these calls stands
in `src/json.rs`, `src/text.rs` and `src/fe_events.rs`.
