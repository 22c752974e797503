# agenterm

ZMODEM file transfer for a terminal, as a verified library.

- `wire`, `zmodem_detector`: headers on the wire, and the bounded, lossless
  detection of transfer starts in an ordinary PTY stream.
- `zmodem`, `link`, `protocol`: sessions around the state machines of `zmodem2`.
- `zmodem_runtime`, `transfer_handle`, `zmodem_worker`, `peer_headers`,
  `storage`: what a transfer reports, the state shared with its worker, every
  decision of the worker, what it hears of its peer, and what it decides about
  local files.
- `zmodem_router`, `pty_writing`, `status`, `event_loop`: who gets the bytes of
  the PTY, what is written to it, and what the terminal shows of a transfer.
- `zmodem_transfer`, `zmodem_cross_transfer`, `target_picker`,
  `zmodem_settings`, `warpify_page`, `trigger_state`, `app_menus`: what the
  application knows and shows.

The library performs no I/O. `app/` holds the threads, files and the polling
loop around it. Public proof functions whose names begin with `law_` state what
holds across calls.
