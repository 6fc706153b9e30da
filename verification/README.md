# powerflow

The logic of a macOS menu-bar power assistant, verified with Verus.

- `src/provider.rs`: battery registry and controller readings, charging
  detection, remaining-time choice, the basis of the absolute battery level.
- `src/statistic.rs`: bounded power histories and their sparkline windows.
- `src/history.rs`: the charging-session recorder (staging per device, session
  end on unplug or full charge, bounded staging) and session summaries.
- `src/device.rs`: the devices seen so far and the connection table that
  polls each iOS device once, USB first.
- `src/sender.rs`: polling interval bounds, the status-bar reading and title,
  and the sender's reaction to each message.
- `app/`: floating point figures, serialisation and the event loops around the
  library.

Power is carried in tenths of a watt and durations in milliseconds.
