# bluetooth_tracker

Tracks Bluetooth connection spans of chosen devices on Linux/BlueZ: when a
device connects a span opens, when it disconnects (or the machine goes to
sleep) the span closes and is appended to a log. Spans carry notes and
battery readings.

The rules of the tracker are a Verus library under `src/`, with contracts
proved by Verus:

- `storage`: the open spans and the span log, and what a connection, a
  disconnection, a battery reading or a note does to them; `storage_laws`
  proves what holds across these operations (one open span per device, an
  interrupted close retried logs no span twice, notes and readings reach the
  closed span, ...).
- `tracking`: the watcher's decisions (resync, sleep, wake), what a resync
  reports for each configured address, and what `status` shows.
- `report`, `notes`, `display`: the text the commands print.
- `jsonl`, `paths`, `service`: the framing of the state files, where they
  live, and the systemd unit that runs the watcher.
- `address`, `timestamp`, `text`, `order`, `search`: the values the rules
  work on.

`app/` is the program around it: the command line, D-Bus, the state files on
disk, JSON, the clock and systemctl.
