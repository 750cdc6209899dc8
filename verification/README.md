# pve-san-fenced

A SAN fencing daemon for Proxmox VE: it watches the multipath maps that running
VMs use and, after persistent and complete storage loss, writes the configured
SysRq sequence to `/proc/sysrq-trigger` to fence the node.

The decisions are made by a library written in Verus, whose functions carry
contracts that Verus proves:

- `fencer` — which maps are watched, when a poll cycle is a storage failure, and
  when enough consecutive failures demand fencing.
- `multipath`, `reply`, `json` — multipathd's `show maps json` reply and the
  path states in it.
- `config` — the tokenizer and parser for multipathd's configuration, the merge
  of defaults, device entries and overrides, and the checks of `no_path_retry`
  and `dev_loss_tmo` against the fencing time.
- `pve` — VM configurations, disk entries and sizes, and which multipath devices
  back which block devices; `discovery` turns that into the in-use entries.
- `status` — the Nagios-style issues and the status line.
- `protocol` — the framing of commands and replies on multipathd's socket.
- `daemon` — SysRq settings, status queries, intervals, back-off and staleness.
- `fence_sequence` — the SysRq fencing sequence as a step function: what to
  write or wait for next.
- `monitor` — the issues the daemon's loops record about stale data,
  multipathd queries and discovery rounds.
- `mock` — the logic of the multipathd stand-in used in tests.
- `output_path` — where the storage report may be written.
- `text`, `order` — strings, numbers and the lexicographic order they rely on.

`app/` is the program around the library: command line, sockets, files,
processes, threads and timers. `tests/` exercise the library on concrete values.
