# zcblock

The logic of a toolkit for block volumes in user space, verified with Verus: an iSCSI target, a
vhost-user block device, a replicated log with its reduction into a block store, an ordering
dispatcher, recovery to a point in time, and the command lines, plans and checks of the programs
around them.

- `src/` is the library. Everything in it is verified; what it takes from std, `serde_json` and
  `sha2` stands behind a few items that say in their doc comments what is believed of the call.
  Public proof functions whose names begin with `law_` state what holds across calls.
- `tests/` runs the library on concrete values.
- `app/` is one binary with the programs. It holds what reads, writes, sleeps and measures: sockets,
  files, threads, clocks and rates in floating point. The programs that drive the volume engine call
  the toolkit's own `zcutils` crate, which has to be linked beside this library. The iSCSI target and
  the vhost-user device of the binary serve a leaf file; the lanes of the library for a shared arena,
  a TCP fan and OFI are there for a program that links those transports.

| Module | What it decides |
| --- | --- |
| `iscsi` | headers, login, SCSI commands, serial numbers, lanes, sessions, fan windows |
| `vhost` | guest regions, descriptor chains, queues, configuration space, the round of a queue |
| `wal`, `order` | log extents and their reduction; rings, owners and the order of requests |
| `topology`, `migration`, `workload` | nodes and recovery bundles; leaves; the steps of each scenario |
| `live`, `pwal`, `repl`, `secret`, `gateway`, `continuity`, `pit`, `tools` | the other programs |
