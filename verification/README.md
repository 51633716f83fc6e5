# snapshotted_app

Snapshot fuzzing of a virtual machine, verified with Verus.

A session is loaded from a snapshot file, which holds the registers and the
physical memory of a guest. Workers are forked from it. They share its memory
until they write to it, and get it back as it was before each fuzz case.

`src/` is the verified library:

- `bytes`, `primitive`: little-endian numbers
- `addr_map`: a sorted map keyed by addresses
- `page`, `ept`, `snapshot`, `worker`, `memory`, `access`, `transfers`: guest
  memory
- `regs`, `vm`, `exits`: guest registers, and the emulation of what exits
- `dump`: snapshot files
- `modules`, `coverage`: where the guest is
- `rng`, `stats`, `session`, `case`, `runs`: fuzz cases and what they share

Functions named `law_...` state what holds of several operations together.

Whatever takes the machine (running the guest, walking page tables, the clock,
the network) is asked for by the library as an action, and answered as an event.
`app/` performs the actions through its trait `Machine`.
