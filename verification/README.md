# finnos boot and kernel core, verified

A Verus library holding the logic of a small hobby OS for x86-64 and
AArch64: the boot hand-off protocol, ELF validation and segment planning for
the UEFI loader, page-table construction and walks, the kernel's mapping
plans, task stacks over frames the caller owns (mapping, validation,
reclaim, and rollback of a failed step), the x86-64 scheduler's resource
bookkeeping, interrupt-frame checks and stack attribution, and the register
programs of the devices it drives (APIC, PIT, PIC, GIC, timers, serial,
PS/2 mouse, PCI configuration space).

Every function in `src/` carries a `requires`/`ensures` contract that Verus
proves. Nothing in `src/` is trusted: there are no `external_body` items and
no outside crates.

Layout:

- `src/boot_protocol.rs`, `src/boot_validation.rs`: the boot information
  record and its validation.
- `src/elf.rs`, `src/loader.rs`: ELF header and program-header checks, and
  the load plan.
- `src/x86_64/`, `src/aarch64/`: per-architecture paging, address spaces,
  task stacks, scheduler bookkeeping, exceptions, interrupts and devices.
- `src/task.rs`: generation-tagged task identities.
- `tests/`: unit tests run against the compiled library.
- `app/`: the thin hosted and bare-metal glue (file reading, port and MMIO
  access, system registers) that hands plain values to the library.
