# EstrOS

An AArch64 kernel booted by Limine, split into a verified library and the
platform layer around it.

- `src/` is the `estros` library, verified with Verus: the round-robin
  scheduler and its process table, thread and message stores, the system
  call table, the exception syndrome decoding and thread switch, loading a
  process from an ELF file (through the `elf` crate), the device tree header
  and memory reservation block, page attributes (through `aarch64-paging`),
  the kernel heap's allocation step, the xorshift generator and the driver
  registry.
- `app/` is the kernel binary: boot and vector table assembly, the UART,
  spin locks, the heap allocator, translation tables and the MMU, secondary
  cores, and the exception handlers that call into the library and perform
  the memory transfers system calls ask for.
- `tests/` runs the library on concrete values, including a small ELF file
  built byte by byte.
