# lazers

A verified library for the core logic of a small x86-64 teaching kernel:
physical memory, page tables and the user-program loader, processes,
threads and the round-robin scheduler, environments and working
directories, the GPT/FAT32 root filesystem, the AHCI sector-read state
machine, PCI discovery, the keyboard decoder, the terminal and the
framebuffer console, and the system-call decoding.

- `src/` is the library, written and proved with Verus.
- `tests/` runs it on concrete inputs.
- `app/` is the host platform around it: port and register I/O, the trap
  path that performs the system calls the library decodes, and `main`,
  which takes the system disk from a host file or from the AHCI controller.
