# hay_os

The logic of Hay OS, a small x86_64 hobby kernel, as a library verified with Verus, and the
kernel glue around it.

- `src/` is the verified library. Each module states its behaviour over abstract views:
  - `shell`: the key queue filled by the keyboard interrupt, and the shell as a state machine
    from a session and a typed key to the next state and a list of outputs (text to print,
    sectors to write, a halt).
  - `setup`: the user session, the djb2 password hash, and the layout of the configuration
    sector (saved and loaded back).
  - `editor`: the one-sector text editor as a state machine over the file system.
  - `fs`: the in-memory file system (root, directories, files).
  - `task`: the first stack frame of a new task and the two-task round-robin scheduler.
  - `vga`: the 80x25 text screen (cursor, line breaks, scrolling) over a copy of its cells.
  - `ata`: the register values and byte order of sector transfers.
  - `memory`: the 2 MiB pages that a region touches.
  - `keyboard`: scancode decoding through `pc_keyboard`, feeding the key queue.
  - `text`: byte and string helpers.
- `app/` holds the kernel proper: port and memory-mapped I/O, the global state behind spin
  locks, descriptor tables, interrupt handlers and `kernel_main`.
- `tests/` runs the library on concrete inputs.
