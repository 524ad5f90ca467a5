# FreshOS

The logic of a small microkernel and its services, as a Verus library: every
function states what it does, and Verus proves it.

- `src/` is the library. Physical memory, the frame allocator, address spaces,
  tasks, channels, the registry, system calls, the loader, the desktop, the
  bridge for agents and the drivers are plain data and functions on it. A
  driver decides what is written to its device; the access itself is made
  outside.
- `app/` is the program around it: the firmware, ports and registers, the clock,
  the script engine, and the loops that hand events to the library and carry out
  what it decides.
- `tests/` runs the library on concrete values.

Physical memory is a vector of bytes from address 0 on. Time, interrupts and
what devices answer are arguments.
