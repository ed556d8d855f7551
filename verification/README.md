# rustix_vkernel

The core of the Rustix v-kernel as a library that Verus verifies: what the kernel decides
and computes is stated in contracts and proved; what touches the machine is left to the
program around it.

## The library (`src/`)

| Module | What it holds |
| --- | --- |
| `boot` | Memory maps of BIOS, Multiboot2, UEFI and device trees; what a device tree says of the hardware |
| `mm` | Addresses, frames and memory nodes, page tables, user copies, kernel protection, the heap |
| `kernel` | Tasks, timers, signals and run queues; the loader of programs; the monitor with its shell |
| `ipc` | Endpoints, capabilities, reply tokens and loans of pages |
| `linux` | Error numbers, system call results, paths, ELF images |
| `extfs`, `initramfs`, `storage` | File systems, archives, block devices |
| `screen`, `gui` | Shapes, letters, the console, display modes; the desktop |
| `arch` | What the machines are and how their devices are driven |
| `apps`, `net` | The programs that come with the kernel; addresses of the network |
| `startup`, `print` | What the kernel says while it starts |
| `fixed`, `lines`, `text`, `chars`, `numbers`, `bytes`, `bits`, `counting`, `c_fastpath` | Texts, numbers and loops that the others share |

Each type has a view, a mathematical value of its own, and each operation a spec function
from view to view. Contracts say that the code does what the spec function says. Laws that
span several operations are public proof functions whose names start with `law_`.

Devices, files and clocks stay outside: a function that needs one either takes the answer as
an argument, or returns what it asks for and is called again with the answer.

## The program around it (`app/`)

A hosted program that drives the library: the terminal is the console, files are kept in
memory, and the description of the machine comes from a file.

## Tests (`tests/`)

Ordinary Rust tests that run the compiled library.
