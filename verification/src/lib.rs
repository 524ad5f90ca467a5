//! FreshOS: the logic of a small microkernel and its services.
//!
//! Everything here is ordinary data and functions on it. Registers, ports,
//! interrupts and the real clock belong to the program around the library.
pub mod abi;
pub mod acpi;
pub mod addrspace;
pub mod board;
pub mod boot;
pub mod boot_images;
pub mod bytes;
pub mod cache;
pub mod chrome;
pub mod compositor;
pub mod context;
pub mod cpu;
pub mod dashboard;
pub mod delivery;
pub mod desktop;
pub mod elf;
pub mod exceptions;
pub mod font;
pub mod frame_alloc;
pub mod framebuffer;
pub mod gic;
pub mod handles;
pub mod heap;
pub mod init;
pub mod init_abi;
pub mod ipc;
pub mod irq;
pub mod json;
pub mod kernel;
pub mod lifecycle;
pub mod mcp;
pub mod mem;
pub mod metrics;
pub mod mouse;
pub mod paging;
pub mod pci;
pub mod pic;
pub mod probes;
pub mod registry;
pub mod rt;
pub mod saved;
pub mod scheduler;
pub mod scripting;
pub mod serial;
pub mod service_abi;
pub mod shell;
pub mod spawn;
pub mod speaker;
pub mod syscall;
pub mod syscalls;
pub mod task_names;
pub mod text;
pub mod tsc;
pub mod userbins;
pub mod virtio_gpu;
pub mod virtio_pci;
pub mod wire;
