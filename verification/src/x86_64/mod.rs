pub mod apic;
pub mod context;
pub mod exceptions;
pub mod gdt;
pub mod heap;
pub mod idt;
pub mod interrupts;
pub mod kernel_map;
pub mod mouse;
pub mod paging;
pub mod pci;
pub mod pic;
pub mod pit;
pub mod scheduler;
pub mod serial;
pub mod task_stack;
pub mod timer;
pub mod tss;
