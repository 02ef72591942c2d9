pub mod address_space;
pub mod context;
pub mod exceptions;
pub mod gic;
pub mod kernel_map;
pub mod paging;
pub mod scheduler;
pub mod pci;
pub mod serial;
pub mod task_stack;
pub mod timer;
