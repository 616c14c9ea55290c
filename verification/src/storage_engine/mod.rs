pub mod in_memory;
