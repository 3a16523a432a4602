//! Kernel-style building blocks with verified contracts: a file descriptor
//! table, a bump allocator, a writer-priority read-write lock protocol and
//! the per-thread steps of a mutex-protected counter and collector.

pub mod counter;
pub mod fd_table;
pub mod bump_allocator;
pub mod rwlock;
