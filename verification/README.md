# Kernel building blocks, verified

`src/` is the verified library:

- `fd_table`: a file descriptor table that reuses the smallest closed
  descriptor; contracts over the table's slots, and laws relating `alloc_fd`,
  `get`, `close` and `count`, over single steps and over whole histories.
- `bump_allocator`: the arithmetic of a bump allocator (`bump_step`) and the
  allocator as a value (heap bounds and `next`) with `allocate` and `reset`,
  with laws on alignment, bounds and disjointness of any two pieces handed
  out.
- `rwlock`: the state word of a writer-priority read-write lock (reader
  count, holding bit, count of waiting writers), the admission rules, the lock as a value (state word
  and protected data) with one method per atomic step, and laws showing that
  in any interleaving of steps readers and a writer never hold the lock
  together.
- `counter`: the step a counting thread does under its mutex, and the
  ordering of the ids collected by threads, with the law that any order of
  `0..n` sorts to `0..n`.

`app/` holds what needs threads, spinning, `GlobalAlloc`, raw pointers or
`UnsafeCell` access, built on the library.
