# linux_object

The Linux personality of a kernel, as a verified library: open files and descriptors, path lookup
and mounts, pipes and readiness, terminals, sound, block devices and their caches, record locks,
tracing, and the display pipeline. Every function in `src/` states what it returns and changes, and
Verus proves it.

The library holds no globals and does no I/O. State is passed in; what only hardware, user memory or
another file system can tell comes in as an argument, and what is left to do comes back as a value.

- `src/` the library. Storage: `device`, `block_cache`, `cached_device`, `block_mount`, `blockdev`,
  `mount_backend`, `fat_mount`, `btrfs_mount`, `mock`. Files: `file`, `flags`, `page_cache`,
  `elf_cache`, `memfd`, `fcntl`, `record_lock`, `flagged_fs`. Names: `path`, `dcache`, `mount_table`,
  `mount_state`, `boot_nodes`, `boot_root`, `fstab`, `proc_self`, `hunter_config`. Waiting: `pipe`,
  `epoll`, `eventfd`, `inotify`, `signalfd`, `pidfd`. Devices: `pty`, `ioctl`, `uartdev`, `snd`,
  `dsp`, `fbdev`, `input_event`, `input_mice`, `dmabuf`, `fd_desc`. Display: `drm` and the modules
  that begin with it. Tracing: `perf`, `boot_trace`. Common: `bytes`, `text`, `error`, `vfs`.
- `tests/` runs the library on concrete values.
- `app/` image files, FAT volumes through `fatfs`, boot files, blocking waits, printed times.

What holds of several functions together is stated in the proof functions whose names begin with
`law_`.
