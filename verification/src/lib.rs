//! Verified core of a Linux-compatible kernel object layer.
pub mod bytes;
pub mod error;
pub mod text;
pub mod vfs;
pub mod mount_state;
pub mod mount_table;
pub mod boot_nodes;
pub mod boot_root;
pub mod fstab;
pub mod dcache;
pub mod path;
pub mod elf_cache;
pub mod flags;
pub mod file;
pub mod page_cache;
pub mod pipe;
pub mod epoll;
pub mod eventfd;
pub mod inotify;
pub mod signalfd;
pub mod pidfd;
pub mod dmabuf;
pub mod boot_trace;
pub mod flagged_fs;
pub mod hunter_config;
pub mod fcntl;
pub mod proc_self;
pub mod memfd;
pub mod mount_backend;
pub mod fat_mount;
pub mod btrfs_mount;
pub mod mock;
pub mod perf;
pub mod input_event;
pub mod input_mice;
pub mod fbdev;
pub mod uartdev;
pub mod fd_desc;
pub mod ioctl;
pub mod pty;
pub mod snd;
pub mod dsp;
pub mod record_lock;
pub mod device;
pub mod block_cache;
pub mod block_mount;
pub mod blockdev;
pub mod cached_device;
pub mod drm;
pub mod drm_kms;
pub mod drm_atomic;
pub mod drm_topology;
pub mod drm_props;
pub mod drm_scheme;
pub mod drm_ioctl;
pub mod drm_ids;
pub mod drm_dev;
