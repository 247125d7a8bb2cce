//! overlaybd device lifecycle: create, launch over TCMU, mount, tear down,
//! commit.
//!
//! The whole lifecycle is driven through configfs as documented in
//! containerd/overlaybd's "Standalone Usage" section: a `target_core_user`
//! backstore whose `dev_config` points at an overlaybd JSON config, plus a
//! `tcm_loop` nexus that turns it into a real `/dev/sdX`.
//!
//! # The library and the host
//!
//! The library decides, and the host acts. An operation that touches the host
//! is a value with two methods: `op` says what the host is to do next, and
//! `resume` takes what came of it and either goes on or finishes; see [`host`].
//! So everything that can go wrong on a host is an answer that some `resume`
//! takes, and what follows from it is stated in its contract.
//!
//! # Ordering
//!
//! The lifecycle is a typestate ([`Device`] -> [`Live`] -> [`Mounted`]): a device
//! that is not up cannot be mounted, and each way on consumes the state that it
//! starts from. Taking a device down consumes it, so it happens once.
//!
//! # Platform
//!
//! configfs, TCMU and `mount(2)` are Linux-only. The types exist everywhere, but
//! the device operations answer [`Error::UnsupportedPlatform`] off Linux.

pub mod checks;
pub mod cleanup;
pub mod cli;
pub mod config;
pub mod configfs;
pub mod device;
pub mod error;
pub mod host;
pub mod json;
pub mod path;
pub mod report;
pub mod teardown;
pub mod text;
pub mod tools;

pub use checks::preflight;
pub use checks::Check;
pub use cleanup::cleanup_all;
pub use cleanup::force_cleanup;
pub use cleanup::install_signal_handler;
pub use cleanup::Swept;
pub use config::DeviceConfig;
pub use config::Lower;
pub use device::teardown_named;
pub use device::Device;
pub use device::Live;
pub use device::Mode;
pub use device::Mounted;
pub use device::PersistedDevice;
pub use error::Error;
