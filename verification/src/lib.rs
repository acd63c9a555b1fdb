//! Host-side logic of a Wasmtime runner for a WASI build of `mysqld`:
//! errno translation between the host and the guest ABI, guest path
//! sandboxing, descriptor tables, socket argument translation and the
//! parsing of the runner's command-line values.

mod host_abi;
mod text;
pub mod bytes;

pub mod guest_errno;
pub mod host_files;
pub mod cli;
pub mod fd_table;
pub mod host_sockets;
pub mod host_sockets_windows;

pub use host_abi::{HostConsts, WinsockConsts};
pub use host_sockets::HostSocketConsts;
