//! The Win32 bindings that hand out raw radio handles (see `find_radios` in
//! the program). Their errors are those of [`crate::winapi`].
pub use crate::winapi::{Error, Result};
