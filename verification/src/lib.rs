//! Serial communication core for driving a bootloader shell over a duplex
//! byte stream: prompt synchronization, reliable command execution,
//! environment-variable access, and a block-oriented, checksummed file
//! transfer protocol.

use vstd::prelude::*;

pub mod build_config;
pub mod channel;
pub mod compress;
pub mod config_item;
pub mod crc;
pub mod error;
pub mod num;
pub mod paths;
pub mod session;
pub mod text;
pub mod ymodem;

verus! {

} // verus!
