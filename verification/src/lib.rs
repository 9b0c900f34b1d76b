//! A verified codec for the MeatPack wire format.
//!
//! MeatPack compresses machine-control text (G-code) by packing the most
//! common characters two-per-byte using 4-bit codes, escaping every other
//! byte, and carrying in-band commands that toggle the table mid-stream.
//! The crate offers the nibble tables ([`meat`]), a streaming encoder
//! ([`pack::Packer`]) and a streaming decoder ([`unpack::Unpacker`]), each
//! consuming one byte per call against a fixed-capacity line buffer.

pub mod arrwriter;
pub mod laws;
pub mod meat;
pub mod pack;
pub mod unpack;

pub use arrwriter::ArrWriter;
pub use meat::determine_command;
pub use meat::MEATPACK_HEADER;
pub use meat::NO_SPACES_COMMAND;
pub use meat::forward_lookup;
pub use meat::is_linefeed_byte;
pub use meat::is_signal_byte;
pub use meat::reverse_lookup;
pub use meat::unpack_byte;
pub use meat::MeatPackCommand;
pub use meat::MeatPackError;
pub use meat::MeatPackResult;
pub use meat::Pack;
pub use pack::Packer;
pub use unpack::Unpacker;
pub use unpack::UnpackerState;
