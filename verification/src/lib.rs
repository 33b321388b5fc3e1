//! Update resolution for an update-image server: from the names of the
//! artifact files on offer and a client's image, device and installed
//! version, decide whether an update is available and which file it is.

pub mod boundary;
pub mod filename;
pub mod resolve;
pub mod text;
