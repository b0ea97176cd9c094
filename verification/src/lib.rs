//! Verified core of an EPUB staging pipeline.
//!
//! The library stages a compressed document container (an EPUB file, which is
//! a zip archive) into a dedicated extraction directory.  It works over an
//! explicit filesystem model, [`disk::DiskModel`], so that every decision and
//! every state change of the pipeline is verified; a thin unverified shell
//! performs the matching operations on the real disk.

pub mod disk;
pub mod errors;
pub mod staging;
pub mod unpack;
pub mod zipio;
