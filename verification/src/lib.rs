//! Paper-doll composition core for a layered sprite-asset authoring tool.
//!
//! The library parses part identities out of asset file names, builds a
//! queryable catalog of parts and palette ramp images, maintains the
//! "what is worn" selection with slot exclusivity and paired-set rules,
//! and recolors part pixels through palette-ramp remap tables. A host
//! supplies the filesystem walk and the image decoding; the library only
//! ever works on plain values, and its behaviour is stated and verified
//! in the contracts of each module.

pub mod layers;
pub mod order;
pub mod ident;
pub mod catalog;
pub mod builder;
pub mod equip;
pub mod palette;
pub mod grid;
pub mod browse;
pub mod scan;
pub mod remap;
pub mod laws;
