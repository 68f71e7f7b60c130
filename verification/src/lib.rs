//! Dynamic object and property runtime for a legacy stack-based scripting VM.
//!
//! The crate models the script-visible object layer of such a VM: property
//! bags with prototype chains, objects bound to nodes of a renderable tree
//! whose "special" geometry properties resolve through a fixed registry, text
//! bindings that mirror property writes into text nodes, and named shared
//! objects that persist a dynamic object graph through a JSON codec.

pub mod context;
pub mod display;
pub mod display_props;
pub mod fscommand;
pub mod json_codec;
pub mod object;
pub mod shared_object;
pub mod stage_object;
pub mod storage;
pub mod table;
pub mod text;
pub mod value;
