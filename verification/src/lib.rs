//! Builder and serializer for Petri net models in the PNML exchange format,
//! restricted to Place/Transition nets.
//!
//! A [`PNMLDocument`] owns an ordered list of nets. Each [`PetriNet`] owns a
//! tree of pages; places, transitions, arcs and reference nodes live inside
//! pages. Every entity is addressed through a small value-typed handle that
//! records a path of indices into the tree, so handles stay valid while the
//! document grows.
//!
//! ### Unsupported
//! - graphics information for objects
//! - page (or global) labels
//! - tool specific information
pub mod emitter;
pub mod error;
pub mod events;
pub mod growth;
pub mod ids;
pub mod labels;
pub mod laws;
pub mod model;
pub mod nesting;
pub mod pnml;
pub mod pt_net_package;
pub mod pxml;
pub mod text;
pub mod wellformed;

pub use crate::error::PetriError;
pub use crate::events::{StartElement, XmlAttribute, XmlEvent};
pub use crate::labels::Label;
pub use crate::pnml::{
    ArcRef, NodeRef, PNMLDocument, PNMLName, PageRef, PetriNet, PetriNetRef, PNMLID,
};
