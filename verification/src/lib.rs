//! Recovery of a case-processing workflow model from object-oriented
//! source files, and its rendering as a directed diagram.
//!
//! The analysis works on plain syntax trees ([`syntax`]): declarations are
//! indexed into domain entities ([`classes`], [`processors`]), transitions
//! are extracted from handler-method bodies by structural matching
//! ([`transitions`]) with a textual fallback ([`textscan`]), the reachable
//! transition graph is analyzed for back-edges and iteration regions
//! ([`graph`]), and the result is serialized as a diagram-description
//! document ([`render`]).  [`laws`] holds proof functions relating several
//! of these components.

pub mod classes;
pub mod graph;
pub mod laws;
pub mod model;
pub mod processors;
pub mod render;
pub mod strutil;
pub mod syntax;
pub mod textscan;
pub mod transitions;

