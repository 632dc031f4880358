//! A simulation engine for hierarchies of sign-exchanging agents, and the
//! two small languages that drive it.
//!
//! Agents express, project and interpret symbols; what they have expressed
//! persists as decaying memory traces; category objects compose agents and
//! substrates into a tree of recursion levels and derive an interpretation
//! for each level.
//!
//! - [`units`]: the fixed-point levels in which stability and activation are
//!   counted (millionths).
//! - [`substrate`], [`symbol`], [`agents`], [`symmetry`]: patterns and
//!   substrates, symbols and meanings, agents and their memory, and the
//!   reading of an agent's memory for attractors.
//! - [`recursions`], [`interpretations`]: the category tree and what its
//!   nodes mean.
//! - [`text`], [`scan`]: writing and scanning text.
//! - [`macros`], [`patterns`], [`variables`]: named macros, patterns and
//!   variables.
//! - [`sptl`]: the statement language (tokens, statements).
//! - [`narrative`]: the narrative script language (syntax tree, parser,
//!   runner).
//!
//! Nothing here prints or reads files, and nothing here holds a
//! floating-point number: a caller converts at its edge.

pub mod agents;
pub mod interpretations;
pub mod macros;
pub mod narrative;
pub mod patterns;
pub mod recursions;
pub mod scan;
pub mod sptl;
pub mod substrate;
pub mod symbol;
pub mod symmetry;
pub mod text;
pub mod units;
pub mod variables;
