//! Translation between the flat, ID-linked wire form of a visual-programming
//! project and a nested, owned tree model.
//!
//! The wire form (`wire`) mirrors the project JSON document: flat collections
//! of records that reference each other by string identifiers.  The tree form
//! (`tree`) owns its children directly and carries no identifiers.  Loading
//! resolves identifier references into the tree (`resolve`), substituting
//! documented placeholders for dangling references; saving flattens the tree
//! back into freshly identified records (`flatten`).  `traverse` rewrites
//! every executable block in one deterministic pass, and `laws` states and
//! proves the properties that relate the passes to one another.

pub mod flatten;
pub mod laws;
pub mod outside;
pub mod resolve;
pub mod text;
pub mod traverse;
pub mod tree;
pub mod wire;

pub use text::is_numeric_text;
pub use tree::{Block, BlockType, Object, ObjectType, Project, Rule, Scene};
