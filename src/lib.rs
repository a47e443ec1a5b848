//! Queries and rewrites over the syntax tree of a script.
//!
//! - [`select`]: a selector engine that finds nodes by chains of structural
//!   predicates (descendant and adjacent-sibling combinators), memoizing each
//!   predicate per stack depth.
//! - [`normalize`]: a normalizer that hoists nested expressions into ordered
//!   statements bound to fresh names, keeping evaluation order and
//!   short-circuiting.
pub mod ast;
pub mod block;
pub mod children;
pub mod normal_form;
pub mod names;
pub mod normalize;
pub mod select;

pub use block::{Block, Blockable, Line};
pub use children::Selectable;
