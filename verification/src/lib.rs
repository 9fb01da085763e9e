//! Tag synchronization engine: parses free-text tag declarations into a
//! canonical tag set and reconciles a member's tag-roles in a guild-style
//! directory against that set, creating missing roles and garbage-collecting
//! roles left with no holders.
//!
//! Tag text and role names are byte strings (`Vec<u8>`); a transport layer
//! converts to and from its own text type at the boundary. The engine itself
//! performs no remote call: `CharKind::clear` and
//! `CharKind::assign_characters` turn directory snapshots into plans —
//! sequences of `DirectoryAction` values — which the transport executes in
//! order, aborting on the first failure.

pub mod alias;
pub mod bytes;
pub mod laws;
pub mod model;
pub mod parse;
pub mod sync;
