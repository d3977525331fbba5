//! Component storage for entity/component data.
//!
//! Every field of an entity lives in a container of its own, and all the
//! containers of one entity type hand out the same identifier for the same
//! entity. A [`storage::StorageFamily`] fixes the identifier type and the rule
//! by which identifiers are handed out; a [`storage::Storage`] keeps the values
//! of one field; an [`archetype::Archetype`] bundles the storages of all fields
//! and inserts and removes whole entities.
pub mod archetype;
pub mod arena;
pub mod storage;

pub use archetype::{Archetype, PairStructOf, SplitFields, StructOf, StructOfAble, StructRef};
pub use arena::{ArenaFamily, ArenaLayout, ArenaStorage, Index};
pub use storage::{Storage, StorageFamily, VecFamily};
