//! The runtime side of a compiled module: how values are represented, where they live, and
//! what the builtins look like and do.
//!
//! * **Values** ([`repr`]): a value is one machine word ([`Slot`]) whose interpretation is
//!   fixed by its static type. Types collapse to a [`Repr`].
//! * **Allocation** ([`arena`]): values created during one invocation live in a bump
//!   [`Arena`] that is reset wholesale when the call returns.
//! * **Layouts** ([`layout`]): how `string`, `array`, `map`, and `record` lie in memory.
//! * **Host boundary** ([`host`]): [`FnAbi`] is the calling convention of a function;
//!   [`MemorySchema`] lists the accessors of a host memory binding.
//! * **Builtins** ([`builtins`], [`eval`]): the signatures of `math.*`, `string.*`,
//!   `tostring` and `tonumber`, and what they do.
pub mod arena;
pub mod builtins;
pub mod eval;
pub mod host;
pub mod layout;
pub mod repr;
pub mod texts;

pub use arena::{Arena, ArenaRef};
pub use host::{FnAbi, HostError, MemoryField, MemorySchema};
pub use repr::{Repr, Slot};
