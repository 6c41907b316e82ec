//! A multi-room presence registry: rooms are created with a capacity and a
//! creator, users join them by id, and members see the roster of nicknames.
mod random;
pub mod identity;
pub mod registry;
pub mod room;
