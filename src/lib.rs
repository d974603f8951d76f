//! Fluent construction of entity hierarchies on top of bevy's deferred commands.
//!
//! A [`builder::ChildCommands`] value is focused on one entity and remembers the parent that
//! entity was linked under. Each step allocates an entity right away and queues the
//! commands that link it or attach components to it; the queue is applied by the
//! host when it flushes.
pub mod host;
pub mod builder;
pub mod laws;
pub mod with_id;
