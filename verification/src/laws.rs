//! What holds of a queue as a whole.

pub mod bits;
pub mod buffers;
pub mod chain;
pub mod completion;
pub mod guest;
pub mod layout;
pub mod packed;
pub mod search;
pub mod setup;
pub mod split;
pub mod steps;
pub mod walk;
pub mod work;
