
pub mod order;
pub mod reactions;
pub mod skeleton;
pub mod tree;
pub mod identity;
pub mod pipeline;
