pub mod queue;
pub mod simple_queue;
pub mod simple_stack;
pub mod stack;
pub mod tree;
