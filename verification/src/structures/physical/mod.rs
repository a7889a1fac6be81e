pub mod array;
pub mod linked_list;
pub mod matrix;
pub mod queue;
pub mod singly_linked_list;
