pub mod logical;
pub mod physical;
pub mod singly_linked_list;
