pub mod binary_search;
pub mod bubble_sort;
pub mod linear_search;
pub mod quick_sort;
pub mod recursion;
pub mod recursive_path_finding;
pub mod sorting;
pub mod two_crystal_balls;
