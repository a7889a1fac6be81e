use dsa::algo::binary_search::binary_search;
use dsa::algo::binary_search::MatchingIdx;
use dsa::algo::bubble_sort::bubble_sort;
use dsa::algo::linear_search::linear_search;
use dsa::algo::quick_sort::sort;
use dsa::algo::recursion::combination_formula_recursion;
use dsa::algo::recursion::factorial_of_n;
use dsa::algo::recursion::fibonacci_series_recursion;
use dsa::algo::recursion::nested_recursion;
use dsa::algo::recursion::power_recursion;
use dsa::algo::recursion::recursive_head_push;
use dsa::algo::recursion::recursive_indirect_a_push;
use dsa::algo::recursion::recursive_indirect_b_push;
use dsa::algo::recursion::recursive_tail_push;
use dsa::algo::recursion::recursive_tree_push;
use dsa::algo::recursion::sum_of_first_natural_numbers;
use dsa::algo::recursive_path_finding::solve;
use dsa::algo::recursive_path_finding::Point;
use dsa::algo::two_crystal_balls::integer_sqrt;
use dsa::algo::two_crystal_balls::two_crystal_balls;

#[test]
fn test_binary_search_i32_some() {
    assert_eq!(
        Some(MatchingIdx(6)),
        binary_search(&[1, 12, 23, 56, 59, 63, 77, 95], 77)
    );
}

#[test]
fn test_binary_search_i32_none() {
    assert_eq!(None, binary_search(&[1, 12, 23, 56, 59, 63, 77, 95], 100));
}

#[test]
fn test_binary_search_unordered_i32_none() {
    assert_eq!(None, binary_search(&[1, 23, 12, 59, 63, 56, 77, 95], 56));
}

#[test]
fn bubble_sort_success() {
    assert_eq!(
        vec![1, 2, 3, 4, 5, 6, 7, 8, 9],
        bubble_sort(vec![1, 6, 9, 4, 3, 2, 7, 8, 5])
    )
}

#[test]
fn bubble_sort_already_sorted() {
    assert_eq!(
        vec![1, 2, 3, 4, 5, 6, 7, 8, 9],
        bubble_sort(vec![1, 2, 3, 4, 5, 6, 7, 8, 9])
    )
}

#[test]
fn bubble_sort_empty() {
    let empty: Vec<i32> = Vec::new();
    let empty_sorted = bubble_sort(empty);
    assert!(empty_sorted.is_empty());
}

#[test]
fn test_linear_search_i32() {
    assert_eq!(Some(&3), linear_search(&[12, 45, 3, 2, 7, 68, 493, 90], 3));
}

#[test]
fn test_linear_search_i32_not_found() {
    assert_eq!(None, linear_search(&[12, 45, 3, 2, 7, 68, 493, 90], 77));
}

#[test]
fn test_linear_search_string() {
    assert_eq!(
        Some(&"Ellie"),
        linear_search(&["Emile", "Julie", "Ellie", "Joel", "Frank"], "Ellie")
    );
}

#[test]
fn test_linear_search_string_not_found() {
    assert_eq!(
        None,
        linear_search(&["Emile", "Julie", "Ellie", "Joel", "Frank"], "Allan")
    );
}

#[test]
fn test_quicksort() {
    let mut array = vec![10, 5, 2, 3, 1, 8, 9, 7, 6, 4];
    sort(&mut array);
    assert_eq!(array, [1, 2, 3, 4, 5, 6, 7, 8, 9, 10]);
}

#[test]
fn test_quicksort_with_duplicates() {
    let mut array = vec![3, 1, 3, 2, 2, 1];
    sort(&mut array);
    assert_eq!(array, [1, 1, 2, 2, 3, 3]);
}

#[test]
fn test_quicksort_empty() {
    let mut array: Vec<i32> = vec![];
    sort(&mut array);
    assert!(array.is_empty());
}

#[test]
fn test_recursive_tail_push() {
    let mut vals = Vec::with_capacity(5);
    recursive_tail_push(5, &mut vals);
    assert_eq!(vec![5, 4, 3, 2, 1], vals);
}

#[test]
fn test_recursive_head_push() {
    let mut vals = Vec::with_capacity(5);
    recursive_head_push(5, &mut vals);
    assert_eq!(vec![1, 2, 3, 4, 5], vals);
}

#[test]
fn test_recursive_tree_push() {
    let mut vals = Vec::with_capacity(7);
    recursive_tree_push(3, &mut vals);
    assert_eq!(vec![3, 2, 1, 1, 2, 1, 1], vals);
}

#[test]
fn test_recursive_indirect_a_push() {
    let mut vals = Vec::with_capacity(7);
    recursive_indirect_a_push(20, &mut vals);
    assert_eq!(vec![20, 19, 9, 8, 4, 3, 1], vals);
}

#[test]
fn test_recursive_indirect_b_push() {
    let mut vals = Vec::with_capacity(6);
    recursive_indirect_b_push(20, &mut vals);
    assert_eq!(vec![20, 10, 9, 4, 3, 1], vals);
}

#[test]
fn test_nested_recursion() {
    assert_eq!(91, nested_recursion(95));
}

#[test]
fn test_nested_recursion_above_hundred() {
    assert_eq!(101, nested_recursion(111));
}

#[test]
fn test_sum_of_first_natural_numbers() {
    assert_eq!(1 + 2 + 3 + 4 + 5, sum_of_first_natural_numbers(5));
}

#[test]
fn test_factorial_of_n() {
    assert_eq!(1 * 2 * 3 * 4 * 5, factorial_of_n(5));
}

#[test]
fn test_power_recursion() {
    assert_eq!(2 * 2 * 2, power_recursion(2, 3));
}

#[test]
fn test_power_recursion_0() {
    assert_eq!(0, power_recursion(2, 0));
}

#[test]
fn test_power_recursion_1() {
    assert_eq!(2, power_recursion(2, 1));
}

#[test]
fn test_fibonacci_series_recursion() {
    assert_eq!(13, fibonacci_series_recursion(7));
}

#[test]
fn test_combination_formula_recursion() {
    assert_eq!(10, combination_formula_recursion(5, 2))
}

#[test]
fn test_path_finding() {
    let maze = vec![
        vec!["#", "#", "#", "#", "#", "E", "#"],
        vec!["#", " ", " ", " ", " ", " ", "#"],
        vec!["#", "S", "#", "#", "#", "#", "#"],
    ];

    assert_eq!(
        solve(&maze, "#", (1, 2).into(), (5, 0).into()),
        vec![
            Point::new(1, 2),
            Point::new(1, 1),
            Point::new(2, 1),
            Point::new(3, 1),
            Point::new(4, 1),
            Point::new(5, 1),
            Point::new(5, 0)
        ]
    );
}

#[test]
fn test_path_finding_no_way_out() {
    let maze = vec![
        vec!["#", "#", "#"],
        vec!["#", "S", "#"],
        vec!["#", "#", "#"],
    ];
    let path = solve(&maze, "#", (1, 1).into(), (2, 2).into());
    assert!(path.is_empty());
}

#[test]
fn two_crystal_balls_break_found() {
    assert_eq!(
        Some(7),
        two_crystal_balls(&[false, false, false, false, false, false, false, true, true])
    );
}

#[test]
fn two_crystal_balls_break_no_break() {
    assert_eq!(
        None,
        two_crystal_balls(&[false, false, false, false, false, false, false])
    );
}

#[test]
fn two_crystal_balls_break_at_jump_spot() {
    // Nine entries give a jump width of three; a first break right on a
    // jump landing spot must still be found.
    assert_eq!(
        Some(3),
        two_crystal_balls(&[false, false, false, true, true, true, true, true, true])
    );
}

#[test]
fn two_crystal_balls_break_everywhere() {
    assert_eq!(Some(0), two_crystal_balls(&[true, true, true, true]));
}

#[test]
fn integer_sqrt_exact_values() {
    assert_eq!(0, integer_sqrt(0));
    assert_eq!(1, integer_sqrt(1));
    assert_eq!(1, integer_sqrt(3));
    assert_eq!(2, integer_sqrt(4));
    assert_eq!(3, integer_sqrt(15));
    assert_eq!(4, integer_sqrt(16));
}

#[test]
fn bubble_sort_with_duplicates() {
    assert_eq!(vec![1, 1, 2, 2, 3], bubble_sort(vec![2, 1, 3, 1, 2]));
}

#[test]
fn test_binary_search_single_element() {
    assert_eq!(Some(MatchingIdx(0)), binary_search(&[42], 42));
    assert_eq!(None, binary_search(&[42], 7));
    assert_eq!(None, binary_search(&[], 7));
}
