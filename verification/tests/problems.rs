use rustcoding::container_with_most_water::Solution as AreaSolution;
use rustcoding::greeting::greet;
use rustcoding::has_cycle::{list_with_cycle, CycleList, Solutions};
use rustcoding::is_palindrome::Solution as PalindromeSolution;
use rustcoding::is_subsequence::is_subsequence;
use rustcoding::max_distinct_elements::Solution as DistinctSolution;
use rustcoding::next_greater_element_1::Solution as GreaterSolution;
use rustcoding::third_max_number::{Solution as ThirdSolution, Solution1 as ThirdSolution1};
use rustcoding::top_k_frequent::Solution as TopKSolution;
use rustcoding::two_sum::Solution as TwoSumSolution;
use rustcoding::valid_palindrome::Solution as AlmostPalindromeSolution;
use rustcoding::valid_parentheses::Solution as BracketSolution;
use rustcoding::word_break::Solution as WordBreakSolution;

#[test]
fn container_test_1() {
    let height = vec![1, 8, 6, 2, 5, 4, 8, 3, 7];
    assert_eq!(49, AreaSolution::max_area(height));
}

#[test]
fn container_test_2() {
    let height = vec![1, 1];
    assert_eq!(1, AreaSolution::max_area(height));
}

#[test]
fn container_test_3() {
    let height = vec![4, 3, 2, 1, 4];
    assert_eq!(16, AreaSolution::max_area(height));
}

#[test]
fn container_of_one_line_holds_nothing() {
    assert_eq!(0, AreaSolution::max_area(vec![7]));
}

#[test]
fn third_max_test1() {
    assert_eq!(1, ThirdSolution::third_max(vec![3, 2, 1]));
}

#[test]
fn third_max_test2() {
    assert_eq!(2, ThirdSolution::third_max(vec![1, 2]));
}

#[test]
fn third_max_test3() {
    assert_eq!(1, ThirdSolution::third_max(vec![2, 2, 3, 1]));
}

#[test]
fn both_third_max_solutions_agree() {
    for nums in [vec![3, 2, 1], vec![1, 2], vec![2, 2, 3, 1], vec![5, 5, 5], vec![-1, i32::MIN, 4, 4]] {
        assert_eq!(ThirdSolution::third_max(nums.clone()), ThirdSolution1::third_max(nums));
    }
    assert_eq!(ThirdSolution1::third_max(vec![]), i32::MIN);
}

#[test]
fn two_sum_test1() {
    let result = TwoSumSolution::two_sum(vec![2, 7, 11, 15], 9);
    assert_eq!(result, vec![0, 1]);
}

#[test]
fn two_sum_test2() {
    let result = TwoSumSolution::two_sum(vec![3, 2, 4], 6);
    assert_eq!(result, vec![1, 2]);
}

#[test]
fn two_sum_test3() {
    let result = TwoSumSolution::two_sum(vec![3, 3], 6);
    assert_eq!(result, vec![0, 1]);
}

#[test]
fn no_solution() {
    let result = TwoSumSolution::two_sum(vec![1, 2, 3], 7);
    assert_eq!(result, Vec::<i32>::new());
}

#[test]
fn test_next_greater_element() {
    let result = GreaterSolution::next_greater_element(vec![4, 1, 2], vec![1, 3, 4, 2]);
    assert_eq!(vec![-1, 3, -1], result);

    let result = GreaterSolution::next_greater_element(vec![2, 4], vec![1, 2, 3, 4]);
    assert_eq!(vec![3, -1], result);

    let result = GreaterSolution::next_greater_element(vec![1, 3, 5, 2, 4], vec![6, 5, 4, 3, 2, 1, 7]);
    assert_eq!(vec![7, 7, 7, 7, 7], result);

    let result = GreaterSolution::next_greater_element(vec![4, 3, 2, 1], vec![4, 3, 2, 1]);
    assert_eq!(vec![-1, -1, -1, -1], result);

    let result = GreaterSolution::next_greater_element(vec![], vec![1, 2, 3, 4]);
    assert_eq!(Vec::<i32>::new(), result);
}

#[test]
fn next_greater_of_a_repeated_value_comes_from_its_last_answer() {
    let result = GreaterSolution::next_greater_element(vec![1, 9], vec![1, 5, 1, 3]);
    assert_eq!(vec![3, -1], result);
}

#[test]
fn test_case_1() {
    let mut result = TopKSolution::top_k_frequent(vec![1, 1, 1, 2, 2, 3], 2);
    result.sort();
    assert_eq!(result, vec![1, 2]);
}

#[test]
fn test_case_2() {
    let mut result = TopKSolution::top_k_frequent(vec![1], 1);
    result.sort();
    assert_eq!(result, vec![1]);
}

#[test]
fn test_case_3() {
    let mut result = TopKSolution::top_k_frequent(vec![4, 1, -1, 2, -1, 2, 3], 2);
    result.sort();
    assert_eq!(result, vec![-1, 2]);
}

#[test]
fn test_case_with_same_frequency() {
    let result = TopKSolution::top_k_frequent(vec![1, 2, 3, 4], 2);
    assert_eq!(result.len(), 2);
    for e in result {
        assert!(vec![1, 2, 3, 4].contains(&e));
    }
}

#[test]
fn top_k_ranks_least_first_and_pads_with_zeros() {
    assert_eq!(TopKSolution::top_k_frequent(vec![7, 7, 7, 8, 8, 9], 3), vec![9, 8, 7]);
    assert_eq!(TopKSolution::top_k_frequent(vec![1, 2, 3, 4], 2), vec![3, 4]);
    assert_eq!(TopKSolution::top_k_frequent(vec![5, 5], 3), vec![0, 0, 5]);
    assert_eq!(TopKSolution::top_k_frequent(vec![5, 6], 0), Vec::<i32>::new());
}

#[test]
fn max_distinct_test_1() {
    assert_eq!(DistinctSolution::max_distinct_elements(vec![2, 4, 3, 2, 5, 5, 5], 3), 7);
}

#[test]
fn max_distinct_test_2() {
    assert_eq!(DistinctSolution::max_distinct_elements(vec![1, 2, 3, 4, 5], 1), 5);
}

#[test]
fn max_distinct_test_3() {
    assert_eq!(DistinctSolution::max_distinct_elements(vec![5, 5, 5, 5, 5], 1), 3);
}

#[test]
fn max_distinct_without_room_keeps_the_distinct_values() {
    assert_eq!(DistinctSolution::max_distinct_elements(vec![4, 4, 1, 1], 0), 2);
    assert_eq!(DistinctSolution::max_distinct_elements(vec![], 3), 0);
}

#[test]
fn test_is_palindrome() {
    assert_eq!(PalindromeSolution::is_palindrome(121), true);
    assert_eq!(PalindromeSolution::is_palindrome(-121), false);
    assert_eq!(PalindromeSolution::is_palindrome(10), false);
}

#[test]
fn palindromic_integers_at_the_edges() {
    assert!(PalindromeSolution::is_palindrome(0));
    assert!(PalindromeSolution::is_palindrome(2147447412));
    assert!(!PalindromeSolution::is_palindrome(i32::MIN));
}

#[test]
fn valid_palindrome_test_1() {
    assert_eq!(AlmostPalindromeSolution::valid_palindrome("abba".to_string()), true);
}

#[test]
fn valid_palindrome_test_2() {
    assert_eq!(AlmostPalindromeSolution::valid_palindrome("abc".to_string()), false);
}

#[test]
fn valid_palindrome_test_3() {
    assert_eq!(AlmostPalindromeSolution::valid_palindrome("abbca".to_string()), true);
}

#[test]
fn one_deletion_on_either_side() {
    assert!(AlmostPalindromeSolution::valid_palindrome("deeee".to_string()));
    assert!(AlmostPalindromeSolution::valid_palindrome("eeeed".to_string()));
    assert!(!AlmostPalindromeSolution::valid_palindrome("abcda".to_string()));
    assert!(AlmostPalindromeSolution::valid_palindrome(String::new()));
}

#[test]
fn valid_parentheses_test_1() {
    assert_eq!(BracketSolution::is_valid("()".to_string()), true);
}

#[test]
fn valid_parentheses_test_2() {
    assert_eq!(BracketSolution::is_valid("()[]{}".to_string()), true);
}

#[test]
fn valid_parentheses_test_3() {
    assert_eq!(BracketSolution::is_valid("(]".to_string()), false);
}

#[test]
fn brackets_must_nest_and_close() {
    assert!(BracketSolution::is_valid("{[()]}".to_string()));
    assert!(!BracketSolution::is_valid("([)]".to_string()));
    assert!(!BracketSolution::is_valid("((".to_string()));
    assert!(!BracketSolution::is_valid("a".to_string()));
    assert!(BracketSolution::is_valid(String::new()));
}

#[test]
fn test_word_break_1() {
    let s = "leetcode".to_string();
    let word_dict = vec!["leet".to_string(), "code".to_string()];
    assert_eq!(WordBreakSolution::word_break(s, word_dict), true);
}

#[test]
fn test_word_break_2() {
    let s = "applepenapple".to_string();
    let word_dict = vec!["apple".to_string(), "pen".to_string()];
    assert_eq!(WordBreakSolution::word_break(s, word_dict), true);
}

#[test]
fn test_word_break_3() {
    let s = "catsandog".to_string();
    let word_dict = vec![
        "cats".to_string(),
        "dog".to_string(),
        "sand".to_string(),
        "and".to_string(),
        "cat".to_string(),
    ];
    assert_eq!(WordBreakSolution::word_break(s, word_dict), false);
}

#[test]
fn word_break_of_the_empty_string() {
    assert!(WordBreakSolution::word_break(String::new(), vec![]));
    assert!(!WordBreakSolution::word_break("a".to_string(), vec![]));
}

#[test]
fn test_is_subsequence() {
    let cases = vec![
        ("abc", "a_x_b_y_c", true),
        ("abc", "acb", false),
        ("", "anything", true),
        ("abc", "", false),
        ("abc", "abc", true),
        ("aaaa", "aa", false),
        ("ace", "abcde", true),
        ("aec", "abcde", false),
    ];
    for (s, t, expected) in cases {
        assert_eq!(is_subsequence(s.to_string(), t.to_string()), expected, "Failed on s={:?}, t={:?}", s, t);
    }
}

#[test]
fn greet_names_the_visitor() {
    assert_eq!(greet("Ada"), "Hello, Ada! Welcome to the local library.");
    assert_eq!(greet(""), "Hello, ! Welcome to the local library.");
}

#[test]
fn cycled_list_has_a_cycle() {
    assert!(Solutions::has_cycle(list_with_cycle(vec![3, 2, 0, -4], Some(1))));
    assert!(Solutions::has_cycle(list_with_cycle(vec![1], Some(0))));
    assert!(Solutions::has_cycle(list_with_cycle(vec![1, 2], Some(0))));
}

#[test]
fn list_without_cycle_has_none() {
    assert!(!Solutions::has_cycle(list_with_cycle(vec![1, 2, 3, 4], None)));
    assert!(!Solutions::has_cycle(list_with_cycle(vec![], Some(3))));
    assert!(!Solutions::has_cycle(list_with_cycle(vec![7], None)));
}

#[test]
fn list_with_cycle_links_in_order() {
    let list: CycleList = list_with_cycle(vec![3, 2, 0, -4], Some(1));
    assert_eq!(list.head, Some(0));
    assert_eq!(list.next, vec![Some(1), Some(2), Some(3), Some(1)]);
    assert_eq!(list.values, vec![3, 2, 0, -4]);
}

#[test]
fn top_k_ties_are_broken_by_value_whatever_the_hash_order() {
    assert_eq!(TopKSolution::top_k_frequent(vec![4, 1, 3, 2], 2), vec![3, 4]);
    assert_eq!(TopKSolution::top_k_frequent(vec![2, 3, 1, 4], 2), vec![3, 4]);
}

#[test]
fn word_break_reuses_words_and_mixes_lengths() {
    let dict = vec!["a".to_string(), "aa".to_string()];
    assert!(WordBreakSolution::word_break("aaaaa".to_string(), dict));
    let dict = vec!["ab".to_string(), "cd".to_string()];
    assert!(!WordBreakSolution::word_break("abc".to_string(), dict));
}

#[test]
fn max_distinct_reaches_the_best_spread() {
    assert_eq!(DistinctSolution::max_distinct_elements(vec![1, 1, 1, 1], 0), 1);
    assert_eq!(DistinctSolution::max_distinct_elements(vec![1, 1, 1, 1], 1), 3);
    assert_eq!(DistinctSolution::max_distinct_elements(vec![4, 4, 4, 4], 2), 4);
}

#[test]
fn max_distinct_never_places_the_lowest_i32() {
    assert_eq!(DistinctSolution::max_distinct_elements(vec![i32::MIN], 0), 0);
}

#[test]
fn container_with_negative_lines_holds_at_least_nothing() {
    assert_eq!(AreaSolution::max_area(vec![-1, -2]), 0);
    assert_eq!(AreaSolution::max_area(vec![3, -1, 4]), 6);
}
