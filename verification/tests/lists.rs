use rustcoding::add_two_numbers::Solution as AddSolution;
use rustcoding::delete_duplicates::Solution as DedupSolution;
use rustcoding::delete_nodes_linked_list::Solution as DeleteSolution;
use rustcoding::listnode_lib::{into_values, to_list, ListNode};
use rustcoding::merge_two_lists::Solution as MergeSolution;
use rustcoding::merge_two_lists_v2::Solution as MergeSolutionV2;
use rustcoding::remove_linked_list_elements::Solution as RemoveSolution;
use rustcoding::remove_nodes_from_linked_list::Solution as RemoveNodesSolution;

#[test]
fn test_new() {
    assert_eq!(ListNode::new(1), ListNode { val: 1, next: None });
}

#[test]
fn test_to_list() {
    let list = to_list(vec![1, 2, 3]);

    let mut node1 = ListNode::new(1);
    let mut node2 = ListNode::new(2);
    let node3 = ListNode::new(3);
    node2.next = Some(Box::new(node3));
    node1.next = Some(Box::new(node2));

    assert_eq!(list, Some(Box::new(node1)));
}

#[test]
fn test_to_list_single() {
    let list = to_list(vec![1]);
    assert_eq!(list, Some(Box::new(ListNode::new(1))));
}

#[test]
fn test_to_list_empty() {
    let list = to_list(vec![]);
    assert_eq!(list, None);
}

#[test]
fn test_list_creation() {
    let list = to_list(vec![1, 2, 3]);
    let mut node1 = ListNode::new(1);
    let mut node2 = ListNode::new(2);
    let node3 = ListNode::new(3);
    node2.next = Some(Box::new(node3));
    node1.next = Some(Box::new(node2));
    assert_eq!(list, Some(Box::new(node1)));
}

#[test]
fn to_list_then_values_gives_the_values_back() {
    assert_eq!(into_values(to_list(vec![5, -2, 7, 7])), vec![5, -2, 7, 7]);
    assert_eq!(into_values(to_list(vec![])), Vec::<i32>::new());
}

#[test]
fn add_two_numbers_test_1() {
    let l1 = to_list(vec![2, 4, 3]);
    let l2 = to_list(vec![5, 6, 4]);
    let result = AddSolution::add_two_numbers(l1, l2);
    let expected = to_list(vec![7, 0, 8]);
    assert_eq!(result, expected);
}

#[test]
fn add_two_numbers_test_2() {
    let l1 = to_list(vec![0]);
    let l2 = to_list(vec![0]);
    let result = AddSolution::add_two_numbers(l1, l2);
    let expected = to_list(vec![0]);
    assert_eq!(result, expected);
}

#[test]
fn add_two_numbers_test_3() {
    let l1 = to_list(vec![9, 9, 9, 9, 9, 9, 9]);
    let l2 = to_list(vec![9, 9, 9, 9]);
    let result = AddSolution::add_two_numbers(l1, l2);
    let expected = to_list(vec![8, 9, 9, 9, 0, 0, 0, 1]);
    assert_eq!(result, expected);
}

#[test]
fn add_two_numbers_carries_into_a_new_digit() {
    let result = AddSolution::add_two_numbers(to_list(vec![5]), to_list(vec![5]));
    assert_eq!(result, to_list(vec![0, 1]));
}

#[test]
fn test_merge_two_empty_lists() {
    assert_eq!(MergeSolution::merge_two_lists(None, None), None);
}

#[test]
fn test_merge_one_empty_list() {
    let list = to_list(vec![1, 2, 3]);
    assert_eq!(MergeSolution::merge_two_lists(None, to_list(vec![1, 2, 3])), list);
}

#[test]
fn test_merge_two_non_empty_lists() {
    let list1 = to_list(vec![1, 2, 4]);
    let list2 = to_list(vec![1, 3, 4]);
    let expected = to_list(vec![1, 1, 2, 3, 4, 4]);
    assert_eq!(MergeSolution::merge_two_lists(list1, list2), expected);
}

#[test]
fn merge_two_lists_v2_test_1() {
    let list1 = to_list(vec![1, 2, 4]);
    let list2 = to_list(vec![1, 3, 4]);
    let res = MergeSolutionV2::merge_two_lists(list1, list2);
    let expect = to_list(vec![1, 1, 2, 3, 4, 4]);
    assert_eq!(res, expect);
}

#[test]
fn merge_two_lists_v2_test_2() {
    let list1 = to_list(vec![]);
    let list2 = to_list(vec![]);
    let res = MergeSolutionV2::merge_two_lists(list1, list2);
    let expect = to_list(vec![]);
    assert_eq!(res, expect);
}

#[test]
fn merge_two_lists_v2_test_3() {
    let list1 = to_list(vec![]);
    let list2 = to_list(vec![0]);
    let res = MergeSolutionV2::merge_two_lists(list1, list2);
    let expect = to_list(vec![0]);
    assert_eq!(res, expect);
}

#[test]
fn merged_sorted_lists_keep_every_value_in_order() {
    let merged = into_values(MergeSolution::merge_two_lists(to_list(vec![-3, 0, 0, 9]), to_list(vec![-5, 0, 10])));
    assert_eq!(merged, vec![-5, -3, 0, 0, 0, 9, 10]);
}

#[test]
fn test_remove_nodes() {
    let head1 = to_list(vec![1, 1, 1, 1]);
    let expected1 = to_list(vec![1, 1, 1, 1]);
    let result1 = RemoveNodesSolution::remove_nodes(head1);
    assert_eq!(result1, expected1);

    let head2 = to_list(vec![5, 4, 3, 2, 1]);
    let expected2 = to_list(vec![5, 4, 3, 2, 1]);
    let result2 = RemoveNodesSolution::remove_nodes(head2);
    assert_eq!(result2, expected2);

    let head3 = to_list(vec![1, 2, 8, 4, 5]);
    let expected3 = to_list(vec![8, 5]);
    let result3 = RemoveNodesSolution::remove_nodes(head3);
    assert_eq!(result3, expected3);

    let head4 = to_list(vec![]);
    let expected4 = to_list(vec![]);
    let result4 = RemoveNodesSolution::remove_nodes(head4);
    assert_eq!(result4, expected4);

    let head5 = to_list(vec![100]);
    let expected5 = to_list(vec![100]);
    let result5 = RemoveNodesSolution::remove_nodes(head5);
    assert_eq!(result5, expected5);
}

#[test]
fn remove_nodes_keeps_the_suffix_maxima() {
    let result = into_values(RemoveNodesSolution::remove_nodes(to_list(vec![5, 2, 13, 3, 8])));
    assert_eq!(result, vec![13, 8]);
}

#[test]
fn test_remove_elements_1() {
    let head = to_list(vec![1, 2, 6, 3, 4, 5, 6]);
    let new_head = RemoveSolution::remove_elements(head, 6);
    let expected = to_list(vec![1, 2, 3, 4, 5]);
    assert_eq!(new_head, expected);
}

#[test]
fn test_remove_elements_2() {
    let head = to_list(vec![7, 7, 7, 7, 7]);
    let new_head = RemoveSolution::remove_elements(head, 7);
    let expected = None;
    assert_eq!(new_head, expected);
}

#[test]
fn removing_twice_removes_nothing_more() {
    let once = RemoveSolution::remove_elements(to_list(vec![3, 1, 3, 2]), 3);
    let twice = RemoveSolution::remove_elements(to_list(vec![1, 2]), 3);
    assert_eq!(once, twice);
    assert_eq!(into_values(once), vec![1, 2]);
}

#[test]
fn test_delete_duplicates_empty_list() {
    assert_eq!(DedupSolution::delete_duplicates(None), None);

    let list = to_list(vec![1, 1, 2]);
    let expected = to_list(vec![1, 2]);
    assert_eq!(DedupSolution::delete_duplicates(list), expected);

    let list = to_list(vec![1, 1, 2, 3, 3]);
    let expected = to_list(vec![1, 2, 3]);
    assert_eq!(DedupSolution::delete_duplicates(list), expected);
}

#[test]
fn delete_duplicates_is_idempotent_on_an_example() {
    let once = DedupSolution::delete_duplicates(to_list(vec![2, 2, 2, 4, 4, 9]));
    assert_eq!(into_values(DedupSolution::delete_duplicates(once)), vec![2, 4, 9]);
}

#[test]
fn delete_nodes_test_1() {
    let nums = vec![1, 2, 3];
    let head = to_list(vec![1, 2, 3, 4, 5]);
    let result = DeleteSolution::modified_list(nums, head);
    assert_eq!(to_list(vec![4, 5]), result);
}

#[test]
fn delete_nodes_test_2() {
    let nums = vec![1];
    let head = to_list(vec![1, 2, 1, 2, 1, 2]);
    let result = DeleteSolution::modified_list(nums, head);
    assert_eq!(to_list(vec![2, 2, 2]), result);
}

#[test]
fn delete_nodes_test_3() {
    let nums = vec![5];
    let head = to_list(vec![1, 2, 3, 4]);
    let result = DeleteSolution::modified_list(nums, head);
    assert_eq!(to_list(vec![1, 2, 3, 4]), result);
}

#[test]
fn add_two_numbers_of_large_values_carries_far() {
    let sum = AddSolution::add_two_numbers(to_list(vec![1_000_000_000]), to_list(vec![1_000_000_000]));
    assert_eq!(into_values(sum), vec![0, 0, 0, 0, 0, 0, 0, 0, 0, 2]);
}
