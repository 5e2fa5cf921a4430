pub mod listnode_lib;
pub mod add_two_numbers;
pub mod merge_two_lists;
pub mod merge_two_lists_v2;
pub mod remove_linked_list_elements;
pub mod delete_nodes_linked_list;
pub mod delete_duplicates;
pub mod remove_nodes_from_linked_list;
pub mod text;
pub mod treenode_lib;
pub mod invert_tree;
pub mod same_tree;
pub mod zigzag_level_order;
pub mod third_max_number;
pub mod container_with_most_water;
pub mod two_sum;
pub mod next_greater_element_1;
pub mod top_k_frequent;
pub mod greeting;
pub mod is_palindrome;
pub mod valid_parentheses;
pub mod is_subsequence;
pub mod chatbot;
pub mod tutor;
pub mod word_break;
pub mod valid_palindrome;
pub mod has_cycle;
pub mod max_distinct_elements;
pub mod zigzag_level_order_001;
