use csstree::utils::list::{List, Node};
use csstree::utils::str_map::{str_eq, StrMap};

#[test]
fn str_map_insert_and_lookup() {
    let mut m: StrMap<i32> = StrMap::new();
    assert_eq!(m.len(), 0);
    m.insert("a".to_string(), 1);
    m.insert("b".to_string(), 2);
    assert_eq!(m.len(), 2);
    assert_eq!(m.get("a"), Some(&1));
    assert_eq!(m.get("b"), Some(&2));
    assert_eq!(m.get("c"), None);
    assert!(m.contains_key("a"));
    assert!(!m.contains_key("A"));
}

#[test]
fn str_map_insert_replaces_in_place() {
    let mut m: StrMap<i32> = StrMap::new();
    m.insert("a".to_string(), 1);
    m.insert("b".to_string(), 2);
    m.insert("a".to_string(), 3);
    assert_eq!(m.len(), 2);
    assert_eq!(m.get("a"), Some(&3));
    let (k, v) = m.entry(0);
    assert_eq!((k.as_str(), *v), ("a", 3));
    let entries = m.into_entries();
    assert_eq!(entries, vec![("a".to_string(), 3), ("b".to_string(), 2)]);
}

#[test]
fn string_equality() {
    assert!(str_eq("abc", "abc"));
    assert!(!str_eq("abc", "abd"));
    assert!(!str_eq("ab", "abc"));
}

#[test]
fn list_append_prepend_and_ends() {
    let mut list: List<i32> = List::new();
    assert!(list.is_empty());
    assert_eq!(list.first(), None);
    assert_eq!(list.last(), None);
    list.append(2);
    list.append(3);
    list.prepend(1);
    assert!(!list.is_empty());
    assert_eq!(list.size(), 3);
    assert_eq!(list.first(), Some(1));
    assert_eq!(list.last(), Some(3));
    assert_eq!(list.to_vec(), vec![1, 2, 3]);
}

#[test]
fn list_from_vec_and_iteration() {
    let list = List::from_vec(vec!["x".to_string(), "y".to_string()]);
    assert_eq!(list.size(), 2);
    let mut it = list.into_iter();
    assert_eq!(it.next(), Some("x".to_string()));
    assert_eq!(it.next(), Some("y".to_string()));
    assert_eq!(it.next(), None);
    assert_eq!(it.next(), None);
}

#[test]
fn list_prepend_then_next_gives_it_back() {
    let mut list = List::from_vec(vec![5, 6]);
    list.prepend(4);
    let mut it = list.into_iter();
    assert_eq!(it.next(), Some(4));
    assert_eq!(it.next(), Some(5));
}

#[test]
fn list_remove_of_a_free_node_empties_the_list() {
    let mut list = List::from_vec(vec![1, 2, 3]);
    let node = Node::new(9);
    assert_eq!(node.data, 9);
    assert_eq!(list.remove(node), Some(9));
    assert!(list.is_empty());
    assert_eq!(list.size(), 0);
}

#[test]
fn list_from_vec_round_trip() {
    let v = vec![3, 1, 4, 1, 5];
    let list = List::from_vec(v.clone());
    assert_eq!(list.to_vec(), v);
    assert_eq!(list.size(), v.len());
    assert_eq!(list.is_empty(), v.is_empty());
    assert_eq!(list.first(), v.first().cloned());
    assert_eq!(list.last(), v.last().cloned());
    let empty: List<String> = List::from_vec(Vec::new());
    assert_eq!(empty.to_vec(), Vec::<String>::new());
    assert_eq!(empty.first(), None);
}
