use simple_json::pairs::{clone_string_entries, copy_entries, find_key, Entry};
use simple_json::partition::{clone_strings, copy_items, find_slot, lower_above, ArrayItem};
use simple_json::text::{chars_of, push_decimal};

fn items(indices: &[usize]) -> Vec<ArrayItem<char>> {
    indices
        .iter()
        .enumerate()
        .map(|(slot, index)| ArrayItem { item: (b'a' + slot as u8) as char, index: *index })
        .collect()
}

fn indices(items: &Vec<ArrayItem<char>>) -> Vec<usize> {
    items.iter().map(|item| item.index).collect()
}

fn values(items: &Vec<ArrayItem<char>>) -> Vec<char> {
    items.iter().map(|item| item.item).collect()
}

#[test]
fn find_slot_finds_the_slot_of_a_logical_index() {
    let partition = items(&[4, 0, 7]);
    assert_eq!(find_slot(&partition, 4), Some(0));
    assert_eq!(find_slot(&partition, 0), Some(1));
    assert_eq!(find_slot(&partition, 7), Some(2));
    assert_eq!(find_slot(&partition, 1), None);
    assert_eq!(find_slot(&items(&[]), 0), None);
}

#[test]
fn lower_above_lowers_only_the_greater_indices() {
    let mut partition = items(&[5, 0, 3, 9, 2]);
    lower_above(&mut partition, 2);
    assert_eq!(indices(&partition), vec![4, 0, 2, 8, 2]);
    assert_eq!(values(&partition), vec!['a', 'b', 'c', 'd', 'e']);

    let mut partition = items(&[0, 1]);
    lower_above(&mut partition, 1);
    assert_eq!(indices(&partition), vec![0, 1]);
}

#[test]
fn partitions_are_copied_slot_by_slot() {
    let partition = items(&[2, 0]);
    let copy = copy_items(&partition);
    assert_eq!(indices(&copy), vec![2, 0]);
    assert_eq!(values(&copy), vec!['a', 'b']);

    let strings = vec![
        ArrayItem { item: String::from("x"), index: 1 },
        ArrayItem { item: String::from("y"), index: 0 },
    ];
    let copy = clone_strings(&strings);
    assert_eq!(copy.len(), 2);
    assert_eq!((copy[0].item.as_str(), copy[0].index), ("x", 1));
    assert_eq!((copy[1].item.as_str(), copy[1].index), ("y", 0));
}

#[test]
fn find_key_compares_whole_keys() {
    let entries = vec![
        Entry { key: "alpha", value: 1 },
        Entry { key: "al", value: 2 },
        Entry { key: "", value: 3 },
    ];
    assert_eq!(find_key(&entries, "alpha"), Some(0));
    assert_eq!(find_key(&entries, "al"), Some(1));
    assert_eq!(find_key(&entries, ""), Some(2));
    assert_eq!(find_key(&entries, "alp"), None);
    assert_eq!(find_key(&entries, "Alpha"), None);
}

#[test]
fn entries_are_copied_slot_by_slot() {
    let entries = vec![Entry { key: "a", value: 1u8 }, Entry { key: "b", value: 2u8 }];
    let copy = copy_entries(&entries);
    assert_eq!(copy.len(), 2);
    assert_eq!((copy[0].key, copy[0].value), ("a", 1));
    assert_eq!((copy[1].key, copy[1].value), ("b", 2));

    let entries = vec![Entry { key: "k", value: String::from("v") }];
    let copy = clone_string_entries(&entries);
    assert_eq!(copy.len(), 1);
    assert_eq!((copy[0].key, copy[0].value.as_str()), ("k", "v"));
}

#[test]
fn chars_of_gives_the_characters_in_order() {
    assert_eq!(chars_of(""), Vec::<char>::new());
    assert_eq!(chars_of("a\"é✓"), vec!['a', '"', 'é', '✓']);
}

#[test]
fn push_decimal_appends_the_number() {
    let mut text = String::from("n=");
    push_decimal(&mut text, 0);
    assert_eq!(text, "n=0");
    push_decimal(&mut text, -7);
    assert_eq!(text, "n=0-7");
    push_decimal(&mut text, 1205);
    assert_eq!(text, "n=0-71205");
    let mut text = String::new();
    push_decimal(&mut text, 10);
    assert_eq!(text, "10");
}
