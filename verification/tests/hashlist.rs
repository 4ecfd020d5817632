use electrs::hashlist::{same_bytes, HashList};

#[test]
fn empty_list_finds_nothing() {
    let list = HashList::new();
    assert_eq!(list.len(), 0);
    assert_eq!(list.find(&[1, 2, 3]), None);
    assert_eq!(list.find(&[]), None);
}

#[test]
fn hashes_are_found_at_their_places() {
    let hashes: Vec<Vec<u8>> = (0u8..50).map(|i| vec![i; 32]).collect();
    let list = HashList::from_vec(hashes.clone());
    assert_eq!(list.len(), 50);
    for (i, hash) in hashes.iter().enumerate() {
        assert_eq!(list.find(hash), Some(i));
        assert_eq!(list.get(i), hash);
    }
    assert_eq!(list.find(&[50; 32]), None);
    assert_eq!(list.find(&[1; 31]), None);
}

#[test]
fn hash_that_comes_twice_is_found_at_its_lowest_place() {
    let list = HashList::from_vec(vec![vec![7; 32], vec![8; 32], vec![7; 32], vec![8; 32]]);
    assert_eq!(list.find(&[7; 32]), Some(0));
    assert_eq!(list.find(&[8; 32]), Some(1));
}

#[test]
fn hashes_that_start_alike_are_told_apart() {
    let mut a = vec![9u8; 32];
    let mut b = vec![9u8; 32];
    a[8] = 1;
    b[31] = 2;
    let list = HashList::from_vec(vec![vec![9; 32], a.clone(), b.clone()]);
    assert_eq!(list.find(&[9; 32]), Some(0));
    assert_eq!(list.find(&a), Some(1));
    assert_eq!(list.find(&b), Some(2));
    let mut c = vec![9u8; 32];
    c[20] = 3;
    assert_eq!(list.find(&c), None);
}

#[test]
fn short_byte_strings_are_listed_too() {
    let mut list = HashList::new();
    list.push(vec![]);
    list.push(vec![0]);
    list.push(vec![0, 0]);
    list.push(vec![1, 2, 3, 4, 5, 6, 7]);
    list.push(vec![1, 2, 3, 4, 5, 6, 7, 8]);
    list.push(vec![1, 2, 3, 4, 5, 6, 7, 8, 9]);
    assert_eq!(list.find(&[]), Some(0));
    assert_eq!(list.find(&[0]), Some(1));
    assert_eq!(list.find(&[0, 0]), Some(2));
    assert_eq!(list.find(&[0, 0, 0]), None);
    assert_eq!(list.find(&[1, 2, 3, 4, 5, 6, 7]), Some(3));
    assert_eq!(list.find(&[1, 2, 3, 4, 5, 6, 7, 8]), Some(4));
    assert_eq!(list.find(&[1, 2, 3, 4, 5, 6, 7, 8, 9]), Some(5));
    assert_eq!(list.len(), 6);
}

#[test]
fn push_keeps_what_was_there() {
    let mut list = HashList::from_vec(vec![vec![0xFF; 8]]);
    list.push(vec![0xFF; 9]);
    list.push(vec![0xFF; 8]);
    assert_eq!(list.find(&[0xFF; 8]), Some(0));
    assert_eq!(list.find(&[0xFF; 9]), Some(1));
    assert_eq!(list.get(2), &vec![0xFF; 8]);
}

#[test]
fn same_bytes_compares_length_and_content() {
    assert!(same_bytes(&[], &[]));
    assert!(same_bytes(&[1, 2], &[1, 2]));
    assert!(!same_bytes(&[1, 2], &[1, 3]));
    assert!(!same_bytes(&[1, 2], &[1, 2, 0]));
}
