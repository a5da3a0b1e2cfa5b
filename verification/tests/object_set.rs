use brep_core::object_set::ObjectSet;
use brep_core::storage::{Handle, Store};

fn handles(n: usize) -> (Store<u32>, Vec<Handle<u32>>) {
    let mut store = Store::new();
    let mut hs = Vec::new();
    let mut i: u32 = 0;
    while (i as usize) < n {
        hs.push(store.insert(i));
        i += 1;
    }
    (store, hs)
}

#[test]
fn new_then_len_returns_count() {
    let (_s, hs) = handles(5);
    let set = ObjectSet::new(hs);
    assert_eq!(set.len(), 5);
    assert!(!set.is_empty());
}

#[test]
fn empty_set() {
    let set: ObjectSet<u32> = ObjectSet::new(Vec::new());
    assert_eq!(set.len(), 0);
    assert!(set.is_empty());
}

#[test]
fn handles_compare_by_identity_not_content() {
    let mut store: Store<u32> = Store::new();
    let h1 = store.insert(7);
    let h2 = store.insert(7);
    assert_ne!(h1.id(), h2.id());
    assert!(h1 != h2);
    assert!(h1 == h1.clone());
}

#[test]
fn nth_in_and_out_of_bounds() {
    let (_s, hs) = handles(3);
    let expected = hs.clone();
    let set = ObjectSet::new(hs);
    assert_eq!(*set.nth(0).unwrap(), expected[0]);
    assert_eq!(*set.nth(2).unwrap(), expected[2]);
    assert!(set.nth(3).is_none());
}

#[test]
fn nth_circular_wraps_modulo_len() {
    let (_s, hs) = handles(4);
    let expected = hs.clone();
    let set = ObjectSet::new(hs);
    for i in 0..4 {
        assert_eq!(*set.nth_circular(i), expected[i]);
        assert_eq!(*set.nth_circular(i + 4), expected[i]);
        assert_eq!(*set.nth_circular(i + 8), expected[i]);
    }
}

#[test]
fn only_and_first() {
    let (_s, hs) = handles(1);
    let h = hs[0];
    let set = ObjectSet::new(hs);
    assert_eq!(*set.only(), h);
    assert_eq!(*set.first(), h);
}

#[test]
fn contains_and_index_of() {
    let (mut store, hs) = handles(3);
    let expected = hs.clone();
    let set = ObjectSet::new(hs);
    let outsider = store.insert(99);
    assert!(set.contains(&expected[1]));
    assert!(!set.contains(&outsider));
    assert_eq!(set.index_of(&expected[2]), Some(2));
    assert_eq!(set.index_of(&outsider), None);
}

#[test]
fn after_is_circular_successor() {
    let (mut store, hs) = handles(3);
    let expected = hs.clone();
    let set = ObjectSet::new(hs);
    assert_eq!(*set.after(&expected[0]).unwrap(), expected[1]);
    assert_eq!(*set.after(&expected[2]).unwrap(), expected[0]);
    let outsider = store.insert(42);
    assert!(set.after(&outsider).is_none());
}

#[test]
fn iter_returns_elements_in_order() {
    let (_s, hs) = handles(4);
    let expected = hs.clone();
    let set = ObjectSet::new(hs);
    let items = set.iter();
    assert_eq!(items.len(), 4);
    for i in 0..4 {
        assert_eq!(items[i], expected[i]);
    }
}

#[test]
fn pairs_yields_len_pairs_and_closes() {
    let (_s, hs) = handles(4);
    let expected = hs.clone();
    let set = ObjectSet::new(hs);
    let prs = set.pairs();
    assert_eq!(prs.len(), 4);
    for i in 0..4 {
        assert_eq!(prs[i].0, expected[i]);
        assert_eq!(prs[i].1, expected[(i + 1) % 4]);
    }
    assert_eq!(prs[3].1, prs[0].0);
}

#[test]
fn pairs_of_single_element_pairs_it_with_itself() {
    let (_s, hs) = handles(1);
    let h = hs[0];
    let set = ObjectSet::new(hs);
    let prs = set.pairs();
    assert_eq!(prs.len(), 1);
    assert_eq!(prs[0].0, h);
    assert_eq!(prs[0].1, h);
}

#[test]
fn pairs_of_empty_set_is_empty() {
    let set: ObjectSet<u32> = ObjectSet::new(Vec::new());
    assert_eq!(set.pairs().len(), 0);
}

#[test]
fn replace_with_nothing_removes_the_element() {
    let (_s, hs) = handles(4);
    let expected = hs.clone();
    let set = ObjectSet::new(hs);
    let out = set.replace(&expected[1], &[]).unwrap();
    assert_eq!(out.len(), 3);
    assert!(!out.contains(&expected[1]));
    assert_eq!(*out.nth(0).unwrap(), expected[0]);
    assert_eq!(*out.nth(1).unwrap(), expected[2]);
    assert_eq!(*out.nth(2).unwrap(), expected[3]);
    // The receiver is untouched.
    assert_eq!(set.len(), 4);
    assert!(set.contains(&expected[1]));
}

#[test]
fn replace_with_one_keeps_length_and_position() {
    let (mut store, hs) = handles(4);
    let expected = hs.clone();
    let set = ObjectSet::new(hs);
    let replacement = store.insert(50);
    let out = set.replace(&expected[2], &[replacement]).unwrap();
    assert_eq!(out.len(), 4);
    assert_eq!(*out.nth(2).unwrap(), replacement);
    assert_eq!(*out.nth(0).unwrap(), expected[0]);
    assert_eq!(*out.nth(1).unwrap(), expected[1]);
    assert_eq!(*out.nth(3).unwrap(), expected[3]);
}

#[test]
fn replace_with_two_splices_in_order() {
    let (mut store, hs) = handles(3);
    let expected = hs.clone();
    let set = ObjectSet::new(hs);
    let ra = store.insert(70);
    let rb = store.insert(71);
    let out = set.replace(&expected[1], &[ra, rb]).unwrap();
    assert_eq!(out.len(), 4);
    assert_eq!(*out.nth(0).unwrap(), expected[0]);
    assert_eq!(*out.nth(1).unwrap(), ra);
    assert_eq!(*out.nth(2).unwrap(), rb);
    assert_eq!(*out.nth(3).unwrap(), expected[2]);
}

#[test]
fn replace_absent_returns_none_whatever_the_replacements() {
    let (mut store, hs) = handles(3);
    let set = ObjectSet::new(hs);
    let outsider = store.insert(90);
    let ra = store.insert(91);
    assert!(set.replace(&outsider, &[]).is_none());
    assert!(set.replace(&outsider, &[ra]).is_none());
    assert!(set.replace(&outsider, &[ra, ra]).is_none());
}
