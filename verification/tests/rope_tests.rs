use rope_editor::rope::{
    chars_of, checked_length, concatenate, delete, flatten, index_at, insert, insert_chars,
    length_of, report,
    share, split, NodeRef, RopeNode,
};
use std::rc::Rc;

fn leaf(text: &str) -> NodeRef {
    RopeNode::new_leaf(text)
}

#[test]
fn new_leaf_holds_its_text() {
    let node = leaf("hello");
    assert_eq!(report(&node), "hello");
    assert_eq!(length_of(&node), 5);
    match node {
        Some(n) => assert!(matches!(&*n, RopeNode::Leaf { data } if data.len() == 5)),
        None => panic!("a leaf is a node"),
    }
}

#[test]
fn leaf_of_holds_the_given_characters() {
    let node = RopeNode::leaf_of(vec!['a', 'b']);
    assert_eq!(report(&node), "ab");
}

#[test]
fn absent_tree_is_empty() {
    let none: NodeRef = None;
    assert_eq!(report(&none), "");
    assert_eq!(length_of(&none), 0);
    assert_eq!(flatten(&none), Vec::<char>::new());
    assert_eq!(index_at(&none, 0), None);
    let (l, r) = split(&none, 3);
    assert!(l.is_none());
    assert!(r.is_none());
}

#[test]
fn length_counts_characters_not_bytes() {
    let node = leaf("héllo wörld ✓");
    assert_eq!(length_of(&node), 13);
    assert_eq!("héllo wörld ✓".len(), 17);
    let joined = concatenate(leaf("é"), leaf("✓✓"));
    assert_eq!(length_of(&joined), 3);
    match &joined {
        Some(n) => match &**n {
            RopeNode::Internal { weight, .. } => assert_eq!(*weight, 1),
            RopeNode::Leaf { .. } => panic!("a concatenation is an internal node"),
        },
        None => panic!("a concatenation is a node"),
    }
}

#[test]
fn node_length_matches_tree_length() {
    let joined = concatenate(concatenate(leaf("ab"), leaf("cde")), leaf("f"));
    match &joined {
        Some(n) => assert_eq!(n.length(), 6),
        None => panic!("a concatenation is a node"),
    }
}

#[test]
fn new_internal_caches_left_length() {
    let node = RopeNode::new_internal(leaf("abc"), leaf("de"));
    match &node {
        Some(n) => match &**n {
            RopeNode::Internal { weight, left, right } => {
                assert_eq!(*weight, 3);
                assert_eq!(report(left), "abc");
                assert_eq!(report(right), "de");
            }
            RopeNode::Leaf { .. } => panic!("expected an internal node"),
        },
        None => panic!("expected a node"),
    }
    let one_sided = RopeNode::new_internal(None, leaf("xy"));
    assert_eq!(report(&one_sided), "xy");
    assert_eq!(length_of(&one_sided), 2);
}

#[test]
fn concatenate_keeps_order() {
    let joined = concatenate(leaf("hello "), leaf("world"));
    assert_eq!(report(&joined), "hello world");
    assert_eq!(length_of(&joined), 11);
}

#[test]
fn index_at_walks_by_weight() {
    let tree = concatenate(concatenate(leaf("ab"), leaf("cd")), leaf("é!"));
    let expected = ['a', 'b', 'c', 'd', 'é', '!'];
    for (i, c) in expected.iter().enumerate() {
        assert_eq!(index_at(&tree, i), Some(*c));
    }
    assert_eq!(index_at(&tree, 6), None);
    assert_eq!(index_at(&tree, usize::MAX), None);
}

#[test]
fn split_leaf_by_character_offset() {
    let node = leaf("héllo");
    let (l, r) = split(&node, 2);
    assert_eq!(report(&l), "hé");
    assert_eq!(report(&r), "llo");
    let (l, r) = split(&node, 0);
    assert_eq!(report(&l), "");
    assert_eq!(report(&r), "héllo");
    let (l, r) = split(&node, 5);
    assert_eq!(report(&l), "héllo");
    assert_eq!(report(&r), "");
}

#[test]
fn split_beyond_end_is_taken_as_end() {
    let tree = concatenate(leaf("abc"), leaf("def"));
    let (l, r) = split(&tree, 100);
    assert_eq!(report(&l), "abcdef");
    assert_eq!(report(&r), "");
}

#[test]
fn split_internal_at_every_index_round_trips() {
    let tree = concatenate(concatenate(leaf("ab"), leaf("")), concatenate(leaf("cde"), leaf("f")));
    let whole = report(&tree);
    assert_eq!(whole, "abcdef");
    for i in 0..=6 {
        let (l, r) = split(&tree, i);
        assert_eq!(report(&l), &whole[..i]);
        assert_eq!(report(&r), &whole[i..]);
        assert_eq!(report(&concatenate(l, r)), whole);
    }
    assert_eq!(report(&tree), "abcdef");
}

#[test]
fn insert_at_boundaries_and_middle() {
    let root = leaf("hello");
    assert_eq!(report(&insert(share(&root), 0, ">> ")), ">> hello");
    assert_eq!(report(&insert(share(&root), 5, "!")), "hello!");
    assert_eq!(report(&insert(share(&root), 2, "--")), "he--llo");
    assert_eq!(report(&insert(share(&root), 3, "")), "hello");
    assert_eq!(report(&insert(share(&root), 99, "?")), "hello?");
    assert_eq!(report(&root), "hello");
}

#[test]
fn insert_grows_length_by_character_count() {
    let root = concatenate(leaf("ab"), leaf("cd"));
    let grown = insert(share(&root), 1, "é✓z");
    assert_eq!(length_of(&grown), 4 + 3);
    assert_eq!(report(&grown), "aé✓zbcd");
}

#[test]
fn insert_chars_puts_characters_in() {
    let root = leaf("ad");
    let grown = insert_chars(root, 1, vec!['b', 'c']);
    assert_eq!(report(&grown), "abcd");
}

#[test]
fn delete_removes_range() {
    let root = concatenate(leaf("hello "), leaf("world"));
    assert_eq!(report(&delete(share(&root), 0, 6)), "world");
    assert_eq!(report(&delete(share(&root), 5, 11)), "hello");
    assert_eq!(report(&delete(share(&root), 3, 8)), "helrld");
    assert_eq!(report(&delete(share(&root), 4, 4)), "hello world");
    assert_eq!(report(&root), "hello world");
}

#[test]
fn delete_guards_out_of_range() {
    let root = leaf("abcdef");
    assert_eq!(report(&delete(share(&root), 4, 100)), "abcd");
    assert_eq!(report(&delete(share(&root), 100, 200)), "abcdef");
    assert_eq!(report(&delete(share(&root), 4, 2)), "abcdef");
}

#[test]
fn insert_then_delete_restores() {
    let root = concatenate(leaf("one "), leaf("three"));
    let t = "two ";
    for i in 0..=9usize {
        let once = insert(share(&root), i, t);
        let back = delete(share(&once), i, i + 4);
        assert_eq!(report(&back), "one three");
        let again = insert(back, i, t);
        assert_eq!(report(&again), report(&once));
    }
}

#[test]
fn flatten_gives_characters_in_order() {
    let tree = concatenate(leaf("a✓"), concatenate(None, leaf("b")));
    assert_eq!(flatten(&tree), vec!['a', '✓', 'b']);
    assert_eq!(report(&tree), "a✓b");
}

#[test]
fn chars_of_lists_characters() {
    assert_eq!(chars_of("aé\n"), vec!['a', 'é', '\n']);
    assert_eq!(chars_of(""), Vec::<char>::new());
}

#[test]
fn share_points_to_the_same_node() {
    let root = leaf("shared");
    let other = share(&root);
    match (&root, &other) {
        (Some(a), Some(b)) => assert!(Rc::ptr_eq(a, b)),
        _ => panic!("both are nodes"),
    }
    let none: NodeRef = None;
    assert!(share(&none).is_none());
}

#[test]
fn edits_leave_earlier_versions_intact() {
    let v1 = leaf("abc");
    let v2 = insert(share(&v1), 1, "XY");
    let v3 = delete(share(&v2), 0, 2);
    assert_eq!(report(&v1), "abc");
    assert_eq!(report(&v2), "aXYbc");
    assert_eq!(report(&v3), "Ybc");
}

#[test]
fn checked_length_finds_a_wrong_weight() {
    let good = concatenate(leaf("ab"), concatenate(leaf("c"), None));
    assert_eq!(checked_length(&good), Some(3));
    let none: NodeRef = None;
    assert_eq!(checked_length(&none), Some(0));
    let bad: NodeRef = Some(Rc::new(RopeNode::Internal {
        weight: 5,
        left: leaf("ab"),
        right: None,
    }));
    assert_eq!(checked_length(&bad), None);
    let nested: NodeRef = Some(Rc::new(RopeNode::Internal {
        weight: 1,
        left: leaf("x"),
        right: bad,
    }));
    assert_eq!(checked_length(&nested), None);
}
