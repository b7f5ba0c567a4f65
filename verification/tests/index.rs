use op_store::ids::{ElemId, OpId};
use op_store::index::{ChangeVisibility, Index, TextWidth};
use op_store::op::{ListEncoding, Op};
use op_store::op_iter::OpSet;
use op_store::types::{Action, Key, KeyRef, ScalarValue};

fn id(counter: u64, actor: usize) -> OpId {
    OpId::new(counter, actor)
}

fn put<'a>(op_id: OpId, key: KeyRef<'a>, value: ScalarValue<'a>, succ: &'a [OpId]) -> Op<'a> {
    Op {
        pos: 0,
        id: op_id,
        key,
        action: Action::Put,
        value,
        insert: false,
        succ,
        mark_name: None,
        expand: false,
    }
}

fn insert_text<'a>(op_id: OpId, after: OpId, text: &'a str) -> Op<'a> {
    Op {
        pos: 0,
        id: op_id,
        key: KeyRef::SeqElem(ElemId(after)),
        action: Action::Put,
        value: ScalarValue::Str(text),
        insert: true,
        succ: &[],
        mark_name: None,
        expand: false,
    }
}

fn mark_begin<'a>(op_id: OpId, name: &'a str, value: ScalarValue<'a>) -> Op<'a> {
    Op {
        pos: 0,
        id: op_id,
        key: KeyRef::SeqElem(ElemId(id(1, 0))),
        action: Action::Mark,
        value,
        insert: true,
        succ: &[],
        mark_name: Some(name),
        expand: true,
    }
}

fn mark_end(op_id: OpId) -> Op<'static> {
    Op {
        pos: 0,
        id: op_id,
        key: KeyRef::SeqElem(ElemId(id(1, 0))),
        action: Action::Mark,
        value: ScalarValue::Null,
        insert: true,
        succ: &[],
        mark_name: None,
        expand: false,
    }
}

fn build(ops: &[Op<'_>]) -> Index {
    let mut index = Index::new();
    for op in ops {
        assert!(index.can_insert(op));
        index.insert(op);
    }
    index
}

#[test]
fn new_index_is_empty() {
    let index = Index::new();
    assert!(index.has_never_seen_puts());
    assert_eq!(index.visible_len(ListEncoding::List), 0);
    assert_eq!(index.visible_len(ListEncoding::Text), 0);
    assert!(!index.has_visible(&Key::MapKey("k".to_string())));
    assert!(!index.has_op(&id(1, 0)));
    assert_eq!(index.mark_begin_len(), 0);
    assert!(index.mark_end().is_empty());
    assert_eq!(index, Index::default());
}

#[test]
fn insert_counts_visible_ops_by_key() {
    let a = put(id(1, 0), KeyRef::MapKey("k"), ScalarValue::Str("hello"), &[]);
    let b = put(id(1, 1), KeyRef::MapKey("k"), ScalarValue::Str("wide text"), &[]);
    let over = [id(9, 0)];
    let c = put(id(2, 0), KeyRef::MapKey("gone"), ScalarValue::Int(1), &over);
    let mut index = Index::new();
    index.insert(&a);
    assert_eq!(index.visible_count(&Key::MapKey("k".to_string())), 1);
    assert_eq!(index.visible_len(ListEncoding::Text), 5);
    index.insert(&b);
    assert_eq!(index.visible_count(&Key::MapKey("k".to_string())), 2);
    assert_eq!(index.visible_len(ListEncoding::List), 1);
    // only the first op seen at a key adds its width
    assert_eq!(index.visible_len(ListEncoding::Text), 5);
    index.insert(&c);
    assert!(!index.has_visible(&Key::MapKey("gone".to_string())));
    assert!(index.has_op(&id(2, 0)));
    assert!(index.has_op(&id(1, 1)));
    assert!(!index.has_never_seen_puts());
}

#[test]
fn inserted_elements_are_keyed_by_their_own_id() {
    let a = insert_text(id(2, 0), id(1, 0), "ab");
    let b = insert_text(id(3, 0), id(1, 0), "c");
    let index = build(&[a, b]);
    assert!(index.has_visible(&Key::SeqElem(ElemId(id(2, 0)))));
    assert!(index.has_visible(&Key::from(ElemId(id(3, 0)))));
    assert!(!index.has_visible(&Key::SeqElem(ElemId(id(1, 0)))));
    assert_eq!(index.visible_len(ListEncoding::List), 2);
    assert_eq!(index.visible_len(ListEncoding::Text), 3);
    assert!(index.has_never_seen_puts());
}

#[test]
fn change_vis_takes_the_key_away() {
    let op = insert_text(id(2, 0), id(1, 0), "héllo");
    let mut index = build(&[op]);
    let key = Key::SeqElem(ElemId(id(2, 0)));
    assert!(index.has_visible(&key));
    assert_eq!(index.visible_len(ListEncoding::Text), 5);
    let change = ChangeVisibility {
        old_vis: true,
        new_vis: false,
        op: &op,
    };
    assert!(index.can_change_vis(&change));
    let back = index.change_vis(change);
    assert!(back.old_vis);
    assert!(!back.new_vis);
    assert_eq!(back.op.id, op.id);
    assert!(!index.has_visible(&key));
    assert_eq!(index.visible_len(ListEncoding::List), 0);
    assert_eq!(index.visible_len(ListEncoding::Text), 0);
    assert!(index.has_op(&op.id));
}

#[test]
fn change_vis_in_both_directions_and_none() {
    let op = put(id(1, 0), KeyRef::MapKey("k"), ScalarValue::Str("abc"), &[]);
    let mut index = Index::new();
    let key = Key::MapKey("k".to_string());
    let up = ChangeVisibility {
        old_vis: false,
        new_vis: true,
        op: &op,
    };
    index.change_vis(up);
    index.change_vis(up);
    assert_eq!(index.visible_count(&key), 2);
    assert_eq!(index.visible_len(ListEncoding::Text), 3);
    let same = ChangeVisibility {
        old_vis: true,
        new_vis: true,
        op: &op,
    };
    index.change_vis(same);
    let never = ChangeVisibility {
        old_vis: false,
        new_vis: false,
        op: &op,
    };
    index.change_vis(never);
    assert_eq!(index.visible_count(&key), 2);
    let down = ChangeVisibility {
        old_vis: true,
        new_vis: false,
        op: &op,
    };
    index.change_vis(down);
    assert_eq!(index.visible_count(&key), 1);
    assert_eq!(index.visible_len(ListEncoding::Text), 3);
    index.change_vis(down);
    assert_eq!(index.visible_count(&key), 0);
    assert_eq!(index.visible_len(ListEncoding::Text), 0);
    assert!(!index.can_change_vis(&down));
}

#[test]
fn mark_pairing() {
    let begin = mark_begin(id(7, 0), "bold", ScalarValue::Boolean(true));
    let end = mark_end(id(8, 0));
    let mut index = Index::new();
    index.insert(&begin);
    assert!(index.has_mark_begin(&id(7, 0)));
    assert_eq!(index.mark_begin_len(), 1);
    index.insert(&end);
    assert_eq!(index.mark_begin_len(), 0);
    assert!(!index.has_mark_begin(&id(7, 0)));
    assert!(index.mark_end().is_empty());
}

#[test]
fn unpaired_mark_end() {
    let end = mark_end(id(42, 0));
    let mut index = Index::new();
    index.insert(&end);
    assert_eq!(index.mark_end(), &[id(42, 0)]);
    assert_eq!(index.mark_begin_len(), 0);
}

#[test]
fn mark_end_of_another_actor_or_at_the_start_stays_unpaired() {
    let begin = mark_begin(id(7, 0), "bold", ScalarValue::Boolean(true));
    let other = mark_end(id(8, 1));
    let first = mark_end(id(0, 0));
    let index = build(&[begin, other, first]);
    assert!(index.has_mark_begin(&id(7, 0)));
    assert_eq!(index.mark_end(), &[id(8, 1), id(0, 0)]);
}

#[test]
fn remove_takes_marks_and_ids_away() {
    let begin = mark_begin(id(7, 0), "bold", ScalarValue::Boolean(true));
    let end = mark_end(id(42, 0));
    let again = mark_end(id(43, 0));
    let mut index = build(&[begin, end, again]);
    assert!(index.can_remove(&end));
    index.remove(&end);
    assert_eq!(index.mark_end(), &[id(43, 0)]);
    assert!(!index.has_op(&id(42, 0)));
    index.remove(&begin);
    assert_eq!(index.mark_begin_len(), 0);
    assert!(index.has_op(&id(43, 0)));
}

#[test]
fn remove_saturates_the_width() {
    let short = put(id(1, 0), KeyRef::SeqElem(ElemId(id(9, 9))), ScalarValue::Str("a"), &[]);
    let long = put(
        id(1, 1),
        KeyRef::SeqElem(ElemId(id(9, 9))),
        ScalarValue::Str("longer"),
        &[],
    );
    let mut index = build(&[short, long]);
    assert_eq!(index.visible_len(ListEncoding::Text), 1);
    index.remove(&short);
    assert_eq!(index.visible_len(ListEncoding::Text), 1);
    index.remove(&long);
    assert_eq!(index.visible_len(ListEncoding::Text), 0);
    assert_eq!(index.visible_len(ListEncoding::List), 0);
    let gone = put(id(5, 0), KeyRef::MapKey("never"), ScalarValue::Null, &[]);
    assert!(!index.can_remove(&gone));
}

#[test]
fn insert_then_remove_in_reverse_gives_the_empty_index() {
    let over = [id(20, 0)];
    let ops = [
        insert_text(id(2, 0), id(1, 0), "ab"),
        insert_text(id(3, 0), id(2, 0), "c"),
        mark_begin(id(7, 0), "bold", ScalarValue::Str("yes")),
        mark_end(id(8, 0)),
        mark_end(id(30, 1)),
        Op {
            insert: true,
            ..put(id(4, 0), KeyRef::MapKey("x"), ScalarValue::Uint(1), &over)
        },
        insert_text(id(2, 0), id(1, 0), "ab"),
    ];
    let mut index = build(&ops);
    assert_ne!(index, Index::new());
    for op in ops.iter().rev() {
        assert!(index.can_remove(op));
        index.remove(op);
    }
    assert_eq!(index, Index::new());
}

#[test]
fn removing_does_not_forget_a_put() {
    let ops = [
        insert_text(id(2, 0), id(1, 0), "ab"),
        put(id(3, 0), KeyRef::MapKey("k"), ScalarValue::Int(3), &[]),
    ];
    let mut index = build(&ops);
    assert!(!index.has_never_seen_puts());
    for op in ops.iter().rev() {
        index.remove(op);
    }
    assert!(!index.has_never_seen_puts());
    assert_eq!(index.visible_len(ListEncoding::List), 0);
    assert_eq!(index.visible_len(ListEncoding::Text), 0);
    assert_ne!(index, Index::new());
}

#[test]
fn never_seen_puts_is_all_insert() {
    let a = insert_text(id(2, 0), id(1, 0), "a");
    let b = insert_text(id(3, 0), id(2, 0), "b");
    let p = put(id(4, 0), KeyRef::SeqElem(ElemId(id(2, 0))), ScalarValue::Str("z"), &[]);
    assert!(build(&[]).has_never_seen_puts());
    assert!(build(&[a, b]).has_never_seen_puts());
    assert!(!build(&[a, p, b]).has_never_seen_puts());
    assert!(!build(&[p]).has_never_seen_puts());
    let mut left = build(&[a]);
    left.merge(&build(&[b]));
    assert!(left.has_never_seen_puts());
    left.merge(&build(&[p]));
    assert!(!left.has_never_seen_puts());
}

#[test]
fn merge_is_building_from_both() {
    let first = [
        insert_text(id(2, 0), id(1, 0), "ab"),
        put(id(5, 0), KeyRef::MapKey("k"), ScalarValue::Int(1), &[]),
        mark_end(id(30, 1)),
        mark_begin(id(7, 0), "bold", ScalarValue::Str("yes")),
    ];
    let second = [
        insert_text(id(3, 1), id(2, 0), "cde"),
        mark_begin(id(11, 1), "link", ScalarValue::Str("url")),
        mark_end(id(12, 1)),
        mark_end(id(40, 1)),
        put(id(6, 1), KeyRef::MapKey("other"), ScalarValue::Int(2), &[]),
        put(id(6, 2), KeyRef::MapKey("other"), ScalarValue::Int(3), &[]),
    ];
    let mut merged = build(&first);
    let right = build(&second);
    assert!(merged.can_merge(&right));
    merged.merge(&right);
    let mut all = Vec::new();
    all.extend_from_slice(&first);
    all.extend_from_slice(&second);
    let whole = build(&all);
    assert_eq!(merged, whole);
    assert_eq!(merged.visible_len(ListEncoding::Text), 2 + 1 + 3 + 1 + 1 + 1);
    assert_eq!(merged.mark_end(), &[id(30, 1), id(40, 1)]);
    assert!(merged.has_mark_begin(&id(7, 0)));
    assert_eq!(merged.visible_count(&Key::MapKey("other".to_string())), 2);
}

#[test]
fn merge_adds_counts_of_a_key_on_both_sides() {
    let a = put(id(1, 0), KeyRef::MapKey("k"), ScalarValue::Str("ab"), &[]);
    let b = put(id(1, 1), KeyRef::MapKey("k"), ScalarValue::Str("cde"), &[]);
    let mut left = build(&[a]);
    left.merge(&build(&[b, b]));
    assert_eq!(left.visible_count(&Key::MapKey("k".to_string())), 3);
    // both sides added a width for the key
    assert_eq!(left.visible_len(ListEncoding::Text), 5);
    assert_eq!(left.visible_len(ListEncoding::List), 1);
}

#[test]
fn merge_does_not_pair_marks_across_nodes() {
    let begin = mark_begin(id(7, 0), "bold", ScalarValue::Boolean(true));
    let end = mark_end(id(8, 0));
    let mut left = build(&[begin]);
    left.merge(&build(&[end]));
    assert!(left.has_mark_begin(&id(7, 0)));
    assert_eq!(left.mark_end(), &[id(8, 0)]);
}

#[test]
fn clone_is_equal_and_apart() {
    let a = insert_text(id(2, 0), id(1, 0), "ab");
    let mut index = build(&[a, mark_end(id(9, 0))]);
    let copy = index.clone();
    assert_eq!(copy, index);
    index.remove(&a);
    assert_ne!(copy, index);
    assert!(copy.has_visible(&Key::SeqElem(ElemId(id(2, 0)))));
}

#[test]
fn text_width_adds_and_saturates() {
    let a = insert_text(id(2, 0), id(1, 0), "abc");
    let n = put(id(3, 0), KeyRef::MapKey("k"), ScalarValue::Int(1234), &[]);
    let mut w = TextWidth { width: 0 };
    w.add_op(&a);
    w.add_op(&n);
    assert_eq!(w.width, 4);
    w.merge(&TextWidth { width: 10 });
    assert_eq!(w.width, 14);
    w.remove_op(&a);
    assert_eq!(w.width, 11);
    let mut small = TextWidth { width: 2 };
    small.remove_op(&a);
    assert_eq!(small.width, 0);
}

#[test]
fn build_from_a_store_is_inserting_row_by_row() {
    let ops = [
        insert_text(id(2, 0), id(1, 0), "ab"),
        put(id(5, 0), KeyRef::MapKey("k"), ScalarValue::Int(1), &[]),
        mark_begin(id(7, 0), "bold", ScalarValue::Str("yes")),
        mark_end(id(30, 1)),
    ];
    let mut set = OpSet::new();
    for op in ops {
        set.push(op);
    }
    let index = Index::build(&set).unwrap();
    assert_eq!(index, build(&ops));
    assert_eq!(index.ops_len(), 4);
    assert_eq!(Index::build(&OpSet::new()), Some(Index::new()));
}

#[test]
fn merge_keeps_the_mark_of_the_index_taken_in() {
    let ours = mark_begin(id(7, 0), "bold", ScalarValue::Boolean(true));
    let theirs = mark_begin(id(7, 0), "italic", ScalarValue::Boolean(false));
    let apart = mark_begin(id(9, 0), "bold", ScalarValue::Boolean(true));
    let mut left = build(&[ours]);
    assert!(!left.shares_mark_with(&build(&[apart])));
    assert!(!left.shares_mark_with(&Index::new()));
    assert!(!Index::new().shares_mark_with(&left));
    assert!(left.shares_mark_with(&build(&[apart, theirs])));
    left.merge(&build(&[theirs]));
    assert_eq!(left.mark_begin_len(), 1);
    assert!(left.has_mark_begin(&id(7, 0)));
    // the mark of the index taken in stays, as it does when the second
    // operation is inserted after the first
    let mut other = build(&[ours]);
    other.remove(&ours);
    other.merge(&build(&[theirs]));
    assert_eq!(other, build(&[theirs]));
    let mut ends = build(&[ours, theirs]);
    ends.remove(&theirs);
    assert_eq!(ends.mark_begin_len(), 0);
}

#[test]
fn try_insert_and_try_merge_do_what_insert_and_merge_do() {
    let a = insert_text(id(2, 0), id(1, 0), "ab");
    let p = put(id(3, 0), KeyRef::MapKey("k"), ScalarValue::Int(3), &[]);
    let mut index = Index::new();
    assert!(index.try_insert(&a));
    assert!(index.try_insert(&p));
    assert_eq!(index, build(&[a, p]));
    let mut left = build(&[a]);
    assert!(left.try_merge(&build(&[p])));
    assert_eq!(left, build(&[a, p]));
}

#[test]
fn the_flag_falls_with_the_first_op_that_does_not_insert() {
    let over = [id(50, 0)];
    let ops = [
        insert_text(id(2, 0), id(1, 0), "a"),
        mark_end(id(9, 0)),
        Op {
            insert: true,
            ..put(id(3, 0), KeyRef::MapKey("gone"), ScalarValue::Null, &over)
        },
        Op {
            action: Action::Delete,
            ..put(id(4, 0), KeyRef::MapKey("k"), ScalarValue::Null, &over)
        },
        insert_text(id(5, 0), id(2, 0), "b"),
        mark_begin(id(6, 0), "bold", ScalarValue::Null),
    ];
    let mut index = Index::new();
    assert!(index.has_never_seen_puts());
    for (n, op) in ops.iter().enumerate() {
        index.insert(op);
        assert_eq!(
            index.has_never_seen_puts(),
            ops[..=n].iter().all(|op| op.insert)
        );
        assert_eq!(index.has_never_seen_puts(), n < 3);
    }
}

#[test]
fn merge_commutes_but_for_the_order_of_unpaired_ends() {
    let a = build(&[
        insert_text(id(2, 0), id(1, 0), "ab"),
        put(id(5, 0), KeyRef::MapKey("k"), ScalarValue::Str("xyz"), &[]),
        mark_end(id(30, 1)),
        mark_begin(id(7, 0), "bold", ScalarValue::Str("yes")),
    ]);
    let b = build(&[
        put(id(5, 1), KeyRef::MapKey("k"), ScalarValue::Str("q"), &[]),
        put(id(6, 1), KeyRef::MapKey("other"), ScalarValue::Int(2), &[]),
        mark_begin(id(11, 1), "link", ScalarValue::Str("url")),
        mark_end(id(40, 1)),
    ]);
    assert!(!a.shares_mark_with(&b));
    let mut a1 = a.clone();
    let mut b1 = b.clone();
    a1.merge(&b);
    b1.merge(&a);
    for key in [
        Key::MapKey("k".to_string()),
        Key::MapKey("other".to_string()),
        Key::SeqElem(ElemId(id(2, 0))),
        Key::SeqElem(ElemId(id(7, 0))),
        Key::SeqElem(ElemId(id(11, 1))),
        Key::MapKey("none".to_string()),
    ] {
        assert_eq!(a1.visible_count(&key), b1.visible_count(&key));
        assert_eq!(
            a1.visible_count(&key),
            a.visible_count(&key) + b.visible_count(&key)
        );
    }
    assert_eq!(a1.visible_count(&Key::MapKey("k".to_string())), 2);
    assert_eq!(
        a1.visible_len(ListEncoding::List),
        b1.visible_len(ListEncoding::List)
    );
    assert_eq!(
        a1.visible_len(ListEncoding::Text),
        a.visible_len(ListEncoding::Text) + b.visible_len(ListEncoding::Text)
    );
    assert_eq!(
        a1.visible_len(ListEncoding::Text),
        b1.visible_len(ListEncoding::Text)
    );
    assert_eq!(a1.ops_len(), 8);
    assert_eq!(b1.ops_len(), 8);
    for n in [id(2, 0), id(5, 0), id(30, 1), id(7, 0), id(5, 1), id(6, 1), id(11, 1), id(40, 1)] {
        assert!(a1.has_op(&n));
        assert!(b1.has_op(&n));
    }
    assert_eq!(a1.has_never_seen_puts(), b1.has_never_seen_puts());
    assert!(!a1.has_never_seen_puts());
    assert_eq!(a1.mark_begin_len(), 2);
    assert_eq!(b1.mark_begin_len(), 2);
    for n in [id(7, 0), id(11, 1)] {
        assert!(a1.has_mark_begin(&n));
        assert!(b1.has_mark_begin(&n));
    }
    assert_eq!(a1.mark_end(), &[id(30, 1), id(40, 1)]);
    assert_eq!(b1.mark_end(), &[id(40, 1), id(30, 1)]);
    let mut sorted_a = a1.mark_end().to_vec();
    let mut sorted_b = b1.mark_end().to_vec();
    sorted_a.sort();
    sorted_b.sort();
    assert_eq!(sorted_a, sorted_b);
}

#[test]
fn merging_the_empty_index_changes_nothing() {
    let a = build(&[
        insert_text(id(2, 0), id(1, 0), "ab"),
        mark_end(id(30, 1)),
        mark_begin(id(7, 0), "bold", ScalarValue::Str("yes")),
    ]);
    let mut left = a.clone();
    left.merge(&Index::new());
    assert_eq!(left, a);
    let mut right = Index::new();
    right.merge(&a);
    assert_eq!(right, a);
}

#[test]
fn merge_is_associative() {
    let a = build(&[
        insert_text(id(2, 0), id(1, 0), "ab"),
        mark_end(id(30, 1)),
    ]);
    let b = build(&[
        put(id(5, 1), KeyRef::MapKey("k"), ScalarValue::Str("q"), &[]),
        mark_begin(id(11, 1), "link", ScalarValue::Str("url")),
    ]);
    let c = build(&[
        put(id(5, 2), KeyRef::MapKey("k"), ScalarValue::Str("q"), &[]),
        mark_begin(id(11, 1), "bold", ScalarValue::Null),
        mark_end(id(31, 1)),
    ]);
    let mut left = a.clone();
    left.merge(&b);
    left.merge(&c);
    let mut bc = b.clone();
    bc.merge(&c);
    let mut right = a.clone();
    right.merge(&bc);
    assert_eq!(left, right);
}
