use op_store::found_op::OpsFoundIter;
use op_store::ids::{ElemId, OpId};
use op_store::op::{Clock, Op};
use op_store::op_iter::{OpQueryTerm, OpSet};
use op_store::types::{Action, KeyRef, ScalarValue};

fn id(counter: u64, actor: usize) -> OpId {
    OpId::new(counter, actor)
}

fn op<'a>(op_id: OpId, key: &'a str, action: Action, succ: &'a [OpId]) -> Op<'a> {
    Op {
        pos: 0,
        id: op_id,
        key: KeyRef::MapKey(key),
        action,
        value: ScalarValue::Int(1),
        insert: false,
        succ,
        mark_name: None,
        expand: false,
    }
}

fn collect<'a>(set: &OpSet<'a>, clock: Option<Clock>) -> Vec<(Vec<usize>, Vec<OpId>, usize)> {
    let mut found = OpsFoundIter::new(set.iter(), clock);
    let mut out = Vec::new();
    while let Some(batch) = found.next() {
        assert_eq!(batch.ops.len(), batch.ops_pos.len());
        for (op, pos) in batch.ops.iter().zip(batch.ops_pos.iter()) {
            assert_eq!(op.pos, *pos);
        }
        out.push((
            batch.ops_pos.clone(),
            batch.ops.iter().map(|op| op.id).collect(),
            batch.end_pos,
        ));
    }
    assert!(found.next().is_none());
    out
}

#[test]
fn op_set_gives_rows_as_positions() {
    let mut set = OpSet::new();
    let a = Op {
        pos: 77,
        ..op(id(1, 0), "a", Action::Put, &[])
    };
    assert_eq!(set.push(a), 0);
    assert_eq!(set.push(a), 1);
    assert_eq!(set.len(), 2);
    assert_eq!(set.get(1).map(|op| op.pos), Some(1));
    assert!(set.get(2).is_none());
    let mut it = set.iter();
    assert_eq!(it.next_op().map(|op| op.pos), Some(0));
    assert_eq!(it.next_op().map(|op| op.pos), Some(1));
    assert!(it.next_op().is_none());
    assert!(it.next_op().is_none());
    let mut part = set.iter_range(1, 9);
    assert_eq!(part.next_op().map(|op| op.pos), Some(1));
    assert!(part.next_op().is_none());
    assert!(set.iter_range(5, 2).next_op().is_none());
}

#[test]
fn ops_found_grouping_with_clock_filter() {
    // keys [A, A, B, B, B]; the second A and the middle B are out of scope
    let later = [id(3, 1)];
    let mut set = OpSet::new();
    set.push(op(id(1, 0), "A", Action::Put, &[]));
    set.push(op(id(9, 0), "A", Action::Put, &[]));
    set.push(op(id(2, 0), "B", Action::Put, &[]));
    set.push(op(id(2, 1), "B", Action::Put, &later));
    set.push(op(id(3, 1), "B", Action::Put, &[]));
    let clock = Clock(vec![5, 3]);
    let found = collect(&set, Some(clock));
    assert_eq!(
        found,
        vec![
            (vec![0], vec![id(1, 0)], 2),
            (vec![2, 4], vec![id(2, 0), id(3, 1)], 5),
        ]
    );
}

#[test]
fn ops_found_ignores_increments() {
    let later = [id(3, 1)];
    let mut set = OpSet::new();
    set.push(op(id(7, 1), "Z", Action::Increment, &[]));
    set.push(op(id(1, 0), "A", Action::Put, &[]));
    set.push(op(id(8, 1), "Z", Action::Increment, &[]));
    set.push(op(id(9, 0), "A", Action::Put, &[]));
    set.push(op(id(2, 0), "B", Action::Put, &[]));
    set.push(op(id(2, 1), "B", Action::Put, &later));
    set.push(op(id(9, 1), "B", Action::Increment, &[]));
    set.push(op(id(3, 1), "B", Action::Put, &[]));
    set.push(op(id(1, 1), "C", Action::Increment, &[]));
    let clock = Clock(vec![5, 3]);
    let found = collect(&set, Some(clock));
    assert_eq!(
        found,
        vec![
            (vec![1], vec![id(1, 0)], 4),
            (vec![4, 7], vec![id(2, 0), id(3, 1)], 8),
        ]
    );
}

#[test]
fn ops_found_without_clock_goes_by_the_stored_successors() {
    let over = [id(5, 0)];
    let mut set = OpSet::new();
    set.push(op(id(1, 0), "A", Action::Put, &over));
    set.push(op(id(5, 0), "A", Action::Put, &[]));
    set.push(op(id(2, 0), "B", Action::Delete, &[]));
    set.push(op(id(3, 0), "C", Action::Put, &over));
    set.push(op(id(4, 0), "D", Action::MakeMap, &[]));
    let found = collect(&set, None);
    assert_eq!(
        found,
        vec![
            (vec![1], vec![id(5, 0)], 2),
            (vec![2], vec![id(2, 0)], 3),
            (vec![4], vec![id(4, 0)], 5),
        ]
    );
}

#[test]
fn ops_found_suppresses_empty_groups_also_at_the_end() {
    let over = [id(5, 0)];
    let mut set = OpSet::new();
    set.push(op(id(1, 0), "A", Action::Put, &over));
    set.push(op(id(2, 0), "B", Action::Put, &over));
    assert_eq!(collect(&set, None), vec![]);
    assert_eq!(collect(&OpSet::new(), None), vec![]);
    let mut inc = OpSet::new();
    inc.push(op(id(1, 0), "A", Action::Increment, &[]));
    assert_eq!(collect(&inc, None), vec![]);
}

#[test]
fn ops_found_starts_a_new_group_when_a_key_comes_back() {
    let over = [id(5, 0)];
    let mut set = OpSet::new();
    set.push(op(id(1, 0), "A", Action::Put, &[]));
    set.push(op(id(2, 0), "B", Action::Put, &over));
    set.push(op(id(3, 0), "A", Action::Put, &[]));
    assert_eq!(
        collect(&set, None),
        vec![(vec![0], vec![id(1, 0)], 1), (vec![2], vec![id(3, 0)], 3)]
    );
}

#[test]
fn ops_found_groups_inserted_elements_by_their_own_id() {
    let mut set = OpSet::new();
    let head = KeyRef::SeqElem(ElemId(id(0, 0)));
    let elem = Op {
        key: head,
        insert: true,
        ..op(id(1, 0), "", Action::Put, &[])
    };
    let update = Op {
        key: KeyRef::SeqElem(ElemId(id(1, 0))),
        ..op(id(2, 0), "", Action::Put, &[])
    };
    let next = Op {
        key: head,
        insert: true,
        ..op(id(3, 0), "", Action::Put, &[])
    };
    set.push(elem);
    set.push(update);
    set.push(next);
    assert_eq!(
        collect(&set, None),
        vec![
            (vec![0, 1], vec![id(1, 0), id(2, 0)], 2),
            (vec![2], vec![id(3, 0)], 3),
        ]
    );
}

#[test]
fn clock_scope_needs_the_op_itself_observed() {
    let a = op(id(4, 0), "A", Action::Put, &[]);
    assert!(a.scope_to_clock(None));
    assert!(a.scope_to_clock(Some(&Clock(vec![4]))));
    assert!(!a.scope_to_clock(Some(&Clock(vec![3]))));
    assert!(!a.scope_to_clock(Some(&Clock(vec![]))));
    let over = [id(6, 1)];
    let b = op(id(4, 0), "A", Action::Put, &over);
    assert!(!b.scope_to_clock(None));
    assert!(b.scope_to_clock(Some(&Clock(vec![4, 5]))));
    assert!(b.scope_to_clock(Some(&Clock(vec![4]))));
    assert!(!b.scope_to_clock(Some(&Clock(vec![4, 6]))));
    assert!(b.visible_at(Some(&Clock(vec![9, 5]))));
    assert!(!b.visible());
    let d = op(id(4, 0), "A", Action::Delete, &[]);
    assert!(d.scope_to_clock(None));
    assert!(!d.visible());
    assert!(!d.visible_at(None));
}
