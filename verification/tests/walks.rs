use op_store::ids::OpId;
use op_store::op::{Clock, Op};
use op_store::op_iter::{DiffOp, OpQueryTerm, OpSet, TopOpIter, Transition, VisibleOpIter};
use op_store::types::{Action, KeyRef, ScalarValue};

fn id(counter: u64, actor: usize) -> OpId {
    OpId::new(counter, actor)
}

fn op<'a>(op_id: OpId, key: &'a str, action: Action, succ: &'a [OpId]) -> Op<'a> {
    Op {
        pos: 0,
        id: op_id,
        key: KeyRef::MapKey(key),
        action,
        value: ScalarValue::Int(1),
        insert: false,
        succ,
        mark_name: None,
        expand: false,
    }
}

fn rows<'a, I: OpQueryTerm<'a>>(mut it: I) -> Vec<usize> {
    let mut out = Vec::new();
    while let Some(op) = it.next_op() {
        out.push(op.pos);
    }
    assert!(it.next_op().is_none());
    out
}

fn sample<'a>(over: &'a [OpId]) -> OpSet<'a> {
    let mut set = OpSet::new();
    set.push(op(id(1, 0), "A", Action::Put, over));
    set.push(op(id(2, 0), "A", Action::Put, &[]));
    set.push(op(id(2, 1), "A", Action::Put, &[]));
    set.push(op(id(3, 0), "B", Action::Delete, &[]));
    set.push(op(id(4, 0), "C", Action::MakeList, &[]));
    set.push(op(id(5, 0), "C", Action::Increment, &[]));
    set.push(op(id(6, 0), "D", Action::Put, over));
    set.push(op(id(7, 1), "E", Action::Put, &[]));
    set
}

#[test]
fn visible_walk_filters_by_the_store() {
    let over = [id(2, 0)];
    let set = sample(&over);
    assert_eq!(rows(set.iter()), vec![0, 1, 2, 3, 4, 5, 6, 7]);
    assert_eq!(rows(VisibleOpIter::new(set.iter(), None)), vec![1, 2, 4, 7]);
    assert_eq!(rows(VisibleOpIter::new(set.iter_range(2, 5), None)), vec![2, 4]);
}

#[test]
fn visible_walk_filters_by_the_clock() {
    let over = [id(2, 0)];
    let set = sample(&over);
    // actor 0 up to 1, actor 1 unknown: only the first op is observed, its successor is not
    assert_eq!(
        rows(VisibleOpIter::new(set.iter(), Some(Clock(vec![1])))),
        vec![0]
    );
    assert_eq!(
        rows(VisibleOpIter::new(set.iter(), Some(Clock(vec![6, 2])))),
        vec![1, 2, 4]
    );
    assert_eq!(
        rows(VisibleOpIter::new(set.iter(), Some(Clock(vec![])))),
        Vec::<usize>::new()
    );
}

#[test]
fn top_walk_gives_the_last_visible_op_of_each_key() {
    let over = [id(2, 0)];
    let set = sample(&over);
    assert_eq!(rows(TopOpIter::new(set.iter(), None)), vec![2, 4, 7]);
    assert_eq!(
        rows(TopOpIter::new(set.iter(), Some(Clock(vec![6])))),
        vec![1, 4]
    );
    assert_eq!(
        rows(TopOpIter::new(set.iter(), Some(Clock(vec![1])))),
        vec![0]
    );
    assert_eq!(
        rows(TopOpIter::new(OpSet::new().iter(), None)),
        Vec::<usize>::new()
    );
}

#[test]
fn walks_stack() {
    let over = [id(2, 0)];
    let set = sample(&over);
    let inner = VisibleOpIter::new(set.iter(), None);
    assert_eq!(rows(TopOpIter::new(inner, Some(Clock(vec![9])))), vec![1, 4]);
}

#[test]
fn diff_between_two_clocks() {
    let over = [id(5, 0)];
    let a = op(id(3, 0), "A", Action::Put, &over);
    let early = Clock(vec![2]);
    let mid = Clock(vec![4]);
    let late = Clock(vec![5]);
    let d = DiffOp::between(a, Some(&early), Some(&mid)).unwrap();
    assert_eq!(d.transition, Transition::Appeared);
    assert_eq!(d.op.id, a.id);
    let d = DiffOp::between(a, Some(&mid), Some(&late)).unwrap();
    assert_eq!(d.transition, Transition::Vanished);
    assert!(DiffOp::between(a, Some(&early), Some(&late)).is_none());
    assert!(DiffOp::between(a, Some(&mid), Some(&mid)).is_none());
    assert!(DiffOp::between(a, Some(&late), None).is_none());
    let d = DiffOp::between(a, Some(&mid), None).unwrap();
    assert_eq!(d.transition, Transition::Vanished);
    let del = op(id(3, 0), "A", Action::Delete, &[]);
    assert!(DiffOp::between(del, Some(&early), Some(&mid)).is_none());
}
