use op_store::column::{ActorColumn, ColGroupItem, ColumnData, MetaColumn, Run};
use op_store::meta::ValueMeta;
use op_store::pack::{PackError, ScanMeta};
use op_store::types::{Action, ActorIdx};

#[test]
fn column_data_meta_group() {
    let data = vec![
        ValueMeta(1),
        ValueMeta(6 + (30 << 4)),
        ValueMeta(6 + (10 << 4)),
        ValueMeta(3),
        ValueMeta(4),
    ];
    let mut col = MetaColumn::new();
    col.splice(0, 0, data);

    let mut iter = col.iter().with_group();

    let r = iter.next().unwrap();
    assert_eq!(r.item, Some(ValueMeta(1)));
    assert_eq!(r.group, 0);

    let r = iter.next().unwrap();
    assert_eq!(r.item, Some(ValueMeta(6 + (30 << 4))));
    assert_eq!(r.group, 0);

    let r = iter.next().unwrap();
    assert_eq!(r.item, Some(ValueMeta(6 + (10 << 4))));
    assert_eq!(r.group, 30);

    let r = iter.next().unwrap();
    assert_eq!(r.item, Some(ValueMeta(3)));
    assert_eq!(r.group, 40);

    let mut iter = col.iter().with_group();
    iter.advance_by(3);

    let r = iter.next().unwrap();
    assert_eq!(r.item, Some(ValueMeta(3)));
    assert_eq!(r.group, 40);

    let mut iter = col.iter_range(3..5).with_group();

    let r = iter.next().unwrap();
    assert_eq!(r.item, Some(ValueMeta(3)));
    assert_eq!(r.group, 40);
}

#[test]
fn column_group_range_to_the_end() {
    let data = vec![
        ValueMeta(1),
        ValueMeta(6 | (30 << 4)),
        ValueMeta(6 | (10 << 4)),
        ValueMeta(3),
        ValueMeta(4),
    ];
    let mut col = MetaColumn::new();
    col.splice(0, 0, data);
    let mut iter = col.iter_range(3..5).with_group();
    assert_eq!(
        iter.next(),
        Some(ColGroupItem {
            item: Some(ValueMeta(3)),
            pos: 3,
            group: 40
        })
    );
    assert_eq!(
        iter.next(),
        Some(ColGroupItem {
            item: Some(ValueMeta(4)),
            pos: 4,
            group: 40
        })
    );
    assert_eq!(iter.next(), None);
    assert_eq!(iter.next(), None);
    assert_eq!(col.group_total(), 40);
    assert_eq!(col.len(), 5);
}

#[test]
fn column_packs_equal_neighbours_into_runs() {
    let mut col = ColumnData::<64, u64>::new();
    col.splice(0, 0, vec![7u64, 7, 7, 8, 8, 7]);
    assert_eq!(
        col.runs(),
        &[
            Run {
                count: 3,
                value: Some(7)
            },
            Run {
                count: 2,
                value: Some(8)
            },
            Run {
                count: 1,
                value: Some(7)
            }
        ]
    );
    assert_eq!(
        col.to_vec(),
        vec![Some(7), Some(7), Some(7), Some(8), Some(8), Some(7)]
    );
    let mut it = col.iter();
    assert_eq!(it.next(), Some((0, Some(7))));
    assert_eq!(it.pos(), 1);
    assert_eq!(it.advance_by(3), 3);
    assert_eq!(it.next(), Some((4, Some(8))));
    assert_eq!(it.next(), Some((5, Some(7))));
    assert_eq!(it.next(), None);
    assert_eq!(it.advance_by(2), 0);
}

#[test]
fn column_runs_stop_at_the_chunk_size() {
    let mut col = ColumnData::<2, u64>::new();
    col.splice(0, 0, vec![1u64, 1, 1, 1, 1]);
    assert_eq!(col.runs().len(), 3);
    assert_eq!(col.to_vec(), vec![Some(1); 5]);
    let mut tiny = ColumnData::<0, u64>::new();
    tiny.splice(0, 0, vec![1u64, 1]);
    assert_eq!(tiny.runs().len(), 2);
    assert_eq!(tiny.to_vec(), vec![Some(1); 2]);
}

#[test]
fn column_splice_replaces_in_the_middle() {
    let mut col = ColumnData::<64, i64>::new();
    col.splice(0, 0, vec![Some(1i64), None, None, Some(-4)]);
    assert_eq!(col.to_vec(), vec![Some(1), None, None, Some(-4)]);
    col.splice(1, 2, vec![Some(2i64), Some(3), Some(3)]);
    assert_eq!(
        col.to_vec(),
        vec![Some(1), Some(2), Some(3), Some(3), Some(-4)]
    );
    col.splice(5, 0, vec![9i64]);
    assert_eq!(col.len(), 6);
    col.splice(0, 6, Vec::<i64>::new());
    assert_eq!(col.len(), 0);
    assert_eq!(col.runs().len(), 0);
    assert_eq!(col.iter().next(), None);
}

#[test]
fn column_try_splice_refuses_what_does_not_fit() {
    let mut col = MetaColumn::new();
    assert!(col.try_splice(0, 0, vec![ValueMeta(6 | (30 << 4))]));
    assert!(!col.try_splice(1, 1, vec![ValueMeta(3)]));
    assert!(!col.try_splice(2, 0, vec![ValueMeta(3)]));
    assert_eq!(col.to_vec(), vec![Some(ValueMeta(6 | (30 << 4)))]);
    let mut big = MetaColumn::new();
    let part = ValueMeta(7 | (((usize::MAX >> 4) as u64) << 4));
    assert!(big.try_splice(0, 0, vec![part; 16]));
    assert!(!big.try_splice(16, 0, vec![part]));
    assert_eq!(big.len(), 16);
    assert_eq!(big.group_total(), (usize::MAX >> 4) * 16);
}

#[test]
fn column_clone_holds_the_same_items() {
    let mut col = ColumnData::<64, Action>::new();
    col.splice(0, 0, vec![Some(Action::Put), None, Some(Action::Mark)]);
    let copy = col.clone();
    col.splice(0, 3, Vec::<Action>::new());
    assert_eq!(copy.to_vec(), vec![Some(Action::Put), None, Some(Action::Mark)]);
    assert_eq!(col.len(), 0);
}

#[test]
fn column_validate_finds_the_first_bad_actor() {
    let mut col = ActorColumn::new();
    col.splice(
        0,
        0,
        vec![
            Some(ActorIdx(0)),
            Some(ActorIdx(0)),
            None,
            Some(ActorIdx(5)),
            Some(ActorIdx(9)),
        ],
    );
    assert_eq!(col.validate(&ScanMeta { actors: 10 }), Ok(()));
    assert_eq!(col.validate(&ScanMeta { actors: 6 }), Err(PackError::ActorIndexOutOfRange(9, 6)));
    assert_eq!(col.validate(&ScanMeta { actors: 5 }), Err(PackError::ActorIndexOutOfRange(5, 5)));
    assert_eq!(col.validate(&ScanMeta { actors: 0 }), Err(PackError::ActorIndexOutOfRange(0, 0)));
    assert_eq!(ActorColumn::new().validate(&ScanMeta { actors: 0 }), Ok(()));
}

#[test]
fn column_try_push_appends_to_the_last_run() {
    let mut col = ColumnData::<3, u64>::new();
    for v in [Some(1u64), Some(1), Some(1), Some(1), None, None, Some(2)] {
        assert!(col.try_push(v));
    }
    assert_eq!(
        col.runs(),
        &[
            Run {
                count: 3,
                value: Some(1)
            },
            Run {
                count: 1,
                value: Some(1)
            },
            Run {
                count: 2,
                value: None
            },
            Run {
                count: 1,
                value: Some(2)
            },
        ]
    );
    assert_eq!(col.len(), 7);
    let part = ValueMeta(7 | (((usize::MAX >> 4) as u64) << 4));
    let mut big = MetaColumn::new();
    for _ in 0..16 {
        assert!(big.try_push(Some(part)));
    }
    assert!(!big.try_push(Some(part)));
    assert!(!big.try_push(Some(ValueMeta(7 | (16 << 4)))));
    assert!(big.try_push(Some(ValueMeta(7 | (15 << 4)))));
    assert_eq!(big.group_total(), usize::MAX);
    assert_eq!(big.len(), 17);
}
