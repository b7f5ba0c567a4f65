use op_store::ids::{ElemId, OpId};
use op_store::meta::ValueMeta;
use op_store::op::{ListEncoding, Op};
use op_store::owned::{OwnedMarkData, OwnedOpType, OwnedScalarValue, OwnedValue};
use op_store::pack::{MaybePackable, Packable};
use op_store::types::{
    bytes_equal, strs_equal, Action, ActorIdx, Key, KeyRef, MarkData, NotAnObject, ObjType,
    OpType, ScalarValue, Value,
};

fn id(counter: u64, actor: usize) -> OpId {
    OpId::new(counter, actor)
}

#[test]
fn op_id_prev() {
    assert_eq!(id(8, 3).prev(), Some(id(7, 3)));
    assert_eq!(id(1, 0).prev(), Some(id(0, 0)));
    assert_eq!(id(0, 5).prev(), None);
    assert!(id(2, 1).same(&id(2, 1)));
    assert!(!id(2, 1).same(&id(2, 2)));
    assert!(!id(3, 1).same(&id(2, 1)));
}

#[test]
fn key_projections() {
    let m = KeyRef::MapKey("title");
    let e = KeyRef::SeqElem(ElemId(id(4, 1)));
    assert_eq!(m.map_key(), Some("title"));
    assert_eq!(m.elemid(), None);
    assert_eq!(e.map_key(), None);
    assert_eq!(e.elemid(), Some(ElemId(id(4, 1))));
    assert_eq!(m.into_owned(), Key::MapKey("title".to_string()));
    assert_eq!(e.into_owned(), Key::SeqElem(ElemId(id(4, 1))));
    assert_eq!(Key::from("title".to_string()).to_ref(), m);
    assert_eq!(Key::from(ElemId(id(4, 1))).to_ref(), e);
    assert!(m.same(&KeyRef::MapKey("title")));
    assert!(!m.same(&KeyRef::MapKey("titles")));
    assert!(!m.same(&e));
    assert!(e.same(&KeyRef::SeqElem(ElemId(id(4, 1)))));
    assert!(!e.same(&KeyRef::SeqElem(ElemId(id(4, 2)))));
}

#[test]
fn equality_helpers() {
    assert!(bytes_equal(&[], &[]));
    assert!(bytes_equal(&[1, 2], &[1, 2]));
    assert!(!bytes_equal(&[1, 2], &[1, 3]));
    assert!(!bytes_equal(&[1, 2], &[1, 2, 3]));
    assert!(strs_equal("", ""));
    assert!(strs_equal("añb", "añb"));
    assert!(!strs_equal("a", "b"));
}

#[test]
fn action_names() {
    assert_eq!(Action::MakeMap.name(), "MAP");
    assert_eq!(Action::MakeList.name(), "LST");
    assert_eq!(Action::MakeText.name(), "TXT");
    assert_eq!(Action::Put.name(), "SET");
    assert_eq!(Action::Delete.name(), "DEL");
    assert_eq!(Action::Increment.name(), "INC");
    assert_eq!(Action::MakeTable.name(), "TBL");
    assert_eq!(Action::Mark.name(), "MRK");
}

#[test]
fn object_type_of_action() {
    assert_eq!(ObjType::try_from(Action::MakeMap), Ok(ObjType::MapObj));
    assert_eq!(ObjType::try_from(Action::MakeList), Ok(ObjType::List));
    assert_eq!(ObjType::try_from(Action::MakeText), Ok(ObjType::Text));
    assert_eq!(ObjType::try_from(Action::MakeTable), Err(NotAnObject));
    assert_eq!(ObjType::try_from(Action::Put), Err(NotAnObject));
    assert_eq!(ObjType::try_from(Action::Mark), Err(NotAnObject));
}

#[test]
fn op_type_from_action_and_value() {
    let v = ScalarValue::Str("x");
    assert!(matches!(
        OpType::from_action_and_value(Action::MakeMap, v, None, false),
        OpType::Make(ObjType::MapObj)
    ));
    assert!(matches!(
        OpType::from_action_and_value(Action::MakeList, v, None, false),
        OpType::Make(ObjType::List)
    ));
    assert!(matches!(
        OpType::from_action_and_value(Action::MakeText, v, None, false),
        OpType::Make(ObjType::Text)
    ));
    assert!(matches!(
        OpType::from_action_and_value(Action::MakeTable, v, None, false),
        OpType::Make(ObjType::Table)
    ));
    assert!(matches!(
        OpType::from_action_and_value(Action::Put, v, Some("n"), true),
        OpType::Put(ScalarValue::Str("x"))
    ));
    assert!(matches!(
        OpType::from_action_and_value(Action::Delete, v, None, false),
        OpType::Delete
    ));
    assert!(matches!(
        OpType::from_action_and_value(Action::Increment, ScalarValue::Int(-3), None, false),
        OpType::Increment(-3)
    ));
    assert!(matches!(
        OpType::from_action_and_value(Action::Increment, ScalarValue::Uint(7), None, false),
        OpType::Increment(7)
    ));
    assert!(matches!(
        OpType::from_action_and_value(Action::Increment, ScalarValue::Uint(u64::MAX), None, false),
        OpType::Increment(-1)
    ));
    assert!(matches!(
        OpType::from_action_and_value(Action::Mark, v, Some("bold"), true),
        OpType::MarkBegin(
            true,
            MarkData {
                name: "bold",
                value: ScalarValue::Str("x")
            }
        )
    ));
    assert!(matches!(
        OpType::from_action_and_value(Action::Mark, v, None, true),
        OpType::MarkEnd(true)
    ));
}

#[test]
fn op_type_action_projection() {
    let mark = MarkData {
        name: "bold",
        value: ScalarValue::Null,
    };
    assert_eq!(OpType::Make(ObjType::MapObj).action(), Action::MakeMap);
    assert_eq!(OpType::Make(ObjType::List).action(), Action::MakeList);
    assert_eq!(OpType::Make(ObjType::Text).action(), Action::MakeText);
    assert_eq!(OpType::Make(ObjType::Table).action(), Action::MakeTable);
    assert_eq!(OpType::Put(ScalarValue::Null).action(), Action::Put);
    assert_eq!(OpType::Delete.action(), Action::Delete);
    assert_eq!(OpType::Increment(1).action(), Action::Increment);
    assert_eq!(OpType::MarkBegin(false, mark).action(), Action::Mark);
    assert_eq!(OpType::MarkEnd(true).action(), Action::Mark);
    assert_eq!(OpType::MarkEnd(true).into_owned().action(), Action::Mark);
    assert_eq!(OwnedOpType::Make(ObjType::Table).action(), Action::MakeTable);
}

#[test]
fn owned_and_borrowed_values_agree() {
    let blob: [u8; 3] = [1, 2, 3];
    let samples = [
        ScalarValue::Bytes(&blob),
        ScalarValue::Str("text"),
        ScalarValue::Int(-5),
        ScalarValue::Uint(5),
        ScalarValue::F64(2.5f64.to_bits()),
        ScalarValue::Counter(10),
        ScalarValue::Timestamp(99),
        ScalarValue::Boolean(false),
        ScalarValue::Unknown {
            type_code: 11,
            bytes: &blob,
        },
        ScalarValue::Null,
    ];
    for (i, s) in samples.iter().enumerate() {
        let owned = s.into_owned();
        assert_eq!(OwnedScalarValue::from(s), owned);
        assert_eq!(OwnedScalarValue::from(*s), owned);
        assert_eq!(ScalarValue::from(&owned), *s);
        assert_eq!(owned.as_ref(), *s);
        assert!(*s == owned);
        assert_eq!(ValueMeta::from(&owned), ValueMeta::from(s));
        assert_eq!(owned.meta(), ValueMeta::from(s));
        assert_eq!(owned.to_raw(), s.to_raw());
        for (j, t) in samples.iter().enumerate() {
            assert_eq!(s.same_as(&t.into_owned()), i == j);
        }
    }
    assert!(ScalarValue::Int(5) != OwnedScalarValue::Uint(5));
    assert!(ScalarValue::Counter(5) != OwnedScalarValue::Int(5));
    assert!(
        ScalarValue::Unknown {
            type_code: 11,
            bytes: &blob
        } != OwnedScalarValue::Unknown {
            type_code: 12,
            bytes: blob.to_vec()
        }
    );
    assert_eq!(ScalarValue::from(3u64), ScalarValue::Uint(3));
    assert_eq!(ScalarValue::from(-3i64), ScalarValue::Int(-3));
}

#[test]
fn owned_op_types_agree() {
    let mark = MarkData {
        name: "bold",
        value: ScalarValue::Str("on"),
    };
    let owned_mark = mark.into_owned();
    assert_eq!(
        owned_mark,
        OwnedMarkData {
            name: "bold".to_string(),
            value: OwnedScalarValue::Str("on".to_string())
        }
    );
    assert!(mark == owned_mark);
    assert!(
        MarkData {
            name: "bald",
            value: ScalarValue::Str("on")
        } != owned_mark
    );
    let ops = [
        OpType::Make(ObjType::Text),
        OpType::Delete,
        OpType::Increment(4),
        OpType::Put(ScalarValue::Uint(1)),
        OpType::MarkBegin(true, mark),
        OpType::MarkEnd(false),
    ];
    for (i, a) in ops.iter().enumerate() {
        for (j, b) in ops.iter().enumerate() {
            assert_eq!(*a == b.into_owned(), i == j);
            assert_eq!(b.into_owned() == *a, i == j);
        }
    }
    assert!(OpType::Make(ObjType::Text) != OwnedOpType::Make(ObjType::List));
    assert!(OpType::MarkEnd(false) != OwnedOpType::MarkEnd(true));
    assert!(OpType::MarkBegin(false, mark) != OwnedOpType::MarkBegin(true, owned_mark.clone()));
}

#[test]
fn owned_op_type_payload() {
    let put = OwnedOpType::Put(OwnedScalarValue::Uint(300));
    assert_eq!(put.to_raw().map(|c| c.into_owned()), Some(vec![0xAC, 0x02]));
    assert_eq!(ScalarValue::from(&put), ScalarValue::Uint(300));
    let inc = OwnedOpType::Increment(-1);
    assert_eq!(inc.to_raw().map(|c| c.into_owned()), Some(vec![0x7F]));
    assert_eq!(inc.scalar(), ScalarValue::Int(-1));
    let mark = OwnedOpType::MarkBegin(
        true,
        OwnedMarkData {
            name: "bold".to_string(),
            value: OwnedScalarValue::Str("on".to_string()),
        },
    );
    assert_eq!(mark.to_raw().map(|c| c.into_owned()), Some(b"on".to_vec()));
    assert_eq!(OwnedOpType::Delete.to_raw(), None);
    assert_eq!(OwnedOpType::MarkEnd(true).scalar(), ScalarValue::Null);
    assert_eq!(OwnedOpType::Make(ObjType::List).to_raw(), None);
}

#[test]
fn to_raw_borrows_what_it_can() {
    let blob: [u8; 2] = [1, 2];
    assert!(matches!(
        ScalarValue::Bytes(&blob).to_raw(),
        Some(std::borrow::Cow::Borrowed(_))
    ));
    assert!(matches!(
        ScalarValue::Str("s").to_raw(),
        Some(std::borrow::Cow::Borrowed(_))
    ));
    assert!(matches!(
        ScalarValue::Unknown {
            type_code: 13,
            bytes: &blob
        }
        .to_raw(),
        Some(std::borrow::Cow::Borrowed(_))
    ));
    assert!(matches!(
        ScalarValue::Uint(1).to_raw(),
        Some(std::borrow::Cow::Owned(_))
    ));
    assert!(matches!(
        ScalarValue::F64(0).to_raw(),
        Some(std::borrow::Cow::Owned(_))
    ));
}

#[test]
fn values_into_owned() {
    assert_eq!(
        Value::Object(ObjType::Table).into_owned(),
        OwnedValue::Object(ObjType::Table)
    );
    assert_eq!(
        OwnedValue::from(Value::Scalar(ScalarValue::Str("s"))),
        OwnedValue::Scalar(OwnedScalarValue::Str("s".to_string()))
    );
}

#[test]
fn maybe_packable_values() {
    assert_eq!(ValueMeta(3).maybe_packable(), Some(ValueMeta(3)));
    assert_eq!(Some(ValueMeta(3)).maybe_packable(), Some(ValueMeta(3)));
    assert_eq!(None::<ValueMeta>.maybe_packable(), None);
    assert_eq!(Action::Mark.maybe_packable(), Some(Action::Mark));
    assert_eq!(None::<Action>.maybe_packable(), None);
    assert_eq!(ActorIdx(2).maybe_packable(), Some(ActorIdx(2)));
    assert_eq!(Some(ActorIdx(2)).maybe_packable(), Some(ActorIdx(2)));
    assert_eq!(ActorIdx::default(), ActorIdx(0));
    assert_eq!(ValueMeta::own(ValueMeta(9)), ValueMeta(9));
    assert_eq!(Action::own(Action::Delete), Action::Delete);
    assert_eq!(ActorIdx::own(ActorIdx(4)), ActorIdx(4));
    assert!(ValueMeta(9).same(&ValueMeta(9)));
    assert!(!Action::Delete.same(&Action::Put));
}

#[test]
fn op_parts() {
    let op = Op {
        pos: 3,
        id: id(5, 1),
        key: KeyRef::MapKey("k"),
        action: Action::Mark,
        value: ScalarValue::Str("wide"),
        insert: false,
        succ: &[],
        mark_name: Some("bold"),
        expand: true,
    };
    assert!(op.put_like());
    assert!(op.visible());
    assert!(!op.is_mark_end());
    assert_eq!(
        op.mark_begin(),
        Some(MarkData {
            name: "bold",
            value: ScalarValue::Str("wide")
        })
    );
    assert_eq!(op.elemid_or_key(), KeyRef::MapKey("k"));
    assert_eq!(op.width(ListEncoding::List), 1);
    assert_eq!(op.width(ListEncoding::Text), 1);
    assert!(matches!(op.op_type(), OpType::MarkBegin(true, _)));
    let end = Op {
        mark_name: None,
        insert: true,
        ..op
    };
    assert!(end.is_mark_end());
    assert!(!end.put_like());
    assert_eq!(end.mark_begin(), None);
    assert_eq!(end.elemid_or_key(), KeyRef::SeqElem(ElemId(id(5, 1))));
    let text = Op {
        action: Action::Put,
        value: ScalarValue::Str("häh"),
        ..op
    };
    assert_eq!(text.width(ListEncoding::Text), 3);
    assert_eq!(text.width(ListEncoding::List), 1);
    let number = Op {
        action: Action::Put,
        value: ScalarValue::Uint(12345),
        ..op
    };
    assert_eq!(number.width(ListEncoding::Text), 1);
    for action in [Action::Delete, Action::Increment] {
        assert!(!Op { action, ..op }.put_like());
    }
    for action in [
        Action::MakeMap,
        Action::MakeList,
        Action::MakeText,
        Action::MakeTable,
        Action::Put,
    ] {
        assert!(Op { action, ..op }.put_like());
    }
}
