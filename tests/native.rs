use pydantic_core::errors::{ErrorKind, FatalError, LocItem, ValError};
use pydantic_core::input_native::{IntTree, ObjectGraph, PyNode, SeqShape};
use pydantic_core::validation_exception::{RaisedError, ValidationError};

fn kinds(e: &ValError) -> Vec<ErrorKind> {
    match e {
        ValError::LineErrors(v) => v.iter().map(|l| l.kind).collect(),
        ValError::InternalErr(_) => panic!("fatal error"),
    }
}

#[test]
fn cyclic_graph_is_fatal() {
    // object 0 is a list that holds an int and itself
    let g = ObjectGraph { nodes: vec![PyNode::List(vec![1, 0]), PyNode::Int(3)] };
    let r = g.validate_tree(0, 0, true);
    assert!(matches!(r, Err(ValError::InternalErr(FatalError::RecursionLimit))));
    let raised = ValidationError::from_val_error("Tree".to_string(), r.err().unwrap());
    assert!(matches!(raised, RaisedError::Fatal(FatalError::RecursionLimit)));
}

#[test]
fn two_step_cycle_is_fatal_even_with_bad_items() {
    let g = ObjectGraph {
        nodes: vec![
            PyNode::List(vec![2, 1]),
            PyNode::List(vec![0]),
            PyNode::Str("x".to_string()),
        ],
    };
    assert!(matches!(g.validate_tree(0, 0, false), Err(ValError::InternalErr(FatalError::RecursionLimit))));
}

#[test]
fn dangling_reference_is_fatal() {
    let g = ObjectGraph { nodes: vec![PyNode::List(vec![5])] };
    assert!(matches!(g.validate_tree(0, 0, false), Err(ValError::InternalErr(FatalError::DanglingReference))));
}

#[test]
fn acyclic_tree_validates() {
    let g = ObjectGraph {
        nodes: vec![
            PyNode::List(vec![1, 2, 1]),
            PyNode::Int(4),
            PyNode::Tuple(vec![3]),
            PyNode::Str("-5".to_string()),
        ],
    };
    match g.validate_tree(0, 0, false) {
        Ok(IntTree::Branch(items)) => {
            assert_eq!(items.len(), 3);
            assert!(matches!(items[0], IntTree::Leaf(4)));
            match &items[1] {
                IntTree::Branch(inner) => assert!(matches!(inner[..], [IntTree::Leaf(-5)])),
                IntTree::Leaf(_) => panic!("expected a branch"),
            }
        }
        _ => panic!("expected a valid tree"),
    }
}

#[test]
fn tree_errors_collected_with_locations() {
    let g = ObjectGraph {
        nodes: vec![
            PyNode::List(vec![1, 2, 3]),
            PyNode::Str("a".to_string()),
            PyNode::Int(1),
            PyNode::List(vec![4, 2]),
            PyNode::NoneValue,
        ],
    };
    let e = g.validate_tree(0, 0, true).err().unwrap();
    assert_eq!(kinds(&e), vec![ErrorKind::IntType, ErrorKind::IntType]);
    match e {
        ValError::LineErrors(v) => {
            assert!(matches!(v[0].location[..], [LocItem::I(0)]));
            assert!(matches!(v[1].location[..], [LocItem::I(2), LocItem::I(0)]));
            assert_eq!(v[1].input_value, "None");
        }
        ValError::InternalErr(_) => panic!("fatal error"),
    }
}

#[test]
fn native_sequences_strict_and_lax() {
    let g = ObjectGraph { nodes: vec![PyNode::List(vec![]), PyNode::Tuple(vec![]), PyNode::Int(1)] };
    assert!(g.validate_list(0, true).is_ok());
    assert_eq!(kinds(&g.validate_list(1, true).err().unwrap()), vec![ErrorKind::ListType]);
    assert!(g.validate_list(1, false).is_ok());
    assert!(g.validate_tuple(1, true).is_ok());
    assert_eq!(kinds(&g.validate_tuple(0, true).err().unwrap()), vec![ErrorKind::TupleType]);
    assert!(g.validate_tuple(0, false).is_ok());
    assert_eq!(kinds(&g.validate_list(2, false).err().unwrap()), vec![ErrorKind::ListType]);
}

#[test]
fn native_int_strict_and_lax() {
    let g = ObjectGraph {
        nodes: vec![PyNode::Bool(true), PyNode::Str("12".to_string()), PyNode::Str("1.5".to_string())],
    };
    assert_eq!(kinds(&g.validate_int(0, true).err().unwrap()), vec![ErrorKind::IntType]);
    assert_eq!(g.validate_int(0, false).ok(), Some(1));
    assert_eq!(g.validate_int(1, false).ok(), Some(12));
    assert_eq!(kinds(&g.validate_int(2, false).err().unwrap()), vec![ErrorKind::IntParsing]);
    assert!(matches!(g.validate_int(7, false), Err(ValError::InternalErr(FatalError::DanglingReference))));
}

#[test]
fn native_bool_and_str_strict_and_lax() {
    let g = ObjectGraph {
        nodes: vec![
            PyNode::Bool(false),
            PyNode::Int(1),
            PyNode::Str("yes".to_string()),
            PyNode::Int(-40),
            PyNode::NoneValue,
        ],
    };
    assert_eq!(g.validate_bool(0, true).ok(), Some(false));
    assert_eq!(kinds(&g.validate_bool(1, true).err().unwrap()), vec![ErrorKind::BoolType]);
    assert_eq!(g.validate_bool(1, false).ok(), Some(true));
    assert_eq!(g.validate_bool(2, false).ok(), Some(true));
    assert_eq!(kinds(&g.validate_bool(3, false).err().unwrap()), vec![ErrorKind::BoolType]);
    assert_eq!(g.validate_str(2, true).ok(), Some("yes".to_string()));
    assert_eq!(kinds(&g.validate_str(3, true).err().unwrap()), vec![ErrorKind::StrType]);
    assert_eq!(g.validate_str(3, false).ok(), Some("-40".to_string()));
    assert_eq!(kinds(&g.validate_str(4, false).err().unwrap()), vec![ErrorKind::StrType]);
}

#[test]
fn native_set_shapes_strict_and_lax() {
    let g = ObjectGraph {
        nodes: vec![
            PyNode::PySet(vec![]),
            PyNode::FrozenSet(vec![]),
            PyNode::List(vec![]),
            PyNode::Dict(vec![("k".to_string(), 0)]),
        ],
    };
    assert!(g.validate_sequence(0, SeqShape::SetShape, true).is_ok());
    assert_eq!(
        kinds(&g.validate_sequence(1, SeqShape::SetShape, true).err().unwrap()),
        vec![ErrorKind::SetType]
    );
    assert!(g.validate_sequence(1, SeqShape::SetShape, false).is_ok());
    assert!(g.validate_sequence(1, SeqShape::FrozenSet, true).is_ok());
    assert_eq!(
        kinds(&g.validate_sequence(2, SeqShape::FrozenSet, true).err().unwrap()),
        vec![ErrorKind::FrozenSetType]
    );
    assert!(g.validate_sequence(2, SeqShape::FrozenSet, false).is_ok());
    assert_eq!(kinds(&g.validate_list(0, true).err().unwrap()), vec![ErrorKind::ListType]);
    assert!(g.validate_list(0, false).is_ok());
    assert_eq!(g.validate_dict(3, true).ok().map(|d| d.len()), Some(1));
    assert_eq!(kinds(&g.validate_dict(2, false).err().unwrap()), vec![ErrorKind::DictType]);
    assert_eq!(kinds(&g.validate_sequence(3, SeqShape::List, false).err().unwrap()), vec![ErrorKind::ListType]);
}

#[test]
fn native_none_and_temporal_reads() {
    let g = ObjectGraph {
        nodes: vec![
            PyNode::NoneValue,
            PyNode::Int(3725),
            PyNode::Str("2020-01-02T03:04:05".to_string()),
            PyNode::Int(90000),
            PyNode::Str("-00:00:10".to_string()),
        ],
    };
    assert!(g.is_none(0));
    assert!(!g.is_none(1));
    assert!(!g.is_none(9));
    let t = g.validate_time(1, false).ok().unwrap();
    assert_eq!((t.hour, t.minute, t.second, t.microsecond), (1, 2, 5, 0));
    assert_eq!(kinds(&g.validate_time(1, true).err().unwrap()), vec![ErrorKind::TimeType]);
    assert_eq!(kinds(&g.validate_time(3, false).err().unwrap()), vec![ErrorKind::TimestampRange]);
    let dt = g.validate_datetime(2, true).ok().unwrap();
    assert_eq!((dt.date.year, dt.date.month, dt.date.day, dt.time.second), (2020, 1, 2, 5));
    let dt = g.validate_datetime(3, false).ok().unwrap();
    assert_eq!((dt.date.year, dt.date.month, dt.date.day, dt.time.hour), (1970, 1, 2, 1));
    assert_eq!(kinds(&g.validate_datetime(0, false).err().unwrap()), vec![ErrorKind::DateTimeType]);
    let d = g.validate_timedelta(4, true).ok().unwrap();
    assert_eq!((d.seconds, d.microseconds), (-10, 0));
    let d = g.validate_timedelta(1, false).ok().unwrap();
    assert_eq!((d.seconds, d.microseconds), (3725, 0));
    assert_eq!(kinds(&g.validate_timedelta(1, true).err().unwrap()), vec![ErrorKind::TimeDeltaType]);
}
