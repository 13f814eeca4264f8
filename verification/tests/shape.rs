use alumina::shape::{checked_product, NodeDim, NodeShape, ShapeFault};

fn shape(dims: &[NodeDim]) -> NodeShape {
    NodeShape::new(dims.to_vec()).expect("a well-formed shape")
}

#[test]
fn known_merges_with_equal_known_only() {
    assert_eq!(NodeDim::Known(5).merge(&NodeDim::Known(5)), Some(NodeDim::Known(5)));
    assert_eq!(NodeDim::Known(5).merge(&NodeDim::Known(6)), None);
}

#[test]
fn unknown_gives_way() {
    assert_eq!(NodeDim::Unknown.merge(&NodeDim::Known(3)), Some(NodeDim::Known(3)));
    assert_eq!(NodeDim::Known(3).merge(&NodeDim::Unknown), Some(NodeDim::Known(3)));
    assert_eq!(NodeDim::Unknown.merge(&NodeDim::Unknown), Some(NodeDim::Unknown));
    let range = NodeDim::Interval { lower: 2, upper: 9 };
    assert_eq!(NodeDim::Unknown.merge(&range), Some(range));
}

#[test]
fn range_against_known() {
    let range = NodeDim::Interval { lower: 2, upper: 9 };
    assert_eq!(range.merge(&NodeDim::Known(2)), Some(NodeDim::Known(2)));
    assert_eq!(range.merge(&NodeDim::Known(9)), Some(NodeDim::Known(9)));
    assert_eq!(NodeDim::Known(4).merge(&range), Some(NodeDim::Known(4)));
    assert_eq!(range.merge(&NodeDim::Known(1)), None);
    assert_eq!(range.merge(&NodeDim::Known(10)), None);
}

#[test]
fn ranges_intersect() {
    let a = NodeDim::Interval { lower: 2, upper: 9 };
    let b = NodeDim::Interval { lower: 5, upper: 12 };
    assert_eq!(a.merge(&b), Some(NodeDim::Interval { lower: 5, upper: 9 }));
    let c = NodeDim::Interval { lower: 9, upper: 20 };
    assert_eq!(a.merge(&c), Some(NodeDim::Known(9)));
    let d = NodeDim::Interval { lower: 10, upper: 20 };
    assert_eq!(a.merge(&d), None);
}

#[test]
fn interval_constructor_shortens() {
    assert_eq!(NodeDim::interval(3, 3), Some(NodeDim::Known(3)));
    assert_eq!(NodeDim::interval(3, 4), Some(NodeDim::Interval { lower: 3, upper: 4 }));
    assert_eq!(NodeDim::interval(4, 3), None);
}

#[test]
fn shape_new_refuses_degenerate_interval() {
    assert!(NodeShape::new(vec![NodeDim::Interval { lower: 3, upper: 3 }]).is_none());
    assert!(NodeShape::new(vec![NodeDim::Interval { lower: 4, upper: 3 }]).is_none());
    assert!(NodeShape::new(vec![NodeDim::Interval { lower: 3, upper: 4 }, NodeDim::Unknown]).is_some());
}

#[test]
fn shape_merge_axis_by_axis() {
    let a = shape(&[NodeDim::Known(7), NodeDim::Unknown, NodeDim::Interval { lower: 1, upper: 32 }]);
    let b = shape(&[NodeDim::Unknown, NodeDim::Known(5), NodeDim::Known(16)]);
    let m = a.merge(&b).unwrap();
    assert_eq!(m.dimensions(), &vec![NodeDim::Known(7), NodeDim::Known(5), NodeDim::Known(16)]);
    assert_eq!(m, NodeShape::fixed(&[7, 5, 16]));
}

#[test]
fn shape_merge_reports_rank_and_first_conflict() {
    let a = NodeShape::fixed(&[7, 5, 16]);
    let b = NodeShape::fixed(&[7, 5]);
    assert_eq!(a.merge(&b), Err(ShapeFault::RankMismatch { left: 3, right: 2 }));
    let c = NodeShape::fixed(&[7, 6, 17]);
    assert_eq!(a.merge(&c), Err(ShapeFault::Incompatible { axis: 1 }));
}

#[test]
fn merge_is_idempotent_on_examples() {
    let shapes = [
        NodeShape::fixed(&[7, 5, 16]),
        shape(&[NodeDim::Unknown, NodeDim::Interval { lower: 2, upper: 4 }]),
        shape(&[]),
    ];
    for s in shapes.iter() {
        let m = s.merge(s).unwrap();
        assert!(m.same_as(s));
    }
}

#[test]
fn merge_is_associative_on_examples() {
    let a = shape(&[NodeDim::Interval { lower: 1, upper: 10 }, NodeDim::Unknown]);
    let b = shape(&[NodeDim::Interval { lower: 5, upper: 20 }, NodeDim::Known(3)]);
    let c = shape(&[NodeDim::Interval { lower: 10, upper: 30 }, NodeDim::Unknown]);
    let left = a.merge(&b).unwrap().merge(&c).unwrap();
    let right = a.merge(&b.merge(&c).unwrap()).unwrap();
    assert_eq!(left, right);
    assert_eq!(left, NodeShape::fixed(&[10, 3]));
    // a failure on one side is a failure on the other
    let d = shape(&[NodeDim::Known(4), NodeDim::Unknown]);
    assert!(a.merge(&b).unwrap().merge(&d).is_err());
    assert!(b.merge(&d).is_err());
}

#[test]
fn collapse_takes_lower_bounds() {
    let mut s = shape(&[NodeDim::Known(7), NodeDim::Interval { lower: 2, upper: 4 }]);
    assert_eq!(s.collapse_ranges_to_minimum(), Ok(()));
    assert_eq!(s, NodeShape::fixed(&[7, 2]));
}

#[test]
fn collapse_refuses_unconstrained_axis_and_keeps_shape() {
    let mut s = shape(&[NodeDim::Interval { lower: 2, upper: 4 }, NodeDim::Unknown, NodeDim::Unknown]);
    let before = s.clone();
    assert_eq!(s.collapse_ranges_to_minimum(), Err(ShapeFault::Unconstrained { axis: 1 }));
    assert_eq!(s, before);
}

#[test]
fn data_shape_and_flat_size() {
    let s = NodeShape::fixed(&[7, 5, 16]);
    assert!(s.is_known());
    assert_eq!(s.to_data_shape(), Ok(vec![7, 5, 16]));
    assert_eq!(s.flat_size(), Ok(560));
    assert_eq!(NodeShape::fixed(&[]).flat_size(), Ok(1));
    let open = shape(&[NodeDim::Known(7), NodeDim::Unknown]);
    assert!(!open.is_known());
    assert_eq!(open.to_data_shape(), Err(ShapeFault::Unresolved { axis: 1 }));
    assert_eq!(open.flat_size(), Err(ShapeFault::Unresolved { axis: 1 }));
}

#[test]
fn flat_size_overflow_and_zero() {
    assert_eq!(checked_product(&[usize::MAX, 2]), None);
    assert_eq!(checked_product(&[usize::MAX, 2, 0]), Some(0));
    assert_eq!(NodeShape::fixed(&[usize::MAX, 2]).flat_size(), Err(ShapeFault::TooLarge));
    assert_eq!(NodeShape::fixed(&[usize::MAX, 2, 0]).flat_size(), Ok(0));
}

#[test]
fn loosen_opens_unit_axes() {
    let s = NodeShape::fixed(&[1, 1, 16]);
    assert_eq!(
        s.loosen().dimensions(),
        &vec![NodeDim::Unknown, NodeDim::Unknown, NodeDim::Known(16)]
    );
}
