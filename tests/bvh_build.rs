use raytracer::bvh::{build, coordinate_key, sort_by_axis, BuildError, BvhShape, SplitKeys};

fn same(k: u32) -> Option<SplitKeys> {
    Some(SplitKeys { x: k, y: k, z: k })
}

fn leaves(t: &BvhShape, out: &mut Vec<usize>) {
    match t {
        BvhShape::Leaf(p) => out.push(*p),
        BvhShape::Node(_, l, r) => {
            leaves(l, out);
            leaves(r, out);
        }
    }
}

fn count(t: &BvhShape) -> usize {
    match t {
        BvhShape::Leaf(_) => 1,
        BvhShape::Node(_, l, r) => match (l.as_ref(), r.as_ref()) {
            (BvhShape::Leaf(a), BvhShape::Leaf(b)) if a == b => 1,
            _ => count(l) + count(r),
        },
    }
}

fn check_balanced(t: &BvhShape) {
    if let BvhShape::Node(axis, l, r) = t {
        assert!(*axis < 3);
        let d = count(r) as i64 - count(l) as i64;
        assert!(d == 0 || d == 1);
        check_balanced(l);
        check_balanced(r);
    }
}

#[test]
fn empty_list_is_refused() {
    let bounds: Vec<Option<SplitKeys>> = Vec::new();
    assert_eq!(build(&bounds).err(), Some(BuildError::Empty));
}

#[test]
fn first_missing_bounds_is_reported() {
    let bounds = vec![same(3), None, same(1), None];
    assert_eq!(build(&bounds).err(), Some(BuildError::MissingBounds(1)));
    let only = vec![None];
    assert_eq!(build(&only).err(), Some(BuildError::MissingBounds(0)));
}

#[test]
fn single_primitive_is_on_both_sides() {
    let t = build(&vec![same(7)]).unwrap();
    match t {
        BvhShape::Node(axis, l, r) => {
            assert!(axis < 3);
            assert!(matches!(*l, BvhShape::Leaf(0)));
            assert!(matches!(*r, BvhShape::Leaf(0)));
        }
        BvhShape::Leaf(_) => panic!("the root is a node"),
    }
}

#[test]
fn two_primitives_are_sorted() {
    let t = build(&vec![same(9), same(2)]).unwrap();
    match t {
        BvhShape::Node(_, l, r) => {
            assert!(matches!(*l, BvhShape::Leaf(1)));
            assert!(matches!(*r, BvhShape::Leaf(0)));
        }
        BvhShape::Leaf(_) => panic!("the root is a node"),
    }
}

#[test]
fn three_primitives_split_one_and_two() {
    let t = build(&vec![same(30), same(10), same(20)]).unwrap();
    let mut out = Vec::new();
    leaves(&t, &mut out);
    assert_eq!(out, vec![1, 1, 2, 0]);
    check_balanced(&t);
}

#[test]
fn many_primitives_are_each_covered_once_in_key_order() {
    let n: usize = 57;
    let bounds: Vec<Option<SplitKeys>> = (0..n).map(|i| same(((i * 37) % n) as u32)).collect();
    let t = build(&bounds).unwrap();
    assert_eq!(count(&t), n);
    check_balanced(&t);
    let mut out = Vec::new();
    leaves(&t, &mut out);
    out.dedup();
    let mut expected: Vec<usize> = (0..n).collect();
    expected.sort_by_key(|&i| (i * 37) % n);
    assert_eq!(out, expected);
}

#[test]
fn split_respects_the_chosen_axis() {
    let n: u32 = 40;
    let bounds: Vec<Option<SplitKeys>> =
        (0..n).map(|i| Some(SplitKeys { x: i, y: n - i, z: (i * 7) % n })).collect();
    for _ in 0..10 {
        let t = build(&bounds).unwrap();
        check_split(&t, &bounds);
    }
}

fn check_split(t: &BvhShape, bounds: &Vec<Option<SplitKeys>>) {
    if let BvhShape::Node(axis, l, r) = t {
        let mut left = Vec::new();
        let mut right = Vec::new();
        leaves(l, &mut left);
        leaves(r, &mut right);
        for a in &left {
            for b in &right {
                let ka = bounds[*a].unwrap().on(*axis);
                let kb = bounds[*b].unwrap().on(*axis);
                assert!(ka <= kb);
            }
        }
        check_split(l, bounds);
        check_split(r, bounds);
    }
}

#[test]
fn sort_keeps_ties_in_place() {
    let keys = vec![
        SplitKeys { x: 4, y: 0, z: 9 },
        SplitKeys { x: 1, y: 0, z: 8 },
        SplitKeys { x: 4, y: 0, z: 7 },
        SplitKeys { x: 0, y: 0, z: 6 },
    ];
    let mut order = vec![0, 1, 2, 3];
    sort_by_axis(&mut order, &keys, 0);
    assert_eq!(order, vec![3, 1, 0, 2]);
    let mut order = vec![0, 1, 2, 3];
    sort_by_axis(&mut order, &keys, 1);
    assert_eq!(order, vec![0, 1, 2, 3]);
    let mut order = vec![0, 1, 2, 3];
    sort_by_axis(&mut order, &keys, 2);
    assert_eq!(order, vec![3, 2, 1, 0]);
}

#[test]
fn keys_pick_their_axis() {
    let k = SplitKeys { x: 1, y: 2, z: 3 };
    assert_eq!(k.on(0), 1);
    assert_eq!(k.on(1), 2);
    assert_eq!(k.on(2), 3);
}

#[test]
fn coordinate_keys_order_as_floats() {
    let values: Vec<f32> = vec![
        f32::NEG_INFINITY,
        -1.0e30,
        -2.5,
        -1.0,
        -1.0e-40,
        0.0,
        1.0e-40,
        0.25,
        1.0,
        3.0e38,
        f32::INFINITY,
    ];
    let keys: Vec<u32> = values.iter().map(|v| coordinate_key(v.to_bits()).unwrap()).collect();
    for w in keys.windows(2) {
        assert!(w[0] < w[1]);
    }
    assert_eq!(coordinate_key(1.0f32.to_bits()), Some(0x8000_0000 + 0x3f80_0000));
    assert_eq!(coordinate_key((-1.0f32).to_bits()), Some(0x8000_0000 - 0x3f80_0000));
}

#[test]
fn coordinate_keys_of_zeros_agree_and_nan_has_none() {
    assert_eq!(coordinate_key(0.0f32.to_bits()), Some(0x8000_0000));
    assert_eq!(coordinate_key((-0.0f32).to_bits()), Some(0x8000_0000));
    assert_eq!(coordinate_key(f32::NAN.to_bits()), None);
    assert_eq!(coordinate_key(0xffff_ffff), None);
    assert_eq!(coordinate_key(0x7f80_0001), None);
}
