use rand::Rng;
use vstd::prelude::*;

verus! {

broadcast use vstd::seq_lib::group_to_multiset_ensures;

/// Sort keys of one primitive: the minimum corner of its bounding box on each
/// axis, encoded so that the order of the integers is the order of the
/// coordinates.
#[derive(Clone, Copy, Debug, PartialEq, Eq, Structural)]
pub struct SplitKeys {
    pub x: u32,
    pub y: u32,
    pub z: u32,
}

impl SplitKeys {
    /// The key on `axis`: 0 is x, 1 is y, any other value z.
    pub open spec fn spec_on(self, axis: u8) -> u32 {
        if axis == 0 {
            self.x
        } else if axis == 1 {
            self.y
        } else {
            self.z
        }
    }

    pub fn on(&self, axis: u8) -> (r: u32)
        ensures
            r == self.spec_on(axis),
    {
        if axis == 0 {
            self.x
        } else if axis == 1 {
            self.y
        } else {
            self.z
        }
    }
}

/// The low 31 bits of an IEEE 754 single-precision pattern, negated when its
/// sign bit is set. Among patterns that are not NaN these values are ordered as
/// the numbers are, and both zeros give 0.
pub open spec fn signed_magnitude(bits: u32) -> int {
    let m = (bits & 0x7fff_ffffu32) as int;
    if bits & 0x8000_0000u32 != 0 {
        -m
    } else {
        m
    }
}

/// The pattern is a NaN: all exponent bits set and a nonzero fraction.
pub open spec fn is_nan_bits(bits: u32) -> bool {
    bits & 0x7fff_ffffu32 > 0x7f80_0000u32
}

/// Sort key of a coordinate given by its IEEE 754 single-precision bits:
/// nothing for a NaN, which has no place in the order; else a key that orders
/// as the coordinates do.
pub fn coordinate_key(bits: u32) -> (r: Option<u32>)
    ensures
        r is None <==> is_nan_bits(bits),
        r matches Some(k) ==> k == 0x8000_0000 + signed_magnitude(bits),
{
    let m = bits & 0x7fff_ffff;
    assert(m <= 0x7fff_ffff) by (bit_vector)
        requires
            m == bits & 0x7fff_ffffu32,
    ;
    if m > 0x7f80_0000 {
        None
    } else if bits & 0x8000_0000 != 0 {
        Some(0x8000_0000 - m)
    } else {
        Some(0x8000_0000 + m)
    }
}

/// Shape of a bounding volume hierarchy over primitives numbered from 0.
#[derive(Debug)]
pub enum BvhShape {
    /// A primitive, by its index.
    Leaf(usize),
    /// An interior node: the axis its primitives were sorted on, then its two
    /// children. A node built over a single primitive has it on both sides.
    Node(u8, Box<BvhShape>, Box<BvhShape>),
}

/// Why a hierarchy could not be built.
#[derive(Clone, Copy, Debug, PartialEq, Eq, Structural)]
pub enum BuildError {
    /// There was no primitive.
    Empty,
    /// The primitive at this index has no bounding box.
    MissingBounds(usize),
}

/// The primitives under `t`, left to right; a node over a single primitive
/// lists it once.
pub open spec fn members(t: BvhShape) -> Seq<usize>
    decreases t,
{
    match t {
        BvhShape::Leaf(p) => seq![p],
        BvhShape::Node(_, l, r) => {
            if *l == *r && (*l is Leaf) {
                members(*l)
            } else {
                members(*l) + members(*r)
            }
        },
    }
}

/// At every node the right child holds as many primitives as the left one,
/// or one more.
pub open spec fn balanced(t: BvhShape) -> bool
    decreases t,
{
    match t {
        BvhShape::Leaf(_) => true,
        BvhShape::Node(_, l, r) => {
            let d = members(*r).len() - members(*l).len();
            &&& 0 <= d <= 1
            &&& balanced(*l)
            &&& balanced(*r)
        },
    }
}

/// At every node the axis is one of the three, and on it no key of a
/// primitive on the left exceeds the key of a primitive on the right.
pub open spec fn split_ordered(t: BvhShape, keys: Seq<SplitKeys>) -> bool
    decreases t,
{
    match t {
        BvhShape::Leaf(_) => true,
        BvhShape::Node(axis, l, r) => {
            &&& axis < 3
            &&& forall|a: usize, b: usize|
                #![trigger members(*l).contains(a), members(*r).contains(b)]
                members(*l).contains(a) && members(*r).contains(b) ==> keys[a as int].spec_on(
                    axis,
                ) <= keys[b as int].spec_on(axis)
            &&& split_ordered(*l, keys)
            &&& split_ordered(*r, keys)
        },
    }
}

/// `s` lists the primitives of `order` sorted by their keys on `axis`.
pub open spec fn sorted_on(s: Seq<usize>, keys: Seq<SplitKeys>, axis: u8) -> bool {
    forall|i: int, j: int|
        0 <= i <= j < s.len() ==> #[trigger] keys[s[i] as int].spec_on(axis) <= #[trigger] keys[s[j] as int].spec_on(axis)
}

/// Every entry of `s` indexes `keys`.
pub open spec fn indexes_into(s: Seq<usize>, keys: Seq<SplitKeys>) -> bool {
    forall|i: int| 0 <= i < s.len() ==> #[trigger] s[i] < keys.len()
}

proof fn lemma_swap_multiset(s: Seq<usize>, i: int, j: int)
    requires
        0 <= i < s.len(),
        0 <= j < s.len(),
        i != j,
    ensures
        s.update(i, s[j]).update(j, s[i]).to_multiset() == s.to_multiset(),
{
    broadcast use vstd::multiset::group_multiset_axioms;

    let m = s.to_multiset();
    let s1 = s.update(i, s[j]);
    assert(s1[j] == s[j]);
    assert(s1.to_multiset() == m.insert(s[j]).remove(s[i]));
    assert(s1.update(j, s[i]).to_multiset() == s1.to_multiset().insert(s[i]).remove(s[j]));
    assert(m.count(s[i]) > 0);
    assert(m.insert(s[j]).remove(s[i]).insert(s[i]).remove(s[j]) =~= m);
}

/// `t` is `s` reordered: entry `i` of `t` is entry `pos[i]` of `s`, no entry
/// of `s` is taken twice, and entries with equal keys on `axis` keep their
/// relative order.
pub open spec fn stable_reordering(
    s: Seq<usize>,
    t: Seq<usize>,
    pos: Seq<int>,
    keys: Seq<SplitKeys>,
    axis: u8,
) -> bool {
    &&& t.len() == s.len()
    &&& pos.len() == s.len()
    &&& forall|i: int| 0 <= i < t.len() ==> 0 <= #[trigger] pos[i] < s.len() && t[i] == s[pos[i]]
    &&& forall|i: int, j: int| 0 <= i < j < t.len() ==> #[trigger] pos[i] != #[trigger] pos[j]
    &&& forall|i: int, j: int|
        0 <= i < j < t.len() && #[trigger] keys[t[i] as int].spec_on(axis)
            == #[trigger] keys[t[j] as int].spec_on(axis) ==> pos[i] < pos[j]
}

/// Sorts `order` by the keys of its entries on `axis`, keeping entries with
/// equal keys in their order.
pub fn sort_by_axis(order: &mut Vec<usize>, keys: &Vec<SplitKeys>, axis: u8)
    requires
        indexes_into(old(order)@, keys@),
    ensures
        final(order)@.len() == old(order)@.len(),
        final(order)@.to_multiset() == old(order)@.to_multiset(),
        sorted_on(final(order)@, keys@, axis),
        exists|pos: Seq<int>| stable_reordering(old(order)@, final(order)@, pos, keys@, axis),
        indexes_into(final(order)@, keys@),
{
    let ghost start = order@;
    let ghost mut pos: Seq<int> = Seq::new(order@.len(), |k: int| k);
    let n = order.len();
    let mut i: usize = 0;
    while i < n
        invariant
            order.len() == n,
            start.len() == n,
            start == old(order)@,
            i <= n,
            order@.to_multiset() == start.to_multiset(),
            indexes_into(order@, keys@),
            forall|a: int, b: int|
                0 <= a <= b < i ==> #[trigger] keys[order@[a] as int].spec_on(axis)
                    <= #[trigger] keys[order@[b] as int].spec_on(axis),
            pos.len() == n,
            forall|k: int| 0 <= k < n ==> 0 <= #[trigger] pos[k] < n && order@[k] == start[pos[k]],
            forall|k: int| i <= k < n ==> #[trigger] pos[k] == k,
            forall|k: int| 0 <= k < i ==> #[trigger] pos[k] < i,
            forall|a: int, b: int| 0 <= a < b < n ==> #[trigger] pos[a] != #[trigger] pos[b],
            forall|a: int, b: int|
                0 <= a < b < i && #[trigger] keys[order@[a] as int].spec_on(axis)
                    == #[trigger] keys[order@[b] as int].spec_on(axis) ==> pos[a] < pos[b],
        decreases n - i,
    {
        let mut j: usize = i;
        while j > 0 && keys[order[j - 1]].on(axis) > keys[order[j]].on(axis)
            invariant
                order.len() == n,
                start.len() == n,
                j <= i < n,
                order@.to_multiset() == start.to_multiset(),
                indexes_into(order@, keys@),
                forall|a: int, b: int|
                    0 <= a <= b <= i && a != j && b != j ==> #[trigger] keys[order@[a] as int].spec_on(
                        axis,
                    ) <= #[trigger] keys[order@[b] as int].spec_on(axis),
                forall|b: int|
                    j < b <= i ==> keys[order@[j as int] as int].spec_on(axis) < #[trigger] keys[order@[b] as int].spec_on(
                        axis,
                    ),
                pos.len() == n,
                forall|k: int| 0 <= k < n ==> 0 <= #[trigger] pos[k] < n && order@[k] == start[pos[k]],
                forall|k: int| i < k < n ==> #[trigger] pos[k] == k,
                pos[j as int] == i,
                forall|k: int| 0 <= k <= i && k != j ==> #[trigger] pos[k] < i,
                forall|a: int, b: int| 0 <= a < b < n ==> #[trigger] pos[a] != #[trigger] pos[b],
                forall|a: int, b: int|
                    0 <= a < b <= i && a != j && b != j && #[trigger] keys[order@[a] as int].spec_on(
                        axis,
                    ) == #[trigger] keys[order@[b] as int].spec_on(axis) ==> pos[a] < pos[b],
            decreases j,
        {
            let a = order[j - 1];
            let b = order[j];
            proof {
                lemma_swap_multiset(order@, j - 1, j as int);
                let pj = pos[j as int];
                let pj1 = pos[j - 1];
                pos = pos.update(j - 1, pj).update(j as int, pj1);
            }
            order.set(j - 1, b);
            order.set(j, a);
            j = j - 1;
        }
        i = i + 1;
    }
    assert(stable_reordering(start, order@, pos, keys@, axis));
}

/// `s` holds each of `0, 1, ..., n - 1` exactly once.
pub open spec fn is_index_permutation(s: Seq<usize>, n: nat) -> bool {
    &&& s.len() == n
    &&& s.no_duplicates()
    &&& forall|i: int| 0 <= i < s.len() ==> #[trigger] s[i] < n
}

/// The keys of every primitive, read from bounds that are all present.
pub open spec fn keys_of(bounds: Seq<Option<SplitKeys>>) -> Seq<SplitKeys> {
    Seq::new(bounds.len(), |i: int| bounds[i].unwrap())
}

/// Builds the hierarchy over the primitives listed in `order`: picks an axis at
/// random, sorts by it, and splits the sorted list in two halves.
fn build_node(order: Vec<usize>, keys: &Vec<SplitKeys>) -> (t: BvhShape)
    requires
        order.len() >= 1,
        order@.no_duplicates(),
        indexes_into(order@, keys@),
    ensures
        t is Node,
        members(t).to_multiset() == order@.to_multiset(),
        members(t).len() == order.len(),
        balanced(t),
        split_ordered(t, keys@),
    decreases order.len(),
{
    let ghost given = order@;
    let mut order = order;
    let axis = random_axis();
    sort_by_axis(&mut order, keys, axis);
    proof {
        crate::lemma_same_multiset_no_duplicates(given, order@);
    }
    let n = order.len();
    if n == 1 {
        let p = order[0];
        assert(order@ =~= seq![p]);
        assert(members(BvhShape::Leaf(p)) == seq![p]);
        let t = BvhShape::Node(axis, Box::new(BvhShape::Leaf(p)), Box::new(BvhShape::Leaf(p)));
        assert(members(t) == seq![p]);
        assert(balanced(BvhShape::Leaf(p)));
        assert(split_ordered(BvhShape::Leaf(p), keys@));
        t
    } else if n == 2 {
        let p = order[0];
        let q = order[1];
        assert(p != q);
        assert(order@ =~= seq![p] + seq![q]);
        assert(members(BvhShape::Leaf(p)) == seq![p]);
        assert(members(BvhShape::Leaf(q)) == seq![q]);
        assert(keys@[order@[0] as int].spec_on(axis) <= keys@[order@[1] as int].spec_on(axis));
        assert(balanced(BvhShape::Leaf(p)) && balanced(BvhShape::Leaf(q)));
        assert(split_ordered(BvhShape::Leaf(p), keys@) && split_ordered(BvhShape::Leaf(q), keys@));
        BvhShape::Node(axis, Box::new(BvhShape::Leaf(p)), Box::new(BvhShape::Leaf(q)))
    } else {
        let half = n / 2;
        let mut left: Vec<usize> = Vec::new();
        let mut right: Vec<usize> = Vec::new();
        let mut k: usize = 0;
        while k < n
            invariant
                order.len() == n,
                half == n / 2,
                k <= n,
                k <= half ==> left@ == order@.subrange(0, k as int) && right@.len() == 0,
                k > half ==> left@ == order@.subrange(0, half as int) && right@
                    == order@.subrange(half as int, k as int),
            decreases n - k,
        {
            if k < half {
                left.push(order[k]);
            } else {
                right.push(order[k]);
            }
            k = k + 1;
        }
        assert(left@ + right@ =~= order@);
        let l = build_node(left, keys);
        let r = build_node(right, keys);
        let ghost ml = members(l);
        let ghost mr = members(r);
        assert forall|a: usize, b: usize| ml.contains(a) && mr.contains(b) implies keys@[a as int].spec_on(
            axis,
        ) <= keys@[b as int].spec_on(axis) by {
            assert(ml.to_multiset().count(a) > 0);
            assert(mr.to_multiset().count(b) > 0);
            assert(left@.contains(a));
            assert(right@.contains(b));
            let x = choose|x: int| 0 <= x < left@.len() && left@[x] == a;
            let y = choose|y: int| 0 <= y < right@.len() && right@[y] == b;
            assert(order@[x] == a);
            assert(order@[half + y] == b);
        }
        proof {
            vstd::seq_lib::lemma_multiset_commutative(ml, mr);
            vstd::seq_lib::lemma_multiset_commutative(left@, right@);
        }
        let t = BvhShape::Node(axis, Box::new(l), Box::new(r));
        assert(members(t) == ml + mr);
        assert(members(t).to_multiset() == order@.to_multiset());
        t
    }
}

/// Builds the shape of a hierarchy over primitives `0, ..., n - 1`, where `n`
/// is the length of `bounds` and entry `i` holds the sort keys of primitive `i`,
/// or nothing where it has no bounding box.
pub fn build(bounds: &Vec<Option<SplitKeys>>) -> (r: Result<BvhShape, BuildError>)
    ensures
        r == Err::<BvhShape, BuildError>(BuildError::Empty) <==> bounds@.len() == 0,
        forall|i: usize|
            r == Err::<BvhShape, BuildError>(BuildError::MissingBounds(i)) <==> {
                &&& i < bounds@.len()
                &&& bounds@[i as int] is None
                &&& forall|k: int| 0 <= k < i ==> bounds@[k] is Some
            },
        r is Ok <==> bounds@.len() > 0 && forall|k: int|
            0 <= k < bounds@.len() ==> bounds@[k] is Some,
        r matches Ok(t) ==> {
            &&& t is Node
            &&& is_index_permutation(members(t), bounds@.len())
            &&& balanced(t)
            &&& split_ordered(t, keys_of(bounds@))
        },
{
    let n = bounds.len();
    if n == 0 {
        return Err(BuildError::Empty);
    }
    let mut keys: Vec<SplitKeys> = Vec::new();
    let mut order: Vec<usize> = Vec::new();
    let mut i: usize = 0;
    while i < n
        invariant
            n == bounds.len(),
            i <= n,
            keys@.len() == i,
            order@ == Seq::new(i as nat, |k: int| k as usize),
            forall|k: int| 0 <= k < i ==> #[trigger] bounds@[k] == Some(keys@[k]),
        decreases n - i,
    {
        match &bounds[i] {
            Some(key) => {
                keys.push(*key);
                order.push(i);
            },
            None => {
                return Err(BuildError::MissingBounds(i));
            },
        }
        i = i + 1;
    }
    assert(keys@ =~= keys_of(bounds@));
    let t = build_node(order, &keys);
    proof {
        let m = members(t);
        crate::lemma_same_multiset_no_duplicates(order@, m);
        assert forall|j: int| 0 <= j < m.len() implies #[trigger] m[j] < n by {
            assert(m.to_multiset().count(m[j]) > 0);
            assert(order@.contains(m[j]));
        }
    }
    Ok(t)
}

/// Relies on rand's `Rng::gen_range(low, high)` on the thread-local generator:
/// the value lies in `[low, high)`.
#[verifier::external_body]
fn random_axis() -> (r: u8)
    ensures
        r < 3,
{
    rand::thread_rng().gen_range(0, 3)
}

} // verus!
