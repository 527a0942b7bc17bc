use rand::seq::SliceRandom;
use vstd::prelude::*;

verus! {

broadcast use vstd::seq_lib::group_to_multiset_ensures;

/// `s` is a permutation of `0, 1, ..., 255`.
pub open spec fn is_permutation_table(s: Seq<u32>) -> bool {
    &&& s.len() == 256
    &&& s.no_duplicates()
    &&& forall|i: int| 0 <= i < s.len() ==> #[trigger] s[i] < 256
}

/// Hash of the lattice point `(x, y, z)`: the three tables' entries at the
/// coordinates taken modulo 256, combined by exclusive or.
pub open spec fn lattice_hash(
    px: Seq<u32>,
    py: Seq<u32>,
    pz: Seq<u32>,
    x: int,
    y: int,
    z: int,
) -> u32 {
    px[x % 256] ^ py[y % 256] ^ pz[z % 256]
}

/// The permutation tables that hash integer lattice points of Perlin noise to
/// one of 256 gradients.
pub struct PerlinLattice {
    perm_x: Vec<u32>,
    perm_y: Vec<u32>,
    perm_z: Vec<u32>,
}

impl PerlinLattice {
    pub closed spec fn table_x(&self) -> Seq<u32> {
        self.perm_x@
    }

    pub closed spec fn table_y(&self) -> Seq<u32> {
        self.perm_y@
    }

    pub closed spec fn table_z(&self) -> Seq<u32> {
        self.perm_z@
    }

    /// Each table is a permutation of `0, ..., 255`.
    pub open spec fn wf(&self) -> bool {
        &&& is_permutation_table(self.table_x())
        &&& is_permutation_table(self.table_y())
        &&& is_permutation_table(self.table_z())
    }

    /// Three independently shuffled tables.
    pub fn new() -> (r: Self)
        ensures
            r.wf(),
    {
        PerlinLattice { perm_x: generate_perm(), perm_y: generate_perm(), perm_z: generate_perm() }
    }

    /// The lattice with the given tables, if each is a permutation of
    /// `0, ..., 255`.
    pub fn from_tables(x: Vec<u32>, y: Vec<u32>, z: Vec<u32>) -> (r: Option<Self>)
        ensures
            r is Some <==> is_permutation_table(x@) && is_permutation_table(y@)
                && is_permutation_table(z@),
            r matches Some(l) ==> l.table_x() == x@ && l.table_y() == y@ && l.table_z() == z@,
    {
        if check_table(&x) && check_table(&y) && check_table(&z) {
            Some(PerlinLattice { perm_x: x, perm_y: y, perm_z: z })
        } else {
            None
        }
    }

    /// Index of the gradient at lattice point `(i + di, j + dj, k + dk)`.
    pub fn corner(&self, i: usize, j: usize, k: usize, di: usize, dj: usize, dk: usize) -> (r:
        usize)
        requires
            self.wf(),
        ensures
            r < 256,
            r == lattice_hash(
                self.table_x(),
                self.table_y(),
                self.table_z(),
                i + di,
                j + dj,
                k + dk,
            ),
    {
        let x = (i % 256 + di % 256) % 256;
        let y = (j % 256 + dj % 256) % 256;
        let z = (k % 256 + dk % 256) % 256;
        proof {
            vstd::arithmetic::div_mod::lemma_add_mod_noop(i as int, di as int, 256);
            vstd::arithmetic::div_mod::lemma_add_mod_noop(j as int, dj as int, 256);
            vstd::arithmetic::div_mod::lemma_add_mod_noop(k as int, dk as int, 256);
        }
        let a = self.perm_x[x];
        let b = self.perm_y[y];
        let c = self.perm_z[z];
        assert(a ^ b ^ c < 256) by (bit_vector)
            requires
                a < 256,
                b < 256,
                c < 256,
        ;
        (a ^ b ^ c) as usize
    }
}

/// Whether `s` is a permutation of `0, ..., 255`.
pub fn check_table(s: &Vec<u32>) -> (r: bool)
    ensures
        r == is_permutation_table(s@),
{
    if s.len() != 256 {
        return false;
    }
    let mut seen: Vec<bool> = Vec::new();
    let mut v: usize = 0;
    while v < 256
        invariant
            v <= 256,
            seen@ == Seq::new(v as nat, |_k: int| false),
        decreases 256 - v,
    {
        seen.push(false);
        v = v + 1;
    }
    let mut i: usize = 0;
    while i < 256
        invariant
            s.len() == 256,
            seen.len() == 256,
            i <= 256,
            forall|k: int| 0 <= k < i ==> #[trigger] s@[k] < 256 && seen@[s@[k] as int],
            forall|w: int|
                0 <= w < 256 && #[trigger] seen@[w] ==> exists|k: int| 0 <= k < i && s@[k] == w,
            forall|a: int, b: int| 0 <= a < i && 0 <= b < i && a != b ==> s@[a] != s@[b],
        decreases 256 - i,
    {
        let e = s[i];
        if e >= 256 {
            return false;
        }
        if seen[e as usize] {
            proof {
                let k = choose|k: int| 0 <= k < i && s@[k] == e;
                assert(s@[k] == s@[i as int]);
            }
            return false;
        }
        seen.set(e as usize, true);
        i = i + 1;
    }
    true
}

/// A permutation of `0, ..., 255` in random order.
pub fn generate_perm() -> (r: Vec<u32>)
    ensures
        is_permutation_table(r@),
{
    let mut p: Vec<u32> = Vec::new();
    let mut i: u32 = 0;
    while i < 256
        invariant
            i <= 256,
            p@ == Seq::new(i as nat, |k: int| k as u32),
        decreases 256 - i,
    {
        p.push(i);
        i = i + 1;
    }
    let ghost identity = p@;
    assert(identity.no_duplicates());
    shuffle(&mut p);
    proof {
        assert(p@.len() == p@.to_multiset().len());
        crate::lemma_same_multiset_no_duplicates(identity, p@);
        assert forall|j: int| 0 <= j < p@.len() implies #[trigger] p@[j] < 256 by {
            assert(p@.to_multiset().count(p@[j]) > 0);
            assert(identity.contains(p@[j]));
        }
    }
    p
}

/// Relies on rand's `SliceRandom::shuffle` with the thread-local generator,
/// which reorders the slice by swaps: the same elements come back.
#[verifier::external_body]
fn shuffle(v: &mut Vec<u32>)
    ensures
        final(v)@.to_multiset() == old(v)@.to_multiset(),
{
    v.shuffle(&mut rand::thread_rng());
}

} // verus!
