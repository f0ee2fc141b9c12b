//! The lattice of the noise generator: shuffled index tables and the hash
//! that picks a lattice vector for each corner of a cell.

use vstd::prelude::*;
use crate::sampling::random_below;

verus! {

/// The number of entries of an index table, and of lattice vectors.
pub const TABLE_SIZE: usize = 256;

/// `p` holds every index below its length exactly once.
pub open spec fn is_permutation(p: Seq<usize>) -> bool {
    &&& forall|i: int| 0 <= i < p.len() ==> #[trigger] p[i] < p.len()
    &&& forall|i: int, j: int| 0 <= i < j < p.len() ==> p[i] != p[j]
}

/// The sequence after two of its entries changed places.
pub open spec fn exchanged(p: Seq<usize>, i: int, j: int) -> Seq<usize> {
    p.update(i, p[j]).update(j, p[i])
}

/// Exchanges the entries at `i` and `target`.
pub fn exchange(p: &mut Vec<usize>, i: usize, target: usize)
    requires
        i < old(p).len(),
        target < old(p).len(),
    ensures
        final(p)@ == exchanged(old(p)@, i as int, target as int),
        final(p)@.to_multiset() == old(p)@.to_multiset(),
        is_permutation(old(p)@) ==> is_permutation(final(p)@),
{
    let tmp: usize = p[target];
    let mine: usize = p[i];
    p.set(i, tmp);
    p.set(target, mine);
    proof {
        exchange_keeps_entries(old(p)@, i as int, target as int);
    }
}

/// Exchanging two entries leaves each value in the sequence as often as it
/// was there.
pub proof fn exchange_keeps_entries(s: Seq<usize>, i: int, j: int)
    requires
        0 <= i < s.len(),
        0 <= j < s.len(),
    ensures
        exchanged(s, i, j).to_multiset() == s.to_multiset(),
{
    broadcast use vstd::multiset::group_multiset_axioms;

    let s1 = s.update(i, s[j]);
    vstd::seq_lib::to_multiset_update(s, i, s[j]);
    vstd::seq_lib::to_multiset_update(s1, j, s[i]);
    vstd::seq_lib::to_multiset_contains(s, s[i]);
    vstd::seq_lib::to_multiset_contains(s, s[j]);
    assert(s.contains(s[i]));
    assert(s.contains(s[j]));
    assert(exchanged(s, i, j).to_multiset() =~= s.to_multiset());
}

/// Shuffles the first `n` entries of `p`: from the last of them down to the
/// first, each changes places with an entry drawn at random from those at or
/// below it. The result is `shuffled` by the draws that were made; whatever
/// they were, it holds the old entries, and those from `n` on stay in place.
pub fn permute(p: &mut Vec<usize>, n: usize)
    requires
        n <= old(p).len(),
    ensures
        exists|draws: Seq<usize>|
            draws_fit(draws, n as int) && final(p)@ == #[trigger] shuffled(
                old(p)@,
                n as int,
                0,
                draws,
            ),
        final(p)@.len() == old(p)@.len(),
        final(p)@.to_multiset() == old(p)@.to_multiset(),
        forall|k: int| n <= k < old(p)@.len() ==> final(p)@[k] == old(p)@[k],
        is_permutation(old(p)@) ==> is_permutation(final(p)@),
{
    let ghost mut draws: Seq<usize> = Seq::new(n as nat, |k: int| 0usize);
    let mut i: usize = n;
    while i > 0
        invariant
            i <= n <= p@.len(),
            draws.len() == n,
            forall|k: int| 0 <= k < n ==> #[trigger] draws[k] <= k,
            p@ == shuffled(old(p)@, n as int, i as int, draws),
            p@.len() == old(p)@.len(),
            p@.to_multiset() == old(p)@.to_multiset(),
            forall|k: int| n <= k < old(p)@.len() ==> p@[k] == old(p)@[k],
            is_permutation(old(p)@) ==> is_permutation(p@),
        decreases i,
    {
        i = i - 1;
        let target: usize = random_below(i + 1);
        proof {
            shuffled_from_later_draws(old(p)@, n as int, i + 1, draws, i as int, target);
            draws = draws.update(i as int, target);
        }
        exchange(p, i, target);
    }
    assert(draws_fit(draws, n as int));
}

/// The draws of a shuffle of `n` entries: one for each place, at or below
/// that place.
pub open spec fn draws_fit(draws: Seq<usize>, n: int) -> bool {
    draws.len() == n && forall|k: int| 0 <= k < n ==> #[trigger] draws[k] <= k
}

/// The sequence after the steps of a shuffle of its first `n` entries from
/// the last place down to place `i`: at each place the entry changed places
/// with the entry at the place that was drawn for it.
pub open spec fn shuffled(p: Seq<usize>, n: int, i: int, draws: Seq<usize>) -> Seq<usize>
    decreases n - i,
{
    if i >= n {
        p
    } else {
        exchanged(shuffled(p, n, i + 1, draws), i, draws[i] as int)
    }
}

/// The steps of a shuffle down to place `i` depend on the draws for the
/// places from `i` on, and on no other.
pub proof fn shuffled_from_later_draws(
    p: Seq<usize>,
    n: int,
    i: int,
    draws: Seq<usize>,
    k: int,
    draw: usize,
)
    requires
        0 <= k < i,
        n <= draws.len(),
    ensures
        shuffled(p, n, i, draws.update(k, draw)) == shuffled(p, n, i, draws),
    decreases n - i,
{
    if i < n {
        shuffled_from_later_draws(p, n, i + 1, draws, k, draw);
        assert(draws.update(k, draw)[i] == draws[i]);
    }
}

/// A fresh index table: the indices below `TABLE_SIZE`, shuffled.
pub fn generate_perm() -> (p: Vec<usize>)
    ensures
        p@.len() == TABLE_SIZE,
        is_permutation(p@),
{
    let mut p: Vec<usize> = Vec::new();
    let mut i: usize = 0;
    while i < TABLE_SIZE
        invariant
            i <= TABLE_SIZE,
            p@.len() == i,
            forall|k: int| 0 <= k < i ==> p@[k] == k,
        decreases TABLE_SIZE - i,
    {
        p.push(i);
        i = i + 1;
    }
    permute(&mut p, TABLE_SIZE);
    p
}

/// The three index tables of the noise lattice, one for each axis.
pub struct Lattice {
    perm_x: Vec<usize>,
    perm_y: Vec<usize>,
    perm_z: Vec<usize>,
}

/// The three tables as sequences.
pub struct Tables {
    pub x: Seq<usize>,
    pub y: Seq<usize>,
    pub z: Seq<usize>,
}

impl Tables {
    /// Each table holds every index below `TABLE_SIZE` exactly once.
    pub open spec fn shuffled(self) -> bool {
        &&& self.x.len() == TABLE_SIZE
        &&& self.y.len() == TABLE_SIZE
        &&& self.z.len() == TABLE_SIZE
        &&& is_permutation(self.x)
        &&& is_permutation(self.y)
        &&& is_permutation(self.z)
    }

    /// The index of the lattice vector at the cell corner `(i, j, k)`: the
    /// three coordinates, each wrapped into its table, pick an entry from
    /// each, and the three entries are combined bit by bit.
    pub open spec fn vector_at(self, i: int, j: int, k: int) -> usize {
        self.x[i % 256] ^ self.y[j % 256] ^ self.z[k % 256]
    }
}

/// Combining two table entries bit by bit gives an index into a table again.
pub proof fn combined_entry_is_index(a: usize, b: usize)
    by (bit_vector)
    requires
        a < 256,
        b < 256,
    ensures
        a ^ b < 256,
{
}

/// A lattice coordinate and an offset from it, wrapped into a table.
pub fn wrapped(i: usize, d: usize) -> (r: usize)
    ensures
        r == (i + d) % 256,
        r < TABLE_SIZE,
{
    let a: usize = i % 256;
    let b: usize = d % 256;
    proof {
        vstd::arithmetic::div_mod::lemma_add_mod_noop(i as int, d as int, 256);
    }
    (a + b) % 256
}

impl Lattice {
    /// The three tables.
    pub closed spec fn view(&self) -> Tables {
        Tables { x: self.perm_x@, y: self.perm_y@, z: self.perm_z@ }
    }

    /// What every lattice holds of its tables: each is a shuffle of the
    /// indices.
    #[verifier::type_invariant]
    spec fn shuffled(&self) -> bool {
        self@.shuffled()
    }

    /// A lattice with three fresh tables.
    pub fn new() -> (r: Lattice)
        ensures
            r@.shuffled(),
    {
        let perm_x = generate_perm();
        let perm_y = generate_perm();
        let perm_z = generate_perm();
        Lattice { perm_x, perm_y, perm_z }
    }

    /// The table of the x axis.
    pub fn perm_x(&self) -> (r: &Vec<usize>)
        ensures
            r@ == self@.x,
            self@.shuffled(),
    {
        proof {
            use_type_invariant(self);
        }
        &self.perm_x
    }

    /// The table of the y axis.
    pub fn perm_y(&self) -> (r: &Vec<usize>)
        ensures
            r@ == self@.y,
            self@.shuffled(),
    {
        proof {
            use_type_invariant(self);
        }
        &self.perm_y
    }

    /// The table of the z axis.
    pub fn perm_z(&self) -> (r: &Vec<usize>)
        ensures
            r@ == self@.z,
            self@.shuffled(),
    {
        proof {
            use_type_invariant(self);
        }
        &self.perm_z
    }

    /// The index of the lattice vector at the corner `(di, dj, dk)` of the
    /// cell `(i, j, k)`. Coordinates wrap round the tables, so no cell is out
    /// of range.
    pub fn corner(&self, i: usize, j: usize, k: usize, di: usize, dj: usize, dk: usize) -> (r:
        usize)
        ensures
            r == self@.vector_at(i + di, j + dj, k + dk),
            r < TABLE_SIZE,
    {
        proof {
            use_type_invariant(self);
        }
        let a: usize = wrapped(i, di);
        let b: usize = wrapped(j, dj);
        let c: usize = wrapped(k, dk);
        let x: usize = self.perm_x[a];
        let y: usize = self.perm_y[b];
        let z: usize = self.perm_z[c];
        proof {
            combined_entry_is_index(x, y);
            combined_entry_is_index(x ^ y, z);
        }
        x ^ y ^ z
    }

    /// The indices of the lattice vectors at the eight corners of the cell
    /// `(i, j, k)`: the corner `(di, dj, dk)`, each of them 0 or 1, stands at
    /// place `4 * di + 2 * dj + dk`.
    pub fn corners(&self, i: usize, j: usize, k: usize) -> (r: Vec<usize>)
        ensures
            r@.len() == 8,
            forall|di: int, dj: int, dk: int|
                0 <= di <= 1 && 0 <= dj <= 1 && 0 <= dk <= 1 ==> #[trigger] r@[4 * di + 2 * dj
                    + dk] == self@.vector_at(i + di, j + dj, k + dk),
            forall|n: int| 0 <= n < 8 ==> #[trigger] r@[n] < TABLE_SIZE,
    {
        let mut r: Vec<usize> = Vec::new();
        let mut n: usize = 0;
        while n < 8
            invariant
                n <= 8,
                r@.len() == n,
                forall|m: int|
                    0 <= m < n ==> #[trigger] r@[m] == self@.vector_at(
                        i + m / 4,
                        j + (m / 2) % 2,
                        k + m % 2,
                    ),
                forall|m: int| 0 <= m < n ==> #[trigger] r@[m] < TABLE_SIZE,
            decreases 8 - n,
        {
            let c: usize = self.corner(i, j, k, n / 4, (n / 2) % 2, n % 2);
            r.push(c);
            n = n + 1;
        }
        assert forall|di: int, dj: int, dk: int|
            0 <= di <= 1 && 0 <= dj <= 1 && 0 <= dk <= 1 implies #[trigger] r@[4 * di + 2 * dj
            + dk] == self@.vector_at(i + di, j + dj, k + dk) by {
            let m = 4 * di + 2 * dj + dk;
            assert(0 <= m < 8);
            assert(m / 4 == di && (m / 2) % 2 == dj && m % 2 == dk);
        }
        r
    }
}

} // verus!
