//! The integer side of the procedural noise: three shuffled tables of the
//! bytes 0 to 255, one for each axis, and the lookups that turn a lattice
//! point into the place of its random value.

use rand::Rng;
use vstd::prelude::*;

verus! {

/// Number of entries of a table.
pub const TABLE_SIZE: usize = 256;

/// `rand::ThreadRng`, a handle on the calling thread's random number
/// generator. Nothing of its state is seen here.
#[verifier::external_type_specification]
#[verifier::external_body]
pub struct ExThreadRng(rand::ThreadRng);

/// `rand::thread_rng`: the calling thread's random number generator, which
/// the first call on a thread seeds from the system. Nothing is claimed of
/// the generator that comes back.
pub assume_specification[ rand::thread_rng ]() -> (rng: rand::ThreadRng)
;

/// A random number below `high`, by `rand::Rng::gen_range` from 0 to `high`
/// on the thread's generator.
///
/// Believed of that function, not proved: it returns a number from its lower
/// bound up to, and without, its upper bound. It panics where the bounds
/// leave no number, which `requires` excludes.
#[verifier::external_body]
fn random_below(rng: &mut rand::ThreadRng, high: usize) -> (n: usize)
    requires
        high > 0,
    ensures
        n < high,
{
    rng.gen_range(0, high)
}

/// The table that holds each index as its own entry.
pub open spec fn identity_table() -> Seq<u8> {
    Seq::new(TABLE_SIZE as nat, |i: int| i as u8)
}

/// Whether `table` holds each of the bytes 0 to 255 exactly once.
pub open spec fn is_shuffled(table: Seq<u8>) -> bool {
    &&& table.len() == TABLE_SIZE
    &&& table.no_duplicates()
    &&& forall|v: u8| #[trigger] table.contains(v)
}

/// Exchanging two entries of a sequence keeps what it holds.
pub proof fn lemma_swap_keeps_entries<A>(s: Seq<A>, i: int, j: int)
    requires
        0 <= i < s.len(),
        0 <= j < s.len(),
    ensures
        s.update(i, s[j]).update(j, s[i]).to_multiset() == s.to_multiset(),
{
    broadcast use vstd::seq_lib::group_to_multiset_ensures;

    let once = s.update(i, s[j]);
    let twice = once.update(j, s[i]);
    if i == j {
        assert(twice =~= s);
    } else {
        lemma_update_entries(s, i, s[j]);
        lemma_update_entries(once, j, s[i]);
        assert(s.contains(s[i]));
        assert(s.contains(s[j]));
        assert(twice.to_multiset() =~= s.to_multiset());
    }
}

/// Overwriting an entry takes the old entry out of what a sequence holds
/// and puts the new one in.
pub proof fn lemma_update_entries<A>(s: Seq<A>, i: int, a: A)
    requires
        0 <= i < s.len(),
    ensures
        s.update(i, a).to_multiset() == s.to_multiset().remove(s[i]).insert(a),
{
    broadcast use vstd::seq_lib::group_to_multiset_ensures;

    let t = s.update(i, a);
    assert(t.remove(i) =~= s.remove(i));
    assert(t.contains(t[i]));
    assert(s.contains(s[i]));
    assert(t.to_multiset() =~= t.to_multiset().remove(a).insert(a));
}

/// A table that holds what the identity table holds is shuffled.
pub proof fn lemma_rearranged_identity_is_shuffled(table: Seq<u8>)
    requires
        table.to_multiset() == identity_table().to_multiset(),
    ensures
        is_shuffled(table),
{
    broadcast use vstd::seq_lib::group_to_multiset_ensures;

    let id = identity_table();
    assert(id.no_duplicates());
    id.lemma_multiset_has_no_duplicates();
    id.to_multiset_ensures();
    table.to_multiset_ensures();
    assert forall|v: u8| #[trigger] table.contains(v) by {
        assert(id[v as int] == v);
        assert(id.contains(v));
        assert(id.to_multiset().count(v) > 0);
    }
    assert forall|v: u8| table.to_multiset().contains(v) implies table.to_multiset().count(v)
        == 1 by {
        assert(id.to_multiset().contains(v));
    }
    table.lemma_multiset_has_no_duplicates_conv();
    assert(table.len() == table.to_multiset().len());
    assert(id.len() == id.to_multiset().len());
}

/// Exchanges the entries `i` and `j` of `table`.
pub fn swap_entries(table: &mut [u8; 256], i: usize, j: usize)
    requires
        i < TABLE_SIZE,
        j < TABLE_SIZE,
    ensures
        final(table)@ == old(table)@.update(i as int, old(table)@[j as int]).update(
            j as int,
            old(table)@[i as int],
        ),
        final(table)@.to_multiset() == old(table)@.to_multiset(),
{
    let tmp = table[i];
    table[i] = table[j];
    table[j] = tmp;
    proof {
        lemma_swap_keeps_entries(old(table)@, i as int, j as int);
    }
}

/// Shuffles `table`: from the last entry down to the second, each entry
/// changes places with one chosen at random among itself and those before
/// it. Whatever is chosen, the table holds afterwards what it held before.
pub fn permute(table: &mut [u8; 256])
    ensures
        final(table)@.to_multiset() == old(table)@.to_multiset(),
{
    let mut rng = rand::thread_rng();
    let mut i: usize = TABLE_SIZE - 1;
    while i >= 1
        invariant
            i < TABLE_SIZE,
            table@.to_multiset() == old(table)@.to_multiset(),
        decreases i,
    {
        let target = random_below(&mut rng, i + 1);
        swap_entries(table, i, target);
        i -= 1;
    }
}

/// A shuffled table: the bytes 0 to 255 in a random order.
pub fn perlin_generate_perm() -> (table: [u8; 256])
    ensures
        is_shuffled(table@),
{
    let mut table = [0u8; 256];
    let mut i: usize = 0;
    while i < TABLE_SIZE
        invariant
            i <= TABLE_SIZE,
            forall|k: int| 0 <= k < i ==> table@[k] == k as u8,
        decreases TABLE_SIZE - i,
    {
        table[i] = i as u8;
        i += 1;
    }
    assert(table@ =~= identity_table());
    permute(&mut table);
    proof {
        lemma_rearranged_identity_is_shuffled(table@);
    }
    table
}

/// The shuffled tables of the three axes.
pub struct Permutations {
    x: [u8; 256],
    y: [u8; 256],
    z: [u8; 256],
}

impl Permutations {
    /// The table of the x axis.
    pub closed spec fn x(self) -> Seq<u8> {
        self.x@
    }

    /// The table of the y axis.
    pub closed spec fn y(self) -> Seq<u8> {
        self.y@
    }

    /// The table of the z axis.
    pub closed spec fn z(self) -> Seq<u8> {
        self.z@
    }

    /// Each of the three tables is shuffled.
    pub open spec fn wf(self) -> bool {
        is_shuffled(self.x()) && is_shuffled(self.y()) && is_shuffled(self.z())
    }

    /// Where the random value of the lattice point `(i, j, k)` stands: the
    /// three table entries of its coordinates, taken modulo 256 and mixed
    /// by exclusive or.
    pub open spec fn hash(self, i: int, j: int, k: int) -> u8 {
        self.x()[i % 256] ^ self.y()[j % 256] ^ self.z()[k % 256]
    }

    /// Three freshly shuffled tables.
    pub fn generate() -> (tables: Permutations)
        ensures
            tables.wf(),
    {
        Permutations {
            x: perlin_generate_perm(),
            y: perlin_generate_perm(),
            z: perlin_generate_perm(),
        }
    }

    /// Where the random value of the lattice point `(i, j, k)` stands.
    pub fn lattice_hash(&self, i: usize, j: usize, k: usize) -> (place: u8)
        ensures
            place == self.hash(i as int, j as int, k as int),
    {
        assert(i & 255 == i % 256 && j & 255 == j % 256 && k & 255 == k % 256) by (bit_vector);
        self.x[i & 255] ^ self.y[j & 255] ^ self.z[k & 255]
    }

    /// The places of the random values of the eight corners of the lattice
    /// cell whose lowest corner is `(i, j, k)`. The corner that lies `di`,
    /// `dj` and `dk` (each 0 or 1) further along the axes stands at
    /// `4 * di + 2 * dj + dk`.
    pub fn corner_hashes(&self, i: usize, j: usize, k: usize) -> (places: [u8; 8])
        requires
            i < usize::MAX,
            j < usize::MAX,
            k < usize::MAX,
        ensures
            forall|di: int, dj: int, dk: int|
                0 <= di < 2 && 0 <= dj < 2 && 0 <= dk < 2 ==> #[trigger] places@[4 * di + 2 * dj
                    + dk] == self.hash(i + di, j + dj, k + dk),
    {
        [
            self.lattice_hash(i, j, k),
            self.lattice_hash(i, j, k + 1),
            self.lattice_hash(i, j + 1, k),
            self.lattice_hash(i, j + 1, k + 1),
            self.lattice_hash(i + 1, j, k),
            self.lattice_hash(i + 1, j, k + 1),
            self.lattice_hash(i + 1, j + 1, k),
            self.lattice_hash(i + 1, j + 1, k + 1),
        ]
    }
}

} // verus!
