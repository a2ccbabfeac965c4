//! Reed-Solomon erasure coding over whole shards.

use vstd::prelude::*;
use vstd::arithmetic::div_mod::{lemma_fundamental_div_mod, lemma_fundamental_div_mod_converse};
use crate::error::Error;

verus! {

/// The contents of a list of shards.
pub open spec fn shard_views(shards: Seq<Vec<u8>>) -> Seq<Seq<u8>> {
    Seq::new(shards.len(), |i: int| shards[i]@)
}

/// The contents of a list of slots, each a shard or nothing.
pub open spec fn slot_views(slots: Seq<Option<Vec<u8>>>) -> Seq<Option<Seq<u8>>> {
    Seq::new(
        slots.len(),
        |i: int|
            match slots[i] {
                Some(shard) => Some(shard@),
                None => None,
            },
    )
}

/// The shards of slots that are all filled.
pub open spec fn full(slots: Seq<Option<Seq<u8>>>) -> Seq<Seq<u8>> {
    Seq::new(slots.len(), |i: int| slots[i].unwrap())
}

/// Whether every shard has the given size.
pub open spec fn uniform(shards: Seq<Seq<u8>>, size: nat) -> bool {
    forall|i: int| 0 <= i < shards.len() ==> (#[trigger] shards[i]).len() == size
}

/// Whether every shard that is present has the given size.
pub open spec fn slots_uniform(slots: Seq<Option<Seq<u8>>>, size: nat) -> bool {
    forall|i: int|
        0 <= i < slots.len() && (#[trigger] slots[i]) is Some ==> slots[i].unwrap().len() == size
}

/// The number of slots that hold a shard.
pub open spec fn present(slots: Seq<Option<Seq<u8>>>) -> nat
    decreases slots.len(),
{
    if slots.len() == 0 {
        0
    } else {
        present(slots.drop_last()) + if slots.last() is Some {
            1nat
        } else {
            0nat
        }
    }
}

/// The size of the last shard that is present, or zero where none is.
pub open spec fn last_len(slots: Seq<Option<Seq<u8>>>) -> nat
    decreases slots.len(),
{
    if slots.len() == 0 {
        0
    } else {
        match slots.last() {
            Some(shard) => shard.len(),
            None => last_len(slots.drop_last()),
        }
    }
}

/// Whether the shards that are present are the shards of the same index in
/// a full list.
pub open spec fn agrees(slots: Seq<Option<Seq<u8>>>, shards: Seq<Seq<u8>>) -> bool {
    &&& slots.len() == shards.len()
    &&& forall|i: int|
        0 <= i < slots.len() && (#[trigger] slots[i]) is Some ==> slots[i].unwrap() == shards[i]
}

/// The parity shards of the Reed-Solomon code over GF(2^8) for the given
/// data shards.
pub uninterp spec fn rs_parity(data: Seq<Seq<u8>>, parity_shards: nat) -> Seq<Seq<u8>>;

/// All shards, data then parity, that reconstruction leaves in place of
/// slots of which the first `data_shards` are for data.
pub uninterp spec fn rs_reconstruction(slots: Seq<Option<Seq<u8>>>, data_shards: nat) -> Seq<
    Seq<u8>,
>;

/// Data shards followed by their parity shards.
pub open spec fn codeword(data: Seq<Seq<u8>>, parity_shards: nat) -> Seq<Seq<u8>> {
    data + rs_parity(data, parity_shards)
}

/// Whether the slots are what reconstruction accepts: one slot for every
/// shard of the code, at least as many shards present as the code has data
/// shards, and all of them of one size that is not zero.
pub open spec fn reconstructible(slots: Seq<Option<Seq<u8>>>, n: nat, k: nat) -> bool {
    &&& slots.len() == n + k
    &&& present(slots) >= n
    &&& last_len(slots) > 0
    &&& slots_uniform(slots, last_len(slots))
}

/// Computes parity with `reed_solomon_erasure::galois_8::ReedSolomon`
/// (`new`, then `encode`). On shards of one size that is not zero, as many
/// as the code has, the call succeeds, keeps the number of shards, leaves
/// the data shards as they are and overwrites the others with the parity of
/// the data shards, of the same size.
#[verifier::external_body]
fn rs_encode(n: usize, k: usize, shards: &mut Vec<Vec<u8>>) -> (ok: bool)
    requires
        1 <= n,
        1 <= k,
        n + k <= 256,
        old(shards)@.len() == n + k,
        old(shards)@[0]@.len() > 0,
        uniform(shard_views(old(shards)@), old(shards)@[0]@.len()),
    ensures
        ok,
        final(shards)@.len() == old(shards)@.len(),
        shard_views(final(shards)@) == shard_views(old(shards)@).take(n as int) + rs_parity(
            shard_views(old(shards)@).take(n as int),
            k as nat,
        ),
        uniform(shard_views(final(shards)@), old(shards)@[0]@.len()),
{
    match reed_solomon_erasure::galois_8::ReedSolomon::new(n, k) {
        Ok(codec) => codec.encode(shards).is_ok(),
        Err(_) => false,
    }
}

/// Reconstructs with `reed_solomon_erasure::galois_8::ReedSolomon` (`new`,
/// then `reconstruct`). The call succeeds exactly on slots that are
/// reconstructible; it then fills every empty slot and touches no other, and
/// all shards have one size. On failure nothing is touched. Slots that hold
/// shards of a codeword, at least as many as the code has data shards, are
/// filled with the rest of that codeword.
#[verifier::external_body]
fn rs_reconstruct(n: usize, k: usize, slots: &mut Vec<Option<Vec<u8>>>) -> (ok: bool)
    requires
        1 <= n,
        1 <= k,
        n + k <= 256,
    ensures
        ok == reconstructible(slot_views(old(slots)@), n as nat, k as nat),
        ok ==> {
            &&& final(slots)@.len() == n + k
            &&& forall|i: int| 0 <= i < n + k ==> (#[trigger] final(slots)@[i]) is Some
            &&& agrees(slot_views(old(slots)@), full(slot_views(final(slots)@)))
            &&& full(slot_views(final(slots)@)) == rs_reconstruction(
                slot_views(old(slots)@),
                n as nat,
            )
            &&& uniform(full(slot_views(final(slots)@)), last_len(slot_views(old(slots)@)))
        },
        !ok ==> slot_views(final(slots)@) == slot_views(old(slots)@),
        (forall|data: Seq<Seq<u8>>|
            data.len() == n && data[0].len() > 0 && uniform(data, data[0].len()) && present(
                slot_views(old(slots)@),
            ) >= n && agrees(slot_views(old(slots)@), #[trigger] codeword(data, k as nat)) ==> ok
                && full(slot_views(final(slots)@)) == codeword(data, k as nat)),
{
    match reed_solomon_erasure::galois_8::ReedSolomon::new(n, k) {
        Ok(codec) => codec.reconstruct(slots).is_ok(),
        Err(_) => false,
    }
}

/// The size of each shard for `len` bytes split `n` ways: `len / n`,
/// rounded up.
pub open spec fn shard_size(len: nat, n: nat) -> nat {
    if len % n == 0 {
        len / n
    } else {
        len / n + 1
    }
}

/// Data shard `i` of `n`: the `i`-th stretch of the data, padded with zeros
/// to the shard size.
pub open spec fn data_shard(data: Seq<u8>, n: nat, i: int) -> Seq<u8> {
    let size = shard_size(data.len(), n);
    Seq::new(
        size,
        |j: int|
            if i * size + j < data.len() {
                data[i * size + j]
            } else {
                0u8
            },
    )
}

/// The `n` data shards of a byte string.
pub open spec fn data_shards(data: Seq<u8>, n: nat) -> Seq<Seq<u8>> {
    Seq::new(n, |i: int| data_shard(data, n, i))
}

/// The shards of a byte string under an `n` plus `k` code: for the empty
/// string as many empty shards; otherwise the data shards and, where the
/// code has parity, their parity shards.
pub open spec fn encoded(data: Seq<u8>, n: nat, k: nat) -> Seq<Seq<u8>> {
    if data.len() == 0 {
        Seq::new(n + k, |i: int| Seq::<u8>::empty())
    } else if k == 0 {
        data_shards(data, n)
    } else {
        codeword(data_shards(data, n), k)
    }
}

/// The first `n` shards, each of the given size, one after another.
pub open spec fn joined(shards: Seq<Seq<u8>>, n: nat, size: nat) -> Seq<u8> {
    Seq::new(n * size, |p: int| shards[p / (size as int)][p % (size as int)])
}

/// The first `len` bytes, or all of them where there are fewer.
pub open spec fn cut(bytes: Seq<u8>, len: nat) -> Seq<u8> {
    if len <= bytes.len() {
        bytes.take(len as int)
    } else {
        bytes
    }
}

/// What reconstruction returns for the given slots under an `n` plus `k`
/// code: with fewer than `n` shards present, `ErasureInsufficient`; with
/// the wrong number of slots or shards of different sizes,
/// `ErasureInternal`; otherwise the data shards, recovered where missing,
/// joined and cut to the original size.
pub open spec fn reconstructed(
    slots: Seq<Option<Seq<u8>>>,
    n: nat,
    k: nat,
    original_size: nat,
) -> Result<Seq<u8>, Error> {
    let size = last_len(slots);
    if present(slots) < n {
        Err(Error::ErasureInsufficient)
    } else if slots.len() != n + k || !slots_uniform(slots, size) {
        Err(Error::ErasureInternal)
    } else if size == 0 {
        Ok(Seq::<u8>::empty())
    } else if k == 0 {
        Ok(cut(joined(full(slots), n, size), original_size))
    } else {
        Ok(cut(joined(rs_reconstruction(slots, n), n, size), original_size))
    }
}

/// No more slots are filled than there are.
proof fn lemma_present_bound(slots: Seq<Option<Seq<u8>>>)
    ensures
        present(slots) <= slots.len(),
        present(slots) == slots.len() ==> forall|i: int|
            0 <= i < slots.len() ==> (#[trigger] slots[i]) is Some,
    decreases slots.len(),
{
    if slots.len() > 0 {
        let init = slots.drop_last();
        lemma_present_bound(init);
        if present(slots) == slots.len() {
            assert forall|i: int| 0 <= i < slots.len() implies (#[trigger] slots[i]) is Some by {
                if i < init.len() {
                    assert(init[i] == slots[i]);
                }
            }
        }
    }
}

/// Where a shard is present, the last size is the size of a present shard.
proof fn lemma_last_len(slots: Seq<Option<Seq<u8>>>)
    requires
        present(slots) > 0,
    ensures
        exists|i: int|
            0 <= i < slots.len() && (#[trigger] slots[i]) is Some && slots[i].unwrap().len()
                == last_len(slots),
    decreases slots.len(),
{
    if slots.last() is Some {
        assert(slots[slots.len() - 1] is Some);
    } else {
        let init = slots.drop_last();
        lemma_last_len(init);
        let i = choose|i: int|
            0 <= i < init.len() && (#[trigger] init[i]) is Some && init[i].unwrap().len()
                == last_len(init);
        assert(slots[i] == init[i]);
    }
}

/// The data shards of a byte string that is not empty have one size, which
/// is not zero, and joined and cut they give the string back.
pub proof fn lemma_join_data_shards(data: Seq<u8>, n: nat)
    requires
        n >= 1,
        data.len() > 0,
    ensures
        shard_size(data.len(), n) > 0,
        uniform(data_shards(data, n), shard_size(data.len(), n)),
        cut(joined(data_shards(data, n), n, shard_size(data.len(), n)), data.len()) == data,
{
    let len = data.len() as int;
    let size = shard_size(data.len(), n) as int;
    let m = n as int;
    lemma_fundamental_div_mod(len, m);
    assert(size > 0 && m * size >= len) by (nonlinear_arith)
        requires
            len > 0,
            m >= 1,
            len == m * (len / m) + len % m,
            0 <= len % m < m,
            size == if len % m == 0 {
                len / m
            } else {
                len / m + 1
            },
    ;
    let shards = data_shards(data, n);
    let whole = joined(shards, n, size as nat);
    assert(whole.len() == m * size);
    assert forall|p: int| 0 <= p < len implies whole[p] == data[p] by {
        lemma_fundamental_div_mod(p, size);
        let i = p / size;
        let j = p % size;
        assert(0 <= i < m) by (nonlinear_arith)
            requires
                0 <= p < m * size,
                size > 0,
                p == size * i + j,
                0 <= j < size,
        ;
        assert(i * size + j == p) by (nonlinear_arith)
            requires
                p == size * i + j,
        ;
        assert(shards[i][j] == data[p]);
    }
    assert(cut(whole, data.len()) =~= data);
}

/// Joining looks at the first `n` shards only.
proof fn lemma_joined_agree(a: Seq<Seq<u8>>, b: Seq<Seq<u8>>, n: nat, size: nat)
    requires
        size > 0,
        n <= a.len(),
        a.take(n as int) == b,
    ensures
        joined(a, n, size) == joined(b, n, size),
{
    let m = n as int;
    let s = size as int;
    assert forall|p: int| 0 <= p < m * s implies #[trigger] joined(a, n, size)[p] == joined(
        b,
        n,
        size,
    )[p] by {
        lemma_fundamental_div_mod(p, s);
        let i = p / s;
        assert(0 <= i < m) by (nonlinear_arith)
            requires
                0 <= p < m * s,
                s > 0,
                p == s * i + p % s,
                0 <= p % s < s,
        ;
        assert(a.take(m)[i] == a[i]);
    }
    assert(joined(a, n, size) =~= joined(b, n, size));
}

/// An erasure coder with `N` data shards and `K` parity shards.
#[derive(Clone, Copy, Debug)]
pub struct ErasureCoder {
    data_shards: usize,
    parity_shards: usize,
}

impl ErasureCoder {
    #[verifier::type_invariant]
    spec fn shape(&self) -> bool {
        1 <= self.data_shards && self.data_shards + self.parity_shards <= 255
    }

    /// The number of data shards.
    pub closed spec fn n(&self) -> nat {
        self.data_shards as nat
    }

    /// The number of parity shards.
    pub closed spec fn k(&self) -> nat {
        self.parity_shards as nat
    }

    /// A coder for `data_shards` data shards and `parity_shards` parity
    /// shards. There must be at least one data shard and at most 255 shards
    /// in all; otherwise the call fails with `ErasureInternal`.
    pub fn new(data_shards: usize, parity_shards: usize) -> (r: Result<ErasureCoder, Error>)
        ensures
            match r {
                Ok(coder) => {
                    &&& 1 <= data_shards
                    &&& data_shards + parity_shards <= 255
                    &&& coder.n() == data_shards
                    &&& coder.k() == parity_shards
                },
                Err(e) => e == Error::ErasureInternal && !(1 <= data_shards && data_shards
                    + parity_shards <= 255),
            },
    {
        if data_shards == 0 || data_shards > 255 || parity_shards > 255 - data_shards {
            return Err(Error::ErasureInternal);
        }
        Ok(ErasureCoder { data_shards, parity_shards })
    }

    /// The number of data shards.
    pub fn data_shards(&self) -> (n: usize)
        ensures
            n == self.n(),
            n >= 1,
    {
        proof {
            use_type_invariant(self);
        }
        self.data_shards
    }

    /// The number of parity shards.
    pub fn parity_shards(&self) -> (k: usize)
        ensures
            k == self.k(),
    {
        self.parity_shards
    }

    /// The number of shards in all.
    pub fn total_shards(&self) -> (total: usize)
        ensures
            total == self.n() + self.k(),
            total <= 255,
    {
        proof {
            use_type_invariant(self);
        }
        self.data_shards + self.parity_shards
    }

    /// Cuts data shard `i` out of the data.
    fn cut_shard(data: &[u8], n: usize, size: usize, i: usize) -> (shard: Vec<u8>)
        requires
            1 <= n <= 255,
            i < n,
            size == shard_size(data@.len(), n as nat),
        ensures
            shard@ == data_shard(data@, n as nat, i as int),
    {
        let ghost expected = data_shard(data@, n as nat, i as int);
        let mut shard: Vec<u8> = Vec::with_capacity(size);
        let mut j: usize = 0;
        while j < size
            invariant
                j <= size,
                i < n <= 255,
                size == shard_size(data@.len(), n as nat),
                expected == data_shard(data@, n as nat, i as int),
                shard@ == expected.subrange(0, j as int),
            decreases size - j,
        {
            assert(i * size <= 255 * size) by (nonlinear_arith)
                requires
                    0 <= i <= 255,
                    size >= 0,
            ;
            let index: u128 = (i as u128) * (size as u128) + (j as u128);
            let byte = if index < data.len() as u128 {
                data[index as usize]
            } else {
                0u8
            };
            assert(byte == expected[j as int]);
            shard.push(byte);
            j += 1;
        }
        assert(shard@ == expected);
        shard
    }

    /// Splits `data` into the coder's data shards, zero-padded to one size,
    /// and adds its parity shards.
    pub fn encode(&self, data: &[u8]) -> (r: Result<Vec<Vec<u8>>, Error>)
        ensures
            r is Ok,
            shard_views(r.unwrap()@) == encoded(data@, self.n(), self.k()),
            r.unwrap()@.len() == self.n() + self.k(),
            uniform(shard_views(r.unwrap()@), shard_size(data@.len(), self.n())),
    {
        proof {
            use_type_invariant(self);
        }
        let n = self.data_shards;
        let k = self.parity_shards;
        let len = data.len();
        let mut shards: Vec<Vec<u8>> = Vec::with_capacity(n + k);
        if len == 0 {
            let mut i: usize = 0;
            while i < n + k
                invariant
                    i <= n + k <= 255,
                    shards@.len() == i,
                    forall|j: int| 0 <= j < i ==> (#[trigger] shards@[j])@.len() == 0,
                decreases n + k - i,
            {
                shards.push(Vec::new());
                i += 1;
            }
            assert(shard_views(shards@) =~~= encoded(data@, n as nat, k as nat));
            assert(0int % (n as int) == 0 && 0int / (n as int) == 0) by (nonlinear_arith)
                requires
                    n >= 1,
            ;
            assert forall|j: int| 0 <= j < shards@.len() implies (#[trigger] shard_views(
                shards@,
            )[j]).len() == 0 by {
                assert(shards@[j]@.len() == 0);
            }
            return Ok(shards);
        }
        proof {
            lemma_join_data_shards(data@, n as nat);
            lemma_fundamental_div_mod(len as int, n as int);
            if len % n != 0 {
                assert(len / n < len) by (nonlinear_arith)
                    requires
                        len == n * (len / n) + len % n,
                        0 < len % n < n,
                        len / n >= 0,
                ;
            }
        }
        let size = if len % n == 0 {
            len / n
        } else {
            len / n + 1
        };
        let mut i: usize = 0;
        while i < n
            invariant
                i <= n <= 255,
                1 <= n,
                size == shard_size(data@.len(), n as nat),
                shards@.len() == i,
                forall|j: int| 0 <= j < i ==> (#[trigger] shards@[j])@ == data_shard(data@, n as nat, j),
            decreases n - i,
        {
            shards.push(Self::cut_shard(data, n, size, i));
            i += 1;
        }
        assert(shard_views(shards@) =~= data_shards(data@, n as nat));
        if k == 0 {
            return Ok(shards);
        }
        let mut j: usize = 0;
        while j < k
            invariant
                j <= k,
                n + k <= 255,
                size > 0,
                shards@.len() == n + j,
                shard_views(shards@).take(n as int) == data_shards(data@, n as nat),
                uniform(data_shards(data@, n as nat), size as nat),
                forall|t: int| n <= t < n + j ==> (#[trigger] shards@[t])@.len() == size,
            decreases k - j,
        {
            let ghost before = shard_views(shards@);
            shards.push(vec![0u8; size]);
            assert(shard_views(shards@).take(n as int) =~= before.take(n as int));
            j += 1;
        }
        proof {
            assert forall|t: int| 0 <= t < shards@.len() implies (#[trigger] shard_views(
                shards@,
            )[t]).len() == size by {
                if t < n {
                    assert(shard_views(shards@).take(n as int)[t] == shard_views(shards@)[t]);
                } else {
                    assert(shards@[t]@.len() == size);
                }
            }
            assert(shard_views(shards@)[0] == shards@[0]@);
            assert(shards@[0]@.len() == size);
        }
        if rs_encode(n, k, &mut shards) {
            Ok(shards)
        } else {
            Err(Error::ErasureInternal)
        }
    }

    /// Counts the shards that are present and finds the size of the last.
    fn survey(slots: &Vec<Option<Vec<u8>>>) -> (r: (usize, usize))
        ensures
            r.0 == present(slot_views(slots@)),
            r.1 == last_len(slot_views(slots@)),
    {
        let ghost views = slot_views(slots@);
        let mut count: usize = 0;
        let mut size: usize = 0;
        let mut i: usize = 0;
        assert(views.take(0) =~= Seq::empty());
        while i < slots.len()
            invariant
                i <= slots@.len(),
                views == slot_views(slots@),
                count == present(views.take(i as int)),
                count <= i,
                size == last_len(views.take(i as int)),
            decreases slots@.len() - i,
        {
            proof {
                let upto = views.take(i + 1);
                assert(upto.drop_last() =~= views.take(i as int));
                assert(upto.last() == views[i as int]);
            }
            match &slots[i] {
                Some(shard) => {
                    count += 1;
                    size = shard.len();
                },
                None => {},
            }
            i += 1;
        }
        assert(views.take(i as int) =~= views);
        (count, size)
    }

    /// Whether every shard that is present has the given size.
    fn all_of_size(slots: &Vec<Option<Vec<u8>>>, size: usize) -> (ok: bool)
        ensures
            ok == slots_uniform(slot_views(slots@), size as nat),
    {
        let ghost views = slot_views(slots@);
        let mut i: usize = 0;
        while i < slots.len()
            invariant
                i <= slots@.len(),
                views == slot_views(slots@),
                forall|j: int|
                    0 <= j < i && (#[trigger] views[j]) is Some ==> views[j].unwrap().len() == size,
            decreases slots@.len() - i,
        {
            match &slots[i] {
                Some(shard) => {
                    if shard.len() != size {
                        assert(views[i as int] is Some);
                        return false;
                    }
                },
                None => {},
            }
            i += 1;
        }
        true
    }

    /// Joins the first `n` shards, all present and of one size.
    fn join(slots: &Vec<Option<Vec<u8>>>, n: usize, size: usize) -> (out: Vec<u8>)
        requires
            n <= slots@.len(),
            size > 0,
            forall|i: int| 0 <= i < slots@.len() ==> (#[trigger] slot_views(slots@)[i]) is Some,
            uniform(full(slot_views(slots@)), size as nat),
        ensures
            out@ == joined(full(slot_views(slots@)), n as nat, size as nat),
    {
        let ghost shards = full(slot_views(slots@));
        let ghost whole = joined(shards, n as nat, size as nat);
        let mut out: Vec<u8> = Vec::new();
        let mut i: usize = 0;
        assert(0 * size == 0);
        assert(n * size >= 0) by (nonlinear_arith)
            requires
                n >= 0,
                size >= 0,
        ;
        while i < n
            invariant
                i <= n <= slots@.len(),
                size > 0,
                shards == full(slot_views(slots@)),
                forall|t: int| 0 <= t < slots@.len() ==> (#[trigger] slot_views(slots@)[t]) is Some,
                uniform(shards, size as nat),
                whole == joined(shards, n as nat, size as nat),
                whole.len() == n * size,
                0 <= i * size <= n * size,
                out@ == whole.subrange(0, i * size),
            decreases n - i,
        {
            assert(slot_views(slots@)[i as int] is Some);
            assert(shards[i as int].len() == size);
            assert(i * size + size == (i + 1) * size && (i + 1) * size <= n * size)
                by (nonlinear_arith)
                requires
                    0 <= i < n,
                    size > 0,
            ;
            match &slots[i] {
                Some(shard) => {
                    let mut j: usize = 0;
                    while j < size
                        invariant
                            j <= size,
                            size > 0,
                            i < n,
                            shard@ == shards[i as int],
                            shard@.len() == size,
                            whole == joined(shards, n as nat, size as nat),
                            whole.len() == n * size,
                            0 <= i * size,
                            i * size + size <= n * size,
                            out@ == whole.subrange(0, i * size + j),
                        decreases size - j,
                    {
                        proof {
                            lemma_fundamental_div_mod_converse(
                                i * size + j,
                                size as int,
                                i as int,
                                j as int,
                            );
                            assert(whole[i * size + j] == shard@[j as int]);
                        }
                        out.push(shard[j]);
                        assert(out@ =~= whole.subrange(0, i * size + j + 1));
                        j += 1;
                    }
                },
                None => {},
            }
            i += 1;
        }
        assert(out@ == whole);
        out
    }

    /// Recovers the original bytes from slots of which some may be empty.
    ///
    /// The result is exactly what `reconstructed` describes. In particular,
    /// slots that hold shards of the encoding of a byte string, at least as
    /// many as the coder has data shards, give that byte string back when
    /// cut to its length.
    pub fn reconstruct(&self, shards: Vec<Option<Vec<u8>>>, original_size: usize) -> (r: Result<
        Vec<u8>,
        Error,
    >)
        ensures
            match r {
                Ok(bytes) => reconstructed(
                    slot_views(shards@),
                    self.n(),
                    self.k(),
                    original_size as nat,
                ) == Ok::<Seq<u8>, Error>(bytes@),
                Err(e) => reconstructed(
                    slot_views(shards@),
                    self.n(),
                    self.k(),
                    original_size as nat,
                ) == Err::<Seq<u8>, Error>(e),
            },
            forall|data: Seq<u8>|
                #![trigger encoded(data, self.n(), self.k())]
                data.len() == original_size && present(slot_views(shards@)) >= self.n() && agrees(
                    slot_views(shards@),
                    encoded(data, self.n(), self.k()),
                ) ==> r is Ok && r.unwrap()@ == data,
    {
        proof {
            use_type_invariant(self);
        }
        let n = self.data_shards;
        let k = self.parity_shards;
        let ghost given = slot_views(shards@);
        let mut slots = shards;
        let (count, size) = Self::survey(&slots);
        if count < n {
            return Err(Error::ErasureInsufficient);
        }
        proof {
            lemma_present_bound(given);
            lemma_last_len(given);
        }
        if k > 0 {
            let recovered = rs_reconstruct(n, k, &mut slots);
            if recovered {
                let mut out = Self::join(&slots, n, size);
                out.truncate(original_size);
                proof {
                    let all = full(slot_views(slots@));
                    assert forall|data: Seq<u8>|
                        data.len() == original_size && #[trigger] agrees(
                            given,
                            encoded(data, n as nat, k as nat),
                        ) implies out@ == data by {
                        let i = choose|i: int|
                            0 <= i < given.len() && (#[trigger] given[i]) is Some
                                && given[i].unwrap().len() == last_len(given);
                        if data.len() > 0 {
                            lemma_join_data_shards(data, n as nat);
                            let parts = data_shards(data, n as nat);
                            assert(all == codeword(parts, k as nat));
                            assert(all[0] == parts[0]);
                            assert(all.take(n as int) =~= parts);
                            lemma_joined_agree(all, parts, n as nat, size as nat);
                        } else {
                            assert(encoded(data, n as nat, k as nat)[i].len() == 0);
                        }
                    }
                }
                return Ok(out);
            }
            proof {
                assert forall|data: Seq<u8>|
                    data.len() == original_size && data.len() > 0 && #[trigger] agrees(
                        given,
                        encoded(data, n as nat, k as nat),
                    ) implies false by {
                    lemma_join_data_shards(data, n as nat);
                    let parts = data_shards(data, n as nat);
                    assert(agrees(given, codeword(parts, k as nat)));
                }
            }
        }
        if slots.len() != n + k || !Self::all_of_size(&slots, size) {
            return Err(Error::ErasureInternal);
        }
        if size == 0 {
            proof {
                assert forall|data: Seq<u8>|
                    data.len() == original_size && data.len() > 0 && k == 0 && #[trigger] agrees(
                        given,
                        encoded(data, n as nat, k as nat),
                    ) implies false by {
                    lemma_join_data_shards(data, n as nat);
                    let i = choose|i: int|
                        0 <= i < given.len() && (#[trigger] given[i]) is Some
                            && given[i].unwrap().len() == last_len(given);
                    assert(data_shards(data, n as nat)[i].len() == shard_size(data.len(), n as nat));
                }
            }
            return Ok(Vec::new());
        }
        if k > 0 {
            return Err(Error::ErasureInternal);
        }
        proof {
            assert forall|i: int| 0 <= i < slots@.len() implies (#[trigger] full(given)[i]).len()
                == size by {
                assert(given[i] is Some);
            }
        }
        let mut out = Self::join(&slots, n, size);
        out.truncate(original_size);
        proof {
            assert forall|data: Seq<u8>|
                data.len() == original_size && #[trigger] agrees(
                    given,
                    encoded(data, n as nat, k as nat),
                ) implies out@ == data by {
                if data.len() > 0 {
                    lemma_join_data_shards(data, n as nat);
                    let parts = data_shards(data, n as nat);
                    assert(full(given) =~= parts) by {
                        assert forall|i: int| 0 <= i < n implies full(given)[i] == parts[i] by {
                            assert(given[i] is Some);
                        }
                    }
                    assert(parts[0].len() == size) by {
                        assert(given[0] is Some);
                    }
                } else {
                    assert(given[0] is Some);
                    assert(encoded(data, n as nat, k as nat)[0].len() == 0);
                }
            }
        }
        Ok(out)
    }
}

} // verus!
