//! The pool of spendable candidates, kept in creation order.

use vstd::prelude::*;

verus! {

/// Largest sum of values that a pool, or the payments of one withdrawal, may hold.
pub const MAX_TOTAL_VALUE: u64 = 0x3fff_ffff_ffff_ffff;

/// Largest sum of weights that a pool may hold, one extra unit counted per
/// candidate: far beyond what fits in memory, and small enough for every fee
/// and cost to be worked out in 128 bits.
pub const MAX_TOTAL_WEIGHT: u64 = 0x7f_ffff_ffff;

/// A spendable coin: a deposit, or the change of an earlier withdrawal.
#[derive(Clone, Copy, Debug)]
pub struct Candidate {
    /// Value in satoshi.
    pub value: u64,
    /// Weight of spending it as an input.
    pub weight: u32,
    /// Number of transaction inputs it stands for.
    pub input_count: usize,
    /// Whether it is spent with a witness.
    pub is_segwit: bool,
    /// Position in the order of creation; it identifies the candidate.
    pub creation_sequence: u64,
}

/// The reason why a pool cannot take another candidate.
#[derive(Clone, Copy, Debug, PartialEq, Eq, Structural)]
pub enum PoolLimit {
    /// The weight is zero.
    ZeroWeight,
    /// The balance would pass `MAX_TOTAL_VALUE`.
    Value,
    /// The total weight would pass `MAX_TOTAL_WEIGHT`.
    Weight,
    /// No creation sequence number is left.
    Sequence,
}

/// Sum of the values of `s`.
pub open spec fn total_value(s: Seq<Candidate>) -> int
    decreases s.len(),
{
    if s.len() == 0 {
        0
    } else {
        total_value(s.drop_last()) + s.last().value
    }
}

/// Sum of the weights of `s`.
pub open spec fn total_weight(s: Seq<Candidate>) -> int
    decreases s.len(),
{
    if s.len() == 0 {
        0
    } else {
        total_weight(s.drop_last()) + s.last().weight
    }
}

/// The values of `s`, in order.
pub open spec fn values_of(s: Seq<Candidate>) -> Seq<u64> {
    Seq::new(s.len(), |i: int| s[i].value)
}

/// Every candidate is a single segwit input of positive weight.
pub open spec fn all_standard(s: Seq<Candidate>) -> bool {
    forall|i: int|
        0 <= i < s.len() ==> s[i].weight > 0 && s[i].input_count == 1 && s[i].is_segwit
}

/// Creation sequence numbers rise strictly along `s` and stay below `bound`.
pub open spec fn in_creation_order(s: Seq<Candidate>, bound: int) -> bool {
    &&& forall|i: int, j: int|
        0 <= i < j < s.len() ==> s[i].creation_sequence < s[j].creation_sequence
    &&& forall|i: int| 0 <= i < s.len() ==> (#[trigger] s[i]).creation_sequence < bound
}

/// The candidates of `s` whose flag in `mask` is set, in order.
pub open spec fn picked(s: Seq<Candidate>, mask: Seq<bool>) -> Seq<Candidate>
    recommends
        s.len() == mask.len(),
    decreases s.len(),
{
    if s.len() == 0 || mask.len() != s.len() {
        Seq::empty()
    } else if mask.last() {
        picked(s.drop_last(), mask.drop_last()).push(s.last())
    } else {
        picked(s.drop_last(), mask.drop_last())
    }
}

/// The flags of `mask`, each turned over.
pub open spec fn inverted(mask: Seq<bool>) -> Seq<bool> {
    Seq::new(mask.len(), |i: int| !mask[i])
}

/// The candidates of `s` whose flag in `mask` is clear, in order.
pub open spec fn unpicked(s: Seq<Candidate>, mask: Seq<bool>) -> Seq<Candidate> {
    picked(s, inverted(mask))
}

/// A candidate put at the end adds its value and its weight to the sums.
pub proof fn lemma_total_value_push(s: Seq<Candidate>, c: Candidate)
    ensures
        total_value(s.push(c)) == total_value(s) + c.value,
        total_weight(s.push(c)) == total_weight(s) + c.weight,
{
    assert(s.push(c).drop_last() =~= s);
}

/// Sums are never negative, and a weight sum of standard candidates counts each of them.
pub proof fn lemma_totals_bounds(s: Seq<Candidate>)
    ensures
        0 <= total_value(s),
        0 <= total_weight(s),
        all_standard(s) ==> s.len() <= total_weight(s),
    decreases s.len(),
{
    if s.len() > 0 {
        lemma_totals_bounds(s.drop_last());
    }
}

/// What is picked and what is left share out the sums and the length of the whole.
pub proof fn lemma_picked_split(s: Seq<Candidate>, mask: Seq<bool>)
    requires
        s.len() == mask.len(),
    ensures
        total_value(picked(s, mask)) + total_value(unpicked(s, mask)) == total_value(s),
        total_weight(picked(s, mask)) + total_weight(unpicked(s, mask)) == total_weight(s),
        picked(s, mask).len() + unpicked(s, mask).len() == s.len(),
    decreases s.len(),
{
    if s.len() > 0 {
        lemma_picked_split(s.drop_last(), mask.drop_last());
        assert(inverted(mask).drop_last() =~= inverted(mask.drop_last()));
        if mask.last() {
            lemma_total_value_push(picked(s.drop_last(), mask.drop_last()), s.last());
        } else {
            lemma_total_value_push(picked(s.drop_last(), inverted(mask).drop_last()), s.last());
        }
    }
}

/// Picking keeps candidates standard and in creation order.
pub proof fn lemma_picked_keeps(s: Seq<Candidate>, mask: Seq<bool>, bound: int)
    requires
        s.len() == mask.len(),
    ensures
        picked(s, mask).len() <= s.len(),
        all_standard(s) ==> all_standard(picked(s, mask)),
        in_creation_order(s, bound) ==> in_creation_order(picked(s, mask), bound),
    decreases s.len(),
{
    if s.len() > 0 {
        let s0 = s.drop_last();
        let m0 = mask.drop_last();
        lemma_picked_keeps(s0, m0, bound);
        let p0 = picked(s0, m0);
        let p = picked(s, mask);
        if all_standard(s) {
            assert(all_standard(s0));
            assert forall|i: int| 0 <= i < p.len() implies p[i].weight > 0 && p[i].input_count
                == 1 && p[i].is_segwit by {
                if i < p0.len() {
                    assert(p[i] == p0[i]);
                } else {
                    assert(p[i] == s[s.len() - 1]);
                }
            }
        }
        if in_creation_order(s, bound) {
            let last = s.last().creation_sequence as int;
            assert(in_creation_order(s0, bound));
            assert(in_creation_order(s0, last)) by {
                assert forall|i: int| 0 <= i < s0.len() implies (#[trigger] s0[i]).creation_sequence
                    < last by {
                    assert(s0[i] == s[i]);
                }
            }
            lemma_picked_keeps(s0, m0, last);
            assert forall|i: int, k: int| 0 <= i < k < p.len() implies p[i].creation_sequence
                < p[k].creation_sequence by {
                assert(p[i] == p0[i]);
                if k < p0.len() {
                    assert(p[k] == p0[k]);
                }
            }
            assert forall|i: int| 0 <= i < p.len() implies (#[trigger] p[i]).creation_sequence
                < bound by {
                if i < p0.len() {
                    assert(p[i] == p0[i]);
                } else {
                    assert(p[i] == s[s.len() - 1]);
                }
            }
        }
    }
}

/// The flags that mark the candidates of `s` whose creation sequence number
/// is among `ids`.
pub open spec fn id_mask(s: Seq<Candidate>, ids: Seq<u64>) -> Seq<bool> {
    Seq::new(s.len(), |i: int| ids.contains(s[i].creation_sequence))
}

/// Whether `id` is among `ids`.
fn holds(ids: &Vec<u64>, id: u64) -> (yes: bool)
    ensures
        yes == ids@.contains(id),
{
    let mut i: usize = 0;
    while i < ids.len()
        invariant
            i <= ids.len(),
            forall|j: int| 0 <= j < i ==> ids@[j] != id,
        decreases ids.len() - i,
    {
        if ids[i] == id {
            return true;
        }
        i = i + 1;
    }
    false
}

/// The sums of a prefix never pass those of the whole.
pub proof fn lemma_prefix_totals(s: Seq<Candidate>, i: int)
    requires
        0 <= i <= s.len(),
    ensures
        total_value(s.take(i)) <= total_value(s),
        total_weight(s.take(i)) <= total_weight(s),
    decreases s.len() - i,
{
    if i < s.len() {
        lemma_prefix_totals(s, i + 1);
        assert(s.take(i + 1).drop_last() =~= s.take(i));
    } else {
        assert(s.take(i) =~= s);
    }
}

/// The spendable candidates of one run, oldest first.
pub struct Pool {
    candidates: Vec<Candidate>,
    next_sequence: u64,
    balance: u64,
    weight: u64,
}

impl Pool {
    /// The candidates, in creation order.
    pub closed spec fn view(&self) -> Seq<Candidate> {
        self.candidates@
    }

    /// The creation sequence number that the next candidate gets.
    pub closed spec fn next_id(&self) -> int {
        self.next_sequence as int
    }

    /// The sums that the pool keeps agree with its candidates.
    pub closed spec fn sums_kept(&self) -> bool {
        &&& self.balance == total_value(self.candidates@)
        &&& self.weight == total_weight(self.candidates@)
    }

    /// The pool holds standard candidates in creation order, within its limits.
    pub open spec fn wf(&self) -> bool {
        &&& self.sums_kept()
        &&& all_standard(self@)
        &&& in_creation_order(self@, self.next_id())
        &&& 0 <= self.next_id() <= u64::MAX
        &&& total_value(self@) <= MAX_TOTAL_VALUE
        &&& total_weight(self@) + self@.len() <= MAX_TOTAL_WEIGHT
    }

    /// Whether a candidate of this value and weight still fits, and if not, why.
    pub open spec fn refusal(&self, value: u64, weight: u32) -> Option<PoolLimit> {
        if weight == 0 {
            Some(PoolLimit::ZeroWeight)
        } else if total_value(self@) + value > MAX_TOTAL_VALUE {
            Some(PoolLimit::Value)
        } else if total_weight(self@) + self@.len() + weight + 1 > MAX_TOTAL_WEIGHT {
            Some(PoolLimit::Weight)
        } else if self.next_id() >= u64::MAX {
            Some(PoolLimit::Sequence)
        } else {
            None
        }
    }

    /// The candidate that a deposit of this value and weight creates.
    pub open spec fn minted(&self, value: u64, weight: u32) -> Candidate {
        Candidate {
            value,
            weight,
            input_count: 1,
            is_segwit: true,
            creation_sequence: self.next_id() as u64,
        }
    }

    /// An empty pool.
    pub fn new() -> (pool: Pool)
        ensures
            pool.wf(),
            pool@ == Seq::<Candidate>::empty(),
            pool.next_id() == 0,
    {
        Pool { candidates: Vec::new(), next_sequence: 0, balance: 0, weight: 0 }
    }

    /// Number of candidates.
    pub fn len(&self) -> (n: usize)
        ensures
            n == self@.len(),
    {
        self.candidates.len()
    }

    /// Whether a creation sequence number is left for one more candidate.
    pub fn has_sequence_left(&self) -> (yes: bool)
        ensures
            yes == (self.next_id() < u64::MAX),
    {
        self.next_sequence < u64::MAX
    }

    /// Sum of the values of all candidates.
    pub fn balance(&self) -> (sum: u64)
        requires
            self.wf(),
        ensures
            sum == total_value(self@),
    {
        self.balance
    }

    /// Sum of the weights of all candidates.
    pub fn weight(&self) -> (sum: u64)
        requires
            self.wf(),
        ensures
            sum == total_weight(self@),
    {
        self.weight
    }

    /// Adds a candidate of the given value and weight at the end of the pool and
    /// returns its creation sequence number, unless a limit of the pool forbids it.
    pub fn deposit(&mut self, value: u64, weight: u32) -> (id: Result<u64, PoolLimit>)
        requires
            old(self).wf(),
        ensures
            final(self).wf(),
            match id {
                Ok(seq) => {
                    &&& old(self).refusal(value, weight) is None
                    &&& seq == old(self).next_id()
                    &&& final(self)@ == old(self)@.push(old(self).minted(value, weight))
                    &&& final(self).next_id() == old(self).next_id() + 1
                },
                Err(limit) => {
                    &&& old(self).refusal(value, weight) == Some(limit)
                    &&& final(self)@ == old(self)@
                    &&& final(self).next_id() == old(self).next_id()
                },
            },
    {
        proof {
            lemma_totals_bounds(self@);
        }
        if weight == 0 {
            return Err(PoolLimit::ZeroWeight);
        }
        if value > MAX_TOTAL_VALUE - self.balance {
            return Err(PoolLimit::Value);
        }
        let count: u64 = self.candidates.len() as u64;
        if weight as u64 + 1 > MAX_TOTAL_WEIGHT - self.weight - count {
            return Err(PoolLimit::Weight);
        }
        if self.next_sequence == u64::MAX {
            return Err(PoolLimit::Sequence);
        }
        let seq: u64 = self.next_sequence;
        let coin = Candidate { value, weight, input_count: 1, is_segwit: true, creation_sequence: seq };
        proof {
            lemma_total_value_push(self@, coin);
        }
        self.candidates.push(coin);
        self.next_sequence = seq + 1;
        self.balance = self.balance + value;
        self.weight = self.weight + weight as u64;
        Ok(seq)
    }

    /// The candidates as they lie in the pool, oldest first.
    pub fn candidates(&self) -> (list: &Vec<Candidate>)
        ensures
            list@ == self@,
    {
        &self.candidates
    }

    /// The candidates, oldest first.
    pub fn all(&self) -> (list: Vec<Candidate>)
        ensures
            list@ == self@,
    {
        let mut list: Vec<Candidate> = Vec::new();
        let mut i: usize = 0;
        while i < self.candidates.len()
            invariant
                i <= self.candidates.len(),
                list@ == self.candidates@.take(i as int),
            decreases self.candidates.len() - i,
        {
            list.push(self.candidates[i]);
            assert(self.candidates@.take(i + 1) =~= self.candidates@.take(i as int).push(
                self.candidates@[i as int],
            ));
            i = i + 1;
        }
        assert(self.candidates@.take(i as int) =~= self.candidates@);
        list
    }

    /// The values of the candidates, oldest first.
    pub fn values(&self) -> (list: Vec<u64>)
        ensures
            list@ == values_of(self@),
    {
        let mut list: Vec<u64> = Vec::new();
        let mut i: usize = 0;
        while i < self.candidates.len()
            invariant
                i <= self.candidates.len(),
                list@ == values_of(self.candidates@.take(i as int)),
            decreases self.candidates.len() - i,
        {
            list.push(self.candidates[i].value);
            assert(values_of(self.candidates@.take(i + 1)) =~= values_of(
                self.candidates@.take(i as int),
            ).push(self.candidates@[i as int].value));
            i = i + 1;
        }
        assert(self.candidates@.take(i as int) =~= self.candidates@);
        list
    }

    /// Takes out of the pool the candidates whose flag in `mask` is set and
    /// returns them, oldest first; the others stay, in their order.
    pub fn remove(&mut self, mask: &Vec<bool>) -> (taken: Vec<Candidate>)
        requires
            old(self).wf(),
            mask@.len() == old(self)@.len(),
        ensures
            final(self).wf(),
            taken@ == picked(old(self)@, mask@),
            final(self)@ == unpicked(old(self)@, mask@),
            final(self).next_id() == old(self).next_id(),
    {
        let ghost before = self.candidates@;
        let ghost flags = mask@;
        let mut taken: Vec<Candidate> = Vec::new();
        let mut kept: Vec<Candidate> = Vec::new();
        let mut kept_value: u64 = 0;
        let mut kept_weight: u64 = 0;
        let mut i: usize = 0;
        let n: usize = self.candidates.len();
        while i < n
            invariant
                i <= n,
                n == before.len(),
                flags == mask@,
                flags.len() == n,
                before == self.candidates@,
                total_value(before) <= MAX_TOTAL_VALUE,
                total_weight(before) <= MAX_TOTAL_WEIGHT,
                taken@ == picked(before.take(i as int), flags.take(i as int)),
                kept@ == unpicked(before.take(i as int), flags.take(i as int)),
                kept_value == total_value(kept@),
                kept_weight == total_weight(kept@),
            decreases n - i,
        {
            let coin = self.candidates[i];
            proof {
                let s1 = before.take(i + 1);
                let m1 = flags.take(i + 1);
                assert(s1.drop_last() =~= before.take(i as int));
                assert(m1.drop_last() =~= flags.take(i as int));
                assert(inverted(m1).drop_last() =~= inverted(flags.take(i as int)));
                lemma_prefix_totals(before, i + 1);
                lemma_picked_split(s1, m1);
                lemma_totals_bounds(picked(s1, m1));
                lemma_total_value_push(kept@, coin);
            }
            if mask[i] {
                taken.push(coin);
            } else {
                kept.push(coin);
                kept_value = kept_value + coin.value;
                kept_weight = kept_weight + coin.weight as u64;
            }
            i = i + 1;
        }
        proof {
            assert(before.take(n as int) =~= before);
            assert(flags.take(n as int) =~= flags);
            lemma_picked_keeps(before, inverted(flags), self.next_id());
            lemma_picked_split(before, flags);
            lemma_totals_bounds(picked(before, flags));
        }
        self.candidates = kept;
        self.balance = kept_value;
        self.weight = kept_weight;
        taken
    }

    /// Takes out of the pool the candidates whose creation sequence number
    /// is among `ids` and returns them, oldest first; the others stay, in
    /// their order. A number that no candidate has changes nothing.
    pub fn remove_ids(&mut self, ids: &Vec<u64>) -> (taken: Vec<Candidate>)
        requires
            old(self).wf(),
        ensures
            final(self).wf(),
            taken@ == picked(old(self)@, id_mask(old(self)@, ids@)),
            final(self)@ == unpicked(old(self)@, id_mask(old(self)@, ids@)),
            final(self).next_id() == old(self).next_id(),
    {
        let mut mask: Vec<bool> = Vec::new();
        let mut i: usize = 0;
        while i < self.candidates.len()
            invariant
                i <= self.candidates@.len(),
                mask@.len() == i,
                forall|j: int|
                    0 <= j < i ==> mask@[j] == ids@.contains(
                        self.candidates@[j].creation_sequence,
                    ),
            decreases self.candidates@.len() - i,
        {
            mask.push(holds(ids, self.candidates[i].creation_sequence));
            i = i + 1;
        }
        assert(mask@ =~= id_mask(self@, ids@));
        self.remove(&mask)
    }
}

} // verus!
