use vstd::prelude::*;

verus! {

/// A contribution list in the abstract: keys paired with byte counts, in insertion order.
pub type Pairs = Seq<(Seq<char>, int)>;

/// Index of the pair holding `k`, or -1 when no pair does.
pub open spec fn find_key(s: Pairs, k: Seq<char>) -> int
    decreases s.len(),
{
    if s.len() == 0 {
        -1
    } else if s.last().0 == k {
        s.len() - 1
    } else {
        find_key(s.drop_last(), k)
    }
}

pub open spec fn unique_keys(s: Pairs) -> bool {
    forall|a: int, b: int| 0 <= a < b < s.len() ==> s[a].0 != s[b].0
}

pub open spec fn nonneg_values(s: Pairs) -> bool {
    forall|a: int| 0 <= a < s.len() ==> s[a].1 >= 0
}

/// Adds `v` under `k`: summed into the existing pair, or appended as a new one.
pub open spec fn add_pair(s: Pairs, k: Seq<char>, v: int) -> Pairs {
    let j = find_key(s, k);
    if j >= 0 {
        s.update(j, (k, s[j].1 + v))
    } else {
        s.push((k, v))
    }
}

/// Adds every pair of `b`, first to last, into `a`.
pub open spec fn merge_pairs(a: Pairs, b: Pairs) -> Pairs
    decreases b.len(),
{
    if b.len() == 0 {
        a
    } else {
        add_pair(merge_pairs(a, b.drop_last()), b.last().0, b.last().1)
    }
}

/// Sum of all counts.
pub open spec fn total(s: Pairs) -> int
    decreases s.len(),
{
    if s.len() == 0 {
        0
    } else {
        total(s.drop_last()) + s.last().1
    }
}

/// The count a map holds under `k`, zero where it holds none.
pub open spec fn count_of(m: Map<Seq<char>, int>, k: Seq<char>) -> int {
    if m.contains_key(k) {
        m[k]
    } else {
        0
    }
}

pub open spec fn add_to_map(m: Map<Seq<char>, int>, k: Seq<char>, v: int) -> Map<Seq<char>, int> {
    m.insert(k, count_of(m, k) + v)
}

/// The mapping a contribution list stands for, summing the counts of repeated keys.
pub open spec fn to_map(s: Pairs) -> Map<Seq<char>, int>
    decreases s.len(),
{
    if s.len() == 0 {
        Map::empty()
    } else {
        add_to_map(to_map(s.drop_last()), s.last().0, s.last().1)
    }
}

/// Merge of two mappings: every key of either, with the counts of both summed.
pub open spec fn merge_maps(a: Map<Seq<char>, int>, b: Map<Seq<char>, int>) -> Map<
    Seq<char>,
    int,
> {
    Map::new(
        |k: Seq<char>| a.contains_key(k) || b.contains_key(k),
        |k: Seq<char>| count_of(a, k) + count_of(b, k),
    )
}

pub proof fn lemma_find_key(s: Pairs, k: Seq<char>)
    ensures
        -1 <= find_key(s, k) < s.len(),
        find_key(s, k) >= 0 ==> s[find_key(s, k)].0 == k,
        find_key(s, k) < 0 ==> forall|a: int| 0 <= a < s.len() ==> s[a].0 != k,
    decreases s.len(),
{
    if s.len() > 0 {
        lemma_find_key(s.drop_last(), k);
        if find_key(s, k) < 0 {
            assert forall|a: int| 0 <= a < s.len() implies s[a].0 != k by {
                if a < s.len() - 1 {
                    assert(s.drop_last()[a] == s[a]);
                }
            }
        }
    }
}

proof fn lemma_total_update(s: Pairs, j: int, x: (Seq<char>, int))
    requires
        0 <= j < s.len(),
    ensures
        total(s.update(j, x)) == total(s) - s[j].1 + x.1,
    decreases s.len(),
{
    if j < s.len() - 1 {
        assert(s.update(j, x).drop_last() =~= s.drop_last().update(j, x));
        lemma_total_update(s.drop_last(), j, x);
    } else {
        assert(s.update(j, x).drop_last() =~= s.drop_last());
    }
}

pub proof fn lemma_add_pair(s: Pairs, k: Seq<char>, v: int)
    requires
        unique_keys(s),
    ensures
        unique_keys(add_pair(s, k, v)),
        total(add_pair(s, k, v)) == total(s) + v,
        to_map(add_pair(s, k, v)) == add_to_map(to_map(s), k, v),
        nonneg_values(s) && v >= 0 ==> nonneg_values(add_pair(s, k, v)),
{
    lemma_find_key(s, k);
    let j = find_key(s, k);
    if j >= 0 {
        lemma_total_update(s, j, (k, s[j].1 + v));
        lemma_to_map_update(s, j, v);
    } else {
        assert(add_pair(s, k, v).drop_last() =~= s);
    }
}

proof fn lemma_to_map_unique(s: Pairs)
    requires
        unique_keys(s),
    ensures
        forall|a: int| 0 <= a < s.len() ==> #[trigger] to_map(s).contains_key(s[a].0) && to_map(s)[s[a].0] == s[a].1,
        forall|k: Seq<char>| #[trigger] to_map(s).contains_key(k) ==> find_key(s, k) >= 0,
    decreases s.len(),
{
    if s.len() > 0 {
        lemma_to_map_unique(s.drop_last());
        lemma_find_key(s.drop_last(), s.last().0);
        assert forall|a: int| 0 <= a < s.len() implies #[trigger] to_map(s).contains_key(s[a].0)
            && to_map(s)[s[a].0] == s[a].1 by {
            if a < s.len() - 1 {
                assert(s.drop_last()[a] == s[a]);
                assert(to_map(s.drop_last()).contains_key(s.drop_last()[a].0));
                assert(s[a].0 != s.last().0);
            } else {
                if to_map(s.drop_last()).contains_key(s[a].0) {
                    let j = find_key(s.drop_last(), s[a].0);
                    assert(s.drop_last()[j] == s[j]);
                }
                assert(!to_map(s.drop_last()).contains_key(s.last().0));
            }
        }
        assert forall|k: Seq<char>| #[trigger] to_map(s).contains_key(k) implies find_key(s, k) >= 0 by {
            if k != s.last().0 {
                assert(to_map(s.drop_last()).contains_key(k));
            }
        }
    }
}

proof fn lemma_to_map_update(s: Pairs, j: int, v: int)
    requires
        unique_keys(s),
        0 <= j < s.len(),
    ensures
        to_map(s.update(j, (s[j].0, s[j].1 + v))) == add_to_map(to_map(s), s[j].0, v),
    decreases s.len(),
{
    let t = s.update(j, (s[j].0, s[j].1 + v));
    if j < s.len() - 1 {
        assert(t.drop_last() =~= s.drop_last().update(j, (s[j].0, s[j].1 + v)));
        lemma_to_map_update(s.drop_last(), j, v);
        assert(to_map(t) =~= add_to_map(to_map(s), s[j].0, v));
    } else {
        assert(t.drop_last() =~= s.drop_last());
        lemma_to_map_unique(s.drop_last());
        assert(!to_map(s.drop_last()).contains_key(s[j].0)) by {
            if to_map(s.drop_last()).contains_key(s[j].0) {
                lemma_find_key(s.drop_last(), s[j].0);
            }
        }
        assert(to_map(t) =~= add_to_map(to_map(s), s[j].0, v));
    }
}

pub proof fn lemma_merge_pairs(a: Pairs, b: Pairs)
    requires
        unique_keys(a),
    ensures
        unique_keys(merge_pairs(a, b)),
        total(merge_pairs(a, b)) == total(a) + total(b),
        to_map(merge_pairs(a, b)) == merge_maps(to_map(a), to_map(b)),
        nonneg_values(a) && nonneg_values(b) ==> nonneg_values(merge_pairs(a, b)),
    decreases b.len(),
{
    if b.len() == 0 {
        assert(merge_maps(to_map(a), to_map(b)) =~= to_map(a));
    } else {
        let rest = merge_pairs(a, b.drop_last());
        lemma_merge_pairs(a, b.drop_last());
        lemma_add_pair(rest, b.last().0, b.last().1);
        assert(to_map(merge_pairs(a, b)) =~= merge_maps(to_map(a), to_map(b)));
    }
}

pub proof fn lemma_value_le_total(s: Pairs, a: int)
    requires
        nonneg_values(s),
        0 <= a < s.len(),
    ensures
        0 <= s[a].1 <= total(s),
        0 <= total(s),
    decreases s.len(),
{
    if a < s.len() - 1 {
        lemma_value_le_total(s.drop_last(), a);
    }
    lemma_total_nonneg(s.drop_last());
}

pub proof fn lemma_total_nonneg(s: Pairs)
    requires
        nonneg_values(s),
    ensures
        total(s) >= 0,
    decreases s.len(),
{
    if s.len() > 0 {
        lemma_total_nonneg(s.drop_last());
    }
}

/// Merging mappings whose keys are disjoint gives their union, each count unchanged.
pub proof fn lemma_merge_disjoint(a: Map<Seq<char>, int>, b: Map<Seq<char>, int>)
    requires
        a.dom().disjoint(b.dom()),
    ensures
        merge_maps(a, b) == a.union_prefer_right(b),
{
    assert(merge_maps(a, b) =~= a.union_prefer_right(b));
}

/// Merging mappings that share a key gives that key the sum of both counts.
pub proof fn lemma_merge_overlap(a: Map<Seq<char>, int>, b: Map<Seq<char>, int>, k: Seq<char>)
    requires
        a.contains_key(k),
        b.contains_key(k),
    ensures
        merge_maps(a, b).contains_key(k),
        merge_maps(a, b)[k] == a[k] + b[k],
{
}

/// The order of two merged mappings does not matter.
pub proof fn lemma_merge_commutative(a: Map<Seq<char>, int>, b: Map<Seq<char>, int>)
    ensures
        merge_maps(a, b) == merge_maps(b, a),
{
    assert(merge_maps(a, b) =~= merge_maps(b, a));
}

/// The grouping of three merged mappings does not matter.
pub proof fn lemma_merge_associative(
    a: Map<Seq<char>, int>,
    b: Map<Seq<char>, int>,
    c: Map<Seq<char>, int>,
)
    ensures
        merge_maps(merge_maps(a, b), c) == merge_maps(a, merge_maps(b, c)),
{
    assert(merge_maps(merge_maps(a, b), c) =~= merge_maps(a, merge_maps(b, c)));
}

proof fn lemma_find_unique(s: Pairs, k: Seq<char>, j: int)
    requires
        unique_keys(s),
        0 <= j < s.len(),
        s[j].0 == k,
    ensures
        find_key(s, k) == j,
{
    lemma_find_key(s, k);
}

/// Byte counts keyed by contribution path, each key held once.
pub struct Contributors {
    entries: Vec<(String, u64)>,
}

impl View for Contributors {
    type V = Pairs;

    closed spec fn view(&self) -> Pairs {
        self.entries@.map_values(|p: (String, u64)| (p.0@, p.1 as int))
    }
}

impl Contributors {
    /// Keys are unique, counts are non-negative and their sum fits in a `u64`.
    pub open spec fn wf(&self) -> bool {
        &&& unique_keys(self@)
        &&& nonneg_values(self@)
        &&& total(self@) <= u64::MAX
    }

    /// The mapping from key to byte count.
    pub open spec fn as_map(&self) -> Map<Seq<char>, int> {
        to_map(self@)
    }

    pub fn new() -> (r: Contributors)
        ensures
            r@ == Seq::<(Seq<char>, int)>::empty(),
            r.wf(),
    {
        let r = Contributors { entries: Vec::new() };
        assert(r@ =~= Seq::<(Seq<char>, int)>::empty());
        r
    }

    /// Adds `v` bytes under `key`, summing with the count already there.
    pub fn add(&mut self, key: String, v: u64)
        requires
            old(self).wf(),
            total(old(self)@) + v <= u64::MAX,
        ensures
            final(self)@ == add_pair(old(self)@, key@, v as int),
            final(self).wf(),
    {
        proof {
            lemma_add_pair(self@, key@, v as int);
        }
        let n = self.entries.len();
        let mut j: usize = 0;
        while j < n
            invariant
                n == self.entries.len(),
                self.entries@ == old(self).entries@,
                self.wf(),
                j <= n,
                forall|a: int| 0 <= a < j ==> self@[a].0 != key@,
                total(self@) + v <= u64::MAX,
            decreases n - j,
        {
            assert(self@[j as int].0 == self.entries[j as int].0@);
            if self.entries[j].0 == key {
                proof {
                    lemma_find_unique(self@, key@, j as int);
                    lemma_value_le_total(self@, j as int);
                }
                let old_count = self.entries[j].1;
                self.entries[j].1 = old_count + v;
                assert(self@ =~= add_pair(old(self)@, key@, v as int));
                proof {
                    lemma_add_pair(old(self)@, key@, v as int);
                }
                return;
            }
            j = j + 1;
        }
        proof {
            lemma_find_key(self@, key@);
        }
        self.entries.push((key, v));
        assert(self@ =~= add_pair(old(self)@, key@, v as int));
    }

    /// Adds every count of `other` into `self`, summing on keys that both hold.
    pub fn merge(&mut self, other: Contributors)
        requires
            old(self).wf(),
            other.wf(),
            total(old(self)@) + total(other@) <= u64::MAX,
        ensures
            final(self)@ == merge_pairs(old(self)@, other@),
            final(self).as_map() == merge_maps(old(self).as_map(), other.as_map()),
            total(final(self)@) == total(old(self)@) + total(other@),
            final(self).wf(),
    {
        proof {
            lemma_merge_pairs(self@, other@);
        }
        let n = other.entries.len();
        let mut j: usize = 0;
        while j < n
            invariant
                n == other.entries.len(),
                other.wf(),
                old(self).wf(),
                total(old(self)@) + total(other@) <= u64::MAX,
                j <= n,
                self.wf(),
                self@ == merge_pairs(old(self)@, other@.subrange(0, j as int)),
            decreases n - j,
        {
            proof {
                lemma_merge_pairs(old(self)@, other@.subrange(0, j as int));
                lemma_merge_pairs(old(self)@, other@.subrange(0, j + 1));
                assert(other@.subrange(0, j + 1).drop_last() =~= other@.subrange(0, j as int));
                lemma_total_prefix(other@, j + 1);
                lemma_total_prefix_le(other@, j + 1);
            }
            let key = other.entries[j].0.clone();
            let v = other.entries[j].1;
            self.add(key, v);
            j = j + 1;
        }
        assert(other@.subrange(0, n as int) =~= other@);
    }

    /// Sum of all counts.
    pub fn total(&self) -> (r: u64)
        requires
            self.wf(),
        ensures
            r == total(self@),
    {
        let n = self.entries.len();
        let mut sum: u64 = 0;
        let mut j: usize = 0;
        while j < n
            invariant
                n == self.entries.len(),
                self.wf(),
                j <= n,
                sum == total(self@.subrange(0, j as int)),
            decreases n - j,
        {
            proof {
                assert(self@.subrange(0, j + 1).drop_last() =~= self@.subrange(0, j as int));
                lemma_total_prefix(self@, j + 1);
                lemma_total_prefix_le(self@, j + 1);
            }
            sum = sum + self.entries[j].1;
            j = j + 1;
        }
        assert(self@.subrange(0, n as int) =~= self@);
        sum
    }

    /// The count held under `key`, if any.
    pub fn get(&self, key: &str) -> (r: Option<u64>)
        requires
            self.wf(),
        ensures
            r is Some <==> self.as_map().contains_key(key@),
            r matches Some(v) ==> self.as_map()[key@] == v,
    {
        let wanted = key.to_owned();
        let n = self.entries.len();
        let mut j: usize = 0;
        while j < n
            invariant
                n == self.entries.len(),
                self.wf(),
                j <= n,
                forall|a: int| 0 <= a < j ==> self@[a].0 != key@,
                wanted@ == key@,
            decreases n - j,
        {
            assert(self@[j as int].0 == self.entries[j as int].0@);
            proof {
                lemma_to_map_unique(self@);
            }
            if self.entries[j].0 == wanted {
                assert(self.as_map().contains_key(self@[j as int].0));
                return Some(self.entries[j].1);
            }
            j = j + 1;
        }
        proof {
            lemma_to_map_unique(self@);
            if self.as_map().contains_key(key@) {
                lemma_find_key(self@, key@);
            }
        }
        None
    }

    /// Number of distinct keys.
    pub fn len(&self) -> (r: usize)
        ensures
            r == self@.len(),
    {
        self.entries.len()
    }

    /// The key and count at position `i`, in insertion order.
    pub fn entry_at(&self, i: usize) -> (r: (String, u64))
        requires
            i < self@.len(),
        ensures
            r.0@ == self@[i as int].0,
            r.1 == self@[i as int].1,
    {
        (self.entries[i].0.clone(), self.entries[i].1)
    }
}

proof fn lemma_total_prefix_le(s: Pairs, j: int)
    requires
        0 <= j <= s.len(),
        nonneg_values(s),
    ensures
        total(s.subrange(0, j)) <= total(s),
    decreases s.len(),
{
    if j < s.len() {
        assert(s.drop_last().subrange(0, j) =~= s.subrange(0, j));
        lemma_total_prefix_le(s.drop_last(), j);
    } else {
        assert(s.subrange(0, j) =~= s);
    }
}

proof fn lemma_total_prefix(s: Pairs, j: int)
    requires
        0 < j <= s.len(),
    ensures
        total(s.subrange(0, j)) == total(s.subrange(0, j - 1)) + s[j - 1].1,
{
    assert(s.subrange(0, j).drop_last() =~= s.subrange(0, j - 1));
}

} // verus!
