use vstd::prelude::*;

use crate::contributors::{
    Pairs, add_pair, add_to_map, lemma_add_pair, lemma_merge_pairs, lemma_total_nonneg, to_map, total,
};
use crate::location::{decl_location, decl_name, file_entry};
use crate::model::CompUnit;
use crate::size::{classify, mapped_size};
use crate::walk::{
    DwarfAnalysisOpts, analysis, children_fold, entry_key, exceed_error, size_bearing, subtree,
    valid_pairs,
};

verus! {

/// Bytes of the subtrees of the first `k` children of entry `i`, counting a failed walk as
/// zero.
pub open spec fn children_sum(u: CompUnit, lead: Seq<char>, split: bool, i: int, k: int) -> int
    decreases k,
{
    if k <= 0 || !(0 <= i < u.entries@.len()) || k > u.entries@[i].children@.len() {
        0
    } else {
        children_sum(u, lead, split, i, k - 1) + match subtree(
            u,
            lead,
            split,
            u.entries@[i].children@[k - 1] as int,
        ) {
            Ok(m) => total(m),
            Err(_) => 0,
        }
    }
}

/// The bytes of entry `i` when it has a size that fits in a `u64`.
pub open spec fn own_size(u: CompUnit, i: int) -> int {
    mapped_size(u.entries@[i])->Some_0
}

proof fn lemma_subtree_valid(u: CompUnit, lead: Seq<char>, split: bool, i: int)
    requires
        u.wf(),
        0 <= i < u.entries@.len(),
        subtree(u, lead, split, i) is Ok,
    ensures
        valid_pairs(subtree(u, lead, split, i)->Ok_0),
        size_bearing(u.entries@[i].tag) ==> classify(mapped_size(u.entries@[i])) is Bytes && total(
            subtree(u, lead, split, i)->Ok_0,
        ) == own_size(u, i),
        !size_bearing(u.entries@[i].tag) ==> subtree(u, lead, split, i)->Ok_0 == Seq::<
            (Seq<char>, int),
        >::empty(),
    decreases u.entries@.len() - i, 1int, 0int,
{
    let e = u.entries@[i];
    if size_bearing(e.tag) {
        let s = classify(mapped_size(e))->Bytes_0;
        let nc = e.children@.len() as int;
        lemma_fold_valid(u, lead, split, i, s as int, nc);
        let acc = children_fold(u, lead, split, i, s as int, nc)->Ok_0;
        lemma_add_pair(acc, entry_key(u, lead, split, i), s - total(acc));
    } else {
        assert(valid_pairs(Seq::<(Seq<char>, int)>::empty()));
    }
}

proof fn lemma_fold_valid(u: CompUnit, lead: Seq<char>, split: bool, i: int, s: int, k: int)
    requires
        u.wf(),
        0 <= i < u.entries@.len(),
        0 <= k <= u.entries@[i].children@.len(),
        0 <= s <= u64::MAX,
        children_fold(u, lead, split, i, s, k) is Ok,
    ensures
        valid_pairs(children_fold(u, lead, split, i, s, k)->Ok_0),
        total(children_fold(u, lead, split, i, s, k)->Ok_0) == children_sum(u, lead, split, i, k),
        total(children_fold(u, lead, split, i, s, k)->Ok_0) <= s,
    decreases u.entries@.len() - i, 0int, k,
{
    if k == 0 {
        assert(valid_pairs(Seq::<(Seq<char>, int)>::empty()));
    } else {
        lemma_fold_valid(u, lead, split, i, s, k - 1);
        let acc = children_fold(u, lead, split, i, s, k - 1)->Ok_0;
        let c = u.entries@[i].children@[k - 1] as int;
        assert(crate::model::entry_wf(u.entries@[i], i, u.entries@.len() as int));
        lemma_subtree_valid(u, lead, split, c);
        let m = subtree(u, lead, split, c)->Ok_0;
        lemma_merge_pairs(acc, m);
    }
}

/// A function or inlined subroutine without children contributes exactly its mapped size,
/// under its own key and no other.
pub proof fn lemma_leaf_contribution(u: CompUnit, lead: Seq<char>, split: bool, i: int)
    requires
        u.wf(),
        0 <= i < u.entries@.len(),
        size_bearing(u.entries@[i].tag),
        u.entries@[i].children@.len() == 0,
        subtree(u, lead, split, i) is Ok,
    ensures
        to_map(subtree(u, lead, split, i)->Ok_0) == map![entry_key(u, lead, split, i) => own_size(u, i)],
{
    let r = subtree(u, lead, split, i)->Ok_0;
    let k = entry_key(u, lead, split, i);
    let s = own_size(u, i);
    assert(r == Seq::<(Seq<char>, int)>::empty().push((k, s)));
    assert(r.drop_last() =~= Seq::<(Seq<char>, int)>::empty());
    assert(to_map(Seq::<(Seq<char>, int)>::empty()) == Map::<Seq<char>, int>::empty());
    assert(to_map(r) == add_to_map(Map::<Seq<char>, int>::empty(), k, s));
    assert(to_map(r) =~= map![k => s]);
}

/// For a function or inlined subroutine, its own remainder plus all that its children
/// contribute equals its mapped size, and the remainder is never negative.
pub proof fn lemma_conservation(u: CompUnit, lead: Seq<char>, split: bool, i: int)
    requires
        u.wf(),
        0 <= i < u.entries@.len(),
        size_bearing(u.entries@[i].tag),
        subtree(u, lead, split, i) is Ok,
    ensures
        ({
            let nc = u.entries@[i].children@.len() as int;
            let s = own_size(u, i);
            let fold = children_fold(u, lead, split, i, s, nc);
            let own = s - children_sum(u, lead, split, i, nc);
            &&& fold is Ok
            &&& total(fold->Ok_0) == children_sum(u, lead, split, i, nc)
            &&& own >= 0
            &&& own + children_sum(u, lead, split, i, nc) == s
            &&& subtree(u, lead, split, i)->Ok_0 == add_pair(
                fold->Ok_0,
                entry_key(u, lead, split, i),
                own,
            )
            &&& total(subtree(u, lead, split, i)->Ok_0) == s
        }),
{
    lemma_subtree_valid(u, lead, split, i);
    let e = u.entries@[i];
    let s = classify(mapped_size(e))->Bytes_0;
    lemma_fold_valid(u, lead, split, i, s as int, e.children@.len() as int);
}

proof fn lemma_fold_exceed(u: CompUnit, lead: Seq<char>, split: bool, i: int, s: int, k: int)
    requires
        u.wf(),
        0 <= i < u.entries@.len(),
        0 <= k <= u.entries@[i].children@.len(),
        0 <= s <= u64::MAX,
        forall|j: int|
            0 <= j < k ==> subtree(u, lead, split, #[trigger] u.entries@[i].children@[j] as int) is Ok,
    ensures
        children_sum(u, lead, split, i, k) > s ==> children_fold(u, lead, split, i, s, k) == Err::<
            Pairs,
            crate::walk::ErrorView,
        >(exceed_error(u, i)),
        children_sum(u, lead, split, i, k) <= s ==> children_fold(u, lead, split, i, s, k) is Ok,
    decreases k,
{
    if k > 0 {
        lemma_fold_exceed(u, lead, split, i, s, k - 1);
        let c = u.entries@[i].children@[k - 1] as int;
        assert(subtree(u, lead, split, u.entries@[i].children@[k - 1] as int) is Ok);
        assert(crate::model::entry_wf(u.entries@[i], i, u.entries@.len() as int));
        lemma_subtree_valid(u, lead, split, c);
        lemma_total_nonneg(subtree(u, lead, split, c)->Ok_0);
        if children_sum(u, lead, split, i, k - 1) <= s {
            lemma_fold_valid(u, lead, split, i, s, k - 1);
        }
    }
}

/// When the children of a function or inlined subroutine, all walked without error, add up
/// to more bytes than its own mapped size, the walk fails and names that entry.
pub proof fn lemma_children_exceed(u: CompUnit, lead: Seq<char>, split: bool, i: int)
    requires
        u.wf(),
        0 <= i < u.entries@.len(),
        size_bearing(u.entries@[i].tag),
        classify(mapped_size(u.entries@[i])) is Bytes,
        decl_name(u, i) is Some,
        forall|j: int|
            0 <= j < u.entries@[i].children@.len() ==> subtree(
                u,
                lead,
                split,
                #[trigger] u.entries@[i].children@[j] as int,
            ) is Ok,
        children_sum(u, lead, split, i, u.entries@[i].children@.len() as int) > own_size(u, i),
    ensures
        subtree(u, lead, split, i) == Err::<Pairs, crate::walk::ErrorView>(exceed_error(u, i)),
{
    let s = classify(mapped_size(u.entries@[i]))->Bytes_0;
    lemma_fold_exceed(u, lead, split, i, s as int, u.entries@[i].children@.len() as int);
}

/// An entry that refers by abstract origin to a declaration is placed in that
/// declaration's file, and takes its name where it has none of its own.
pub proof fn lemma_origin_resolves(u: CompUnit, i: int, o: usize)
    requires
        u.wf(),
        0 <= i < u.entries@.len(),
        u.entries@[i].abstract_origin == Some(o),
        u.entries@[o as int].abstract_origin is None,
    ensures
        o < u.entries@.len(),
        decl_location(u, i) == match u.entries@[o as int].decl_file {
            Some(f) => file_entry(u, f),
            None => None,
        },
        u.entries@[i].name is None ==> decl_name(u, i) == match u.entries@[o as int].name {
            Some(n) => Some(n@),
            None => None::<Seq<char>>,
        },
{
    assert(crate::model::entry_wf(u.entries@[i], i, u.entries@.len() as int));
    assert(o != i);
    assert(u.entries@.len() >= 2);
    let n = u.entries@.len() as nat;
    assert(crate::location::origin_file(u, i, n) == crate::location::origin_file(
        u,
        o as int,
        (n - 1) as nat,
    ));
    assert(crate::location::origin_name(u, i, n) == crate::location::origin_name(
        u,
        o as int,
        (n - 1) as nat,
    ) || u.entries@[i].name is Some);
}

/// Analysis is a function of its input: the same units and options give the same
/// contributions, in the same order, or the same error.
pub proof fn lemma_analysis_deterministic(
    units1: Seq<CompUnit>,
    units2: Seq<CompUnit>,
    opts1: DwarfAnalysisOpts,
    opts2: DwarfAnalysisOpts,
)
    requires
        units1 == units2,
        opts1 == opts2,
    ensures
        analysis(units1, opts1, units1.len() as int) == analysis(units2, opts2, units2.len() as int),
{
}

} // verus!
