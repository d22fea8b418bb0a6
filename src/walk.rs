use vstd::prelude::*;
use vstd::string::StringExecFns;

use crate::contributors::{
    Contributors, Pairs, add_pair, lemma_merge_pairs, merge_pairs, nonneg_values, total,
    unique_keys,
};
use crate::location::{
    build_key, decl_name, key_of, resolve_location, resolve_name, resolved_dir, resolved_file,
};
use crate::model::{CompUnit, DebugTag};
use crate::size::{MappedSize, classify, entry_mapped_size, mapped_size};

verus! {

/// Why an analysis pass failed.
#[derive(Clone, Debug)]
pub enum AnalysisError {
    /// An index of the unit points at no entry, a child does not come after its parent, or
    /// an address range ends before it begins.
    MalformedUnit,
    /// A function or inlined subroutine has no mapped code or no name.
    MissingMappingData,
    /// A function's mapped span is negative or does not fit in a `u64`.
    SizeOutOfRange,
    /// The children of a function add up to more bytes than the function itself.
    ChildrenExceedSize { name: String, dir: String, file: String },
    /// The byte counts of the whole analysis add up to more than a `u64` holds.
    TotalOverflow,
}

/// The value of an [`AnalysisError`], with its strings as character sequences.
pub enum ErrorView {
    MalformedUnit,
    MissingMappingData,
    SizeOutOfRange,
    ChildrenExceedSize { name: Seq<char>, dir: Seq<char>, file: Seq<char> },
    TotalOverflow,
}

impl View for AnalysisError {
    type V = ErrorView;

    open spec fn view(&self) -> ErrorView {
        match self {
            AnalysisError::MalformedUnit => ErrorView::MalformedUnit,
            AnalysisError::MissingMappingData => ErrorView::MissingMappingData,
            AnalysisError::SizeOutOfRange => ErrorView::SizeOutOfRange,
            AnalysisError::ChildrenExceedSize { name, dir, file } => ErrorView::ChildrenExceedSize {
                name: name@,
                dir: dir@,
                file: file@,
            },
            AnalysisError::TotalOverflow => ErrorView::TotalOverflow,
        }
    }
}

/// Options of an analysis pass.
///
/// Keys are built as `[prefix;][unit;]@source_files;<dir>;<file>;@function: <name>`:
/// `prefix`, where given, labels every key; `compilation_units` puts the unit's name
/// (leading `/` removed) in front of the keys of that unit; `split_paths` makes each
/// directory component a segment of its own, where otherwise the directory is one segment.
#[derive(Clone, Debug, Default)]
pub struct DwarfAnalysisOpts {
    pub prefix: Option<String>,
    pub compilation_units: bool,
    pub split_paths: bool,
}

pub open spec fn size_bearing(t: DebugTag) -> bool {
    t == DebugTag::Subprogram || t == DebugTag::InlinedSubroutine
}

pub open spec fn entry_name(u: CompUnit, i: int) -> Seq<char> {
    match decl_name(u, i) {
        Some(n) => n,
        None => Seq::empty(),
    }
}

/// The key under which entry `i` contributes.
pub open spec fn entry_key(u: CompUnit, lead: Seq<char>, split: bool, i: int) -> Seq<char> {
    key_of(lead, split, resolved_dir(u, i), resolved_file(u, i), entry_name(u, i))
}

pub open spec fn exceed_error(u: CompUnit, i: int) -> ErrorView {
    ErrorView::ChildrenExceedSize {
        name: entry_name(u, i),
        dir: resolved_dir(u, i),
        file: resolved_file(u, i),
    }
}

/// What the subtree at entry `i` contributes: nothing for an entry that is not a function
/// or inlined subroutine; else its children's contributions merged, with its own remainder
/// (its mapped size less all its children's bytes) added under its own key.
pub open spec fn subtree(u: CompUnit, lead: Seq<char>, split: bool, i: int) -> Result<
    Pairs,
    ErrorView,
>
    decreases u.entries@.len() - i, 1int, 0int,
{
    if !(0 <= i < u.entries@.len()) {
        Err(ErrorView::MalformedUnit)
    } else {
        let e = u.entries@[i];
        if !size_bearing(e.tag) {
            Ok(Seq::empty())
        } else {
            match classify(mapped_size(e)) {
                MappedSize::NotApplicable => Err(ErrorView::MissingMappingData),
                MappedSize::OutOfRange => Err(ErrorView::SizeOutOfRange),
                MappedSize::Bytes(s) => if decl_name(u, i) is None {
                    Err(ErrorView::MissingMappingData)
                } else {
                    match children_fold(u, lead, split, i, s as int, e.children@.len() as int) {
                        Err(x) => Err(x),
                        Ok(acc) => Ok(
                            add_pair(acc, entry_key(u, lead, split, i), s - total(acc)),
                        ),
                    }
                },
            }
        }
    }
}

/// The first `k` children of entry `i` merged in order; fails as soon as they add up to
/// more than `s` bytes.
pub open spec fn children_fold(
    u: CompUnit,
    lead: Seq<char>,
    split: bool,
    i: int,
    s: int,
    k: int,
) -> Result<Pairs, ErrorView>
    decreases u.entries@.len() - i, 0int, k,
{
    if k <= 0 || !(0 <= i < u.entries@.len()) || k > u.entries@[i].children@.len() {
        Ok(Seq::empty())
    } else {
        match children_fold(u, lead, split, i, s, k - 1) {
            Err(x) => Err(x),
            Ok(acc) => {
                let c = u.entries@[i].children@[k - 1] as int;
                if c <= i || c >= u.entries@.len() {
                    Err(ErrorView::MalformedUnit)
                } else {
                    match subtree(u, lead, split, c) {
                        Err(x) => Err(x),
                        Ok(m) => if total(acc) + total(m) > s {
                            Err(exceed_error(u, i))
                        } else {
                            Ok(merge_pairs(acc, m))
                        },
                    }
                }
            },
        }
    }
}

/// Merge of two partial results, failing when the sum would not fit in a `u64`.
pub open spec fn merge_checked(acc: Pairs, m: Pairs) -> Result<Pairs, ErrorView> {
    if total(acc) + total(m) > u64::MAX {
        Err(ErrorView::TotalOverflow)
    } else {
        Ok(merge_pairs(acc, m))
    }
}

/// What entry `i` contributes at the top of a unit: the walk of its subtree where it is a
/// function or inlined subroutine; else the contributions found below it, merged in order.
pub open spec fn scan(u: CompUnit, lead: Seq<char>, split: bool, i: int) -> Result<
    Pairs,
    ErrorView,
>
    decreases u.entries@.len() - i, 1int, 0int,
{
    if !(0 <= i < u.entries@.len()) {
        Err(ErrorView::MalformedUnit)
    } else if size_bearing(u.entries@[i].tag) {
        subtree(u, lead, split, i)
    } else {
        scan_fold(u, lead, split, i, u.entries@[i].children@.len() as int)
    }
}

pub open spec fn scan_fold(u: CompUnit, lead: Seq<char>, split: bool, i: int, k: int) -> Result<
    Pairs,
    ErrorView,
>
    decreases u.entries@.len() - i, 0int, k,
{
    if k <= 0 || !(0 <= i < u.entries@.len()) || k > u.entries@[i].children@.len() {
        Ok(Seq::empty())
    } else {
        match scan_fold(u, lead, split, i, k - 1) {
            Err(x) => Err(x),
            Ok(acc) => {
                let c = u.entries@[i].children@[k - 1] as int;
                if c <= i || c >= u.entries@.len() {
                    Err(ErrorView::MalformedUnit)
                } else {
                    match scan(u, lead, split, c) {
                        Err(x) => Err(x),
                        Ok(m) => merge_checked(acc, m),
                    }
                }
            },
        }
    }
}

/// The contributions of the first `k` roots of a unit, merged in order.
pub open spec fn roots_fold(u: CompUnit, lead: Seq<char>, split: bool, k: int) -> Result<
    Pairs,
    ErrorView,
>
    decreases k,
{
    if k <= 0 || k > u.roots@.len() {
        Ok(Seq::empty())
    } else {
        match roots_fold(u, lead, split, k - 1) {
            Err(x) => Err(x),
            Ok(acc) => match scan(u, lead, split, u.roots@[k - 1] as int) {
                Err(x) => Err(x),
                Ok(m) => merge_checked(acc, m),
            },
        }
    }
}

pub open spec fn unit_label(u: CompUnit) -> Seq<char> {
    match u.name {
        Some(n) => crate::location::trim_slashes(n@),
        None => "<unknown compilation unit>"@,
    }
}

/// What goes in front of every key of unit `u`.
pub open spec fn lead_of(opts: DwarfAnalysisOpts, u: CompUnit) -> Seq<char> {
    (match opts.prefix {
        Some(p) => p@ + ";"@,
        None => Seq::empty(),
    }) + (if opts.compilation_units {
        unit_label(u) + ";"@
    } else {
        Seq::empty()
    })
}

/// The contributions of unit `u`.
pub open spec fn unit_result(u: CompUnit, opts: DwarfAnalysisOpts) -> Result<Pairs, ErrorView> {
    if !u.wf() {
        Err(ErrorView::MalformedUnit)
    } else {
        roots_fold(u, lead_of(opts, u), opts.split_paths, u.roots@.len() as int)
    }
}

/// The contributions of the first `k` units, merged in order.
pub open spec fn analysis(units: Seq<CompUnit>, opts: DwarfAnalysisOpts, k: int) -> Result<
    Pairs,
    ErrorView,
>
    decreases k,
{
    if k <= 0 || k > units.len() {
        Ok(Seq::empty())
    } else {
        match analysis(units, opts, k - 1) {
            Err(x) => Err(x),
            Ok(acc) => match unit_result(units[k - 1], opts) {
                Err(x) => Err(x),
                Ok(m) => merge_checked(acc, m),
            },
        }
    }
}

pub open spec fn valid_pairs(s: Pairs) -> bool {
    unique_keys(s) && nonneg_values(s) && total(s) <= u64::MAX
}

/// The result of a walk matches `spec`: the same contributions, or the same error.
pub open spec fn matches_result(r: Result<Contributors, AnalysisError>, spec: Result<Pairs, ErrorView>) -> bool {
    match r {
        Ok(c) => spec == Ok::<Pairs, ErrorView>(c@) && c.wf(),
        Err(e) => spec == Err::<Pairs, ErrorView>(e@),
    }
}

proof fn lemma_children_err(
    u: CompUnit,
    lead: Seq<char>,
    split: bool,
    i: int,
    s: int,
    k: int,
    n: int,
)
    requires
        0 < k <= n <= u.entries@[i].children@.len(),
        0 <= i < u.entries@.len(),
        children_fold(u, lead, split, i, s, k) is Err,
    ensures
        children_fold(u, lead, split, i, s, n) == children_fold(u, lead, split, i, s, k),
    decreases n - k,
{
    if n > k {
        lemma_children_err(u, lead, split, i, s, k, n - 1);
    }
}

/// Walks the subtree at entry `i`.
pub fn analyze_die(u: &CompUnit, lead: &str, split: bool, i: usize) -> (r: Result<
    Contributors,
    AnalysisError,
>)
    requires
        u.wf(),
        i < u.entries@.len(),
    ensures
        matches_result(r, subtree(*u, lead@, split, i as int)),
    decreases u.entries@.len() - i,
{
    let e = &u.entries[i];
    if !matches!(e.tag, DebugTag::Subprogram | DebugTag::InlinedSubroutine) {
        let c = Contributors::new();
        return Ok(c);
    }
    assert(crate::model::entry_wf(u.entries@[i as int], i as int, u.entries@.len() as int));
    let size = match entry_mapped_size(e) {
        MappedSize::NotApplicable => return Err(AnalysisError::MissingMappingData),
        MappedSize::OutOfRange => return Err(AnalysisError::SizeOutOfRange),
        MappedSize::Bytes(s) => s,
    };
    let (dir, file) = resolve_location(u, i);
    let name = match resolve_name(u, i) {
        Some(n) => n,
        None => return Err(AnalysisError::MissingMappingData),
    };
    let mut result = Contributors::new();
    let mut children_total: u64 = 0;
    let nc = e.children.len();
    let mut k: usize = 0;
    while k < nc
        invariant
            u.wf(),
            i < u.entries@.len(),
            e == u.entries@[i as int],
            size_bearing(e.tag),
            classify(mapped_size(*e)) == MappedSize::Bytes(size),
            decl_name(*u, i as int) == Some(name@),
            dir@ == resolved_dir(*u, i as int),
            file@ == resolved_file(*u, i as int),
            nc == e.children@.len(),
            k <= nc,
            result.wf(),
            children_total == total(result@),
            children_total <= size,
            children_fold(*u, lead@, split, i as int, size as int, k as int) == Ok::<
                Pairs,
                ErrorView,
            >(result@),
        decreases nc - k,
    {
        let c = e.children[k];
        assert(i < c < u.entries@.len());
        let child = analyze_die(u, lead, split, c);
        match child {
            Err(x) => {
                proof {
                    lemma_children_err(*u, lead@, split, i as int, size as int, k + 1, nc as int);
                }
                return Err(x);
            },
            Ok(m) => {
                let t = m.total();
                if t > size - children_total {
                    proof {
                        lemma_children_err(*u, lead@, split, i as int, size as int, k + 1, nc as int);
                    }
                    return Err(AnalysisError::ChildrenExceedSize { name, dir, file });
                }
                proof {
                    lemma_merge_pairs(result@, m@);
                }
                result.merge(m);
                children_total = children_total + t;
            },
        }
        k = k + 1;
    }
    let key = build_key(lead, split, dir.as_str(), file.as_str(), name.as_str());
    result.add(key, size - children_total);
    Ok(result)
}

proof fn lemma_scan_err(u: CompUnit, lead: Seq<char>, split: bool, i: int, k: int, n: int)
    requires
        0 < k <= n <= u.entries@[i].children@.len(),
        0 <= i < u.entries@.len(),
        scan_fold(u, lead, split, i, k) is Err,
    ensures
        scan_fold(u, lead, split, i, n) == scan_fold(u, lead, split, i, k),
    decreases n - k,
{
    if n > k {
        lemma_scan_err(u, lead, split, i, k, n - 1);
    }
}

proof fn lemma_roots_err(u: CompUnit, lead: Seq<char>, split: bool, k: int, n: int)
    requires
        0 < k <= n <= u.roots@.len(),
        roots_fold(u, lead, split, k) is Err,
    ensures
        roots_fold(u, lead, split, n) == roots_fold(u, lead, split, k),
    decreases n - k,
{
    if n > k {
        lemma_roots_err(u, lead, split, k, n - 1);
    }
}

proof fn lemma_analysis_err(units: Seq<CompUnit>, opts: DwarfAnalysisOpts, k: int, n: int)
    requires
        0 < k <= n <= units.len(),
        analysis(units, opts, k) is Err,
    ensures
        analysis(units, opts, n) == analysis(units, opts, k),
    decreases n - k,
{
    if n > k {
        lemma_analysis_err(units, opts, k, n - 1);
    }
}

/// Merges `m` into `acc` where the sum of both fits in a `u64`.
fn merge_or_overflow(acc: &mut Contributors, m: Contributors) -> (ok: bool)
    requires
        old(acc).wf(),
        m.wf(),
    ensures
        ok == (merge_checked(old(acc)@, m@) is Ok),
        ok ==> Ok::<Pairs, ErrorView>(final(acc)@) == merge_checked(old(acc)@, m@) && final(acc).wf(),
{
    let t = m.total();
    let a = acc.total();
    if t > u64::MAX - a {
        return false;
    }
    acc.merge(m);
    true
}

/// What entry `i` contributes at the top of a unit: the walk of its subtree for a function
/// or inlined subroutine, else what is found below it.
pub fn scan_entry(u: &CompUnit, lead: &str, split: bool, i: usize) -> (r: Result<
    Contributors,
    AnalysisError,
>)
    requires
        u.wf(),
        i < u.entries@.len(),
    ensures
        matches_result(r, scan(*u, lead@, split, i as int)),
    decreases u.entries@.len() - i, 1int,
{
    let e = &u.entries[i];
    if matches!(e.tag, DebugTag::Subprogram | DebugTag::InlinedSubroutine) {
        return analyze_die(u, lead, split, i);
    }
    assert(crate::model::entry_wf(u.entries@[i as int], i as int, u.entries@.len() as int));
    let mut result = Contributors::new();
    let nc = e.children.len();
    let mut k: usize = 0;
    while k < nc
        invariant
            u.wf(),
            i < u.entries@.len(),
            e == u.entries@[i as int],
            !size_bearing(e.tag),
            nc == e.children@.len(),
            k <= nc,
            result.wf(),
            scan_fold(*u, lead@, split, i as int, k as int) == Ok::<Pairs, ErrorView>(result@),
        decreases nc - k,
    {
        let c = e.children[k];
        assert(i < c < u.entries@.len());
        match scan_entry(u, lead, split, c) {
            Err(x) => {
                proof {
                    lemma_scan_err(*u, lead@, split, i as int, k + 1, nc as int);
                }
                return Err(x);
            },
            Ok(m) => {
                if !merge_or_overflow(&mut result, m) {
                    proof {
                        lemma_scan_err(*u, lead@, split, i as int, k + 1, nc as int);
                    }
                    return Err(AnalysisError::TotalOverflow);
                }
            },
        }
        k = k + 1;
    }
    Ok(result)
}

/// What goes in front of every key of unit `u`.
pub fn build_lead(opts: &DwarfAnalysisOpts, u: &CompUnit) -> (r: String)
    ensures
        r@ == lead_of(*opts, *u),
{
    let mut r = String::new();
    if let Some(p) = &opts.prefix {
        r.append(p.as_str());
        r.append(";");
    }
    if opts.compilation_units {
        let label = match &u.name {
            Some(n) => crate::location::trim_leading_slashes(n.as_str()),
            None => String::from_str("<unknown compilation unit>"),
        };
        r.append(label.as_str());
        r.append(";");
    }
    assert(r@ =~= lead_of(*opts, *u));
    r
}

/// The contributions of one compilation unit.
pub fn analyze_unit(u: &CompUnit, opts: &DwarfAnalysisOpts) -> (r: Result<
    Contributors,
    AnalysisError,
>)
    ensures
        matches_result(r, unit_result(*u, *opts)),
{
    if !u.check() {
        return Err(AnalysisError::MalformedUnit);
    }
    let lead = build_lead(opts, u);
    let split = opts.split_paths;
    let mut result = Contributors::new();
    let nr = u.roots.len();
    let mut k: usize = 0;
    while k < nr
        invariant
            u.wf(),
            lead@ == lead_of(*opts, *u),
            split == opts.split_paths,
            nr == u.roots@.len(),
            k <= nr,
            result.wf(),
            roots_fold(*u, lead@, split, k as int) == Ok::<Pairs, ErrorView>(result@),
        decreases nr - k,
    {
        let root = u.roots[k];
        match scan_entry(u, lead.as_str(), split, root) {
            Err(x) => {
                proof {
                    lemma_roots_err(*u, lead@, split, k + 1, nr as int);
                }
                return Err(x);
            },
            Ok(m) => {
                if !merge_or_overflow(&mut result, m) {
                    proof {
                        lemma_roots_err(*u, lead@, split, k + 1, nr as int);
                    }
                    return Err(AnalysisError::TotalOverflow);
                }
            },
        }
        k = k + 1;
    }
    Ok(result)
}

/// Attributes the mapped code of every unit to the source file and function it came from.
pub fn analyze(units: &Vec<CompUnit>, opts: &DwarfAnalysisOpts) -> (r: Result<
    Contributors,
    AnalysisError,
>)
    ensures
        matches_result(r, analysis(units@, *opts, units@.len() as int)),
{
    let mut result = Contributors::new();
    let n = units.len();
    let mut k: usize = 0;
    while k < n
        invariant
            n == units@.len(),
            k <= n,
            result.wf(),
            analysis(units@, *opts, k as int) == Ok::<Pairs, ErrorView>(result@),
        decreases n - k,
    {
        match analyze_unit(&units[k], opts) {
            Err(x) => {
                proof {
                    lemma_analysis_err(units@, *opts, k + 1, n as int);
                }
                return Err(x);
            },
            Ok(m) => {
                if !merge_or_overflow(&mut result, m) {
                    proof {
                        lemma_analysis_err(units@, *opts, k + 1, n as int);
                    }
                    return Err(AnalysisError::TotalOverflow);
                }
            },
        }
        k = k + 1;
    }
    Ok(result)
}

} // verus!
