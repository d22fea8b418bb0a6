use vstd::prelude::*;

verus! {

/// The kind of a debug entry, as far as size attribution cares.
#[derive(Clone, Copy, Debug, PartialEq, Eq)]
pub enum DebugTag {
    Subprogram,
    InlinedSubroutine,
    CompilationUnit,
    Other,
}

/// How an address attribute is encoded.
#[derive(Clone, Copy, Debug, PartialEq, Eq)]
pub enum AttrValue {
    /// An absolute address.
    Addr(u64),
    /// An unsigned constant, which for a high address is a length.
    Udata(u64),
    /// Any other encoding.
    Other,
}

/// A half-open interval of code addresses.
#[derive(Clone, Copy, Debug, PartialEq, Eq)]
pub struct AddressRange {
    pub begin: u64,
    pub end: u64,
}

/// The value of an address-ranges attribute.
#[derive(Clone, Debug)]
pub enum RangesAttr {
    /// A reference into the range lists, already resolved to its ranges.
    List(Vec<AddressRange>),
    /// Any other encoding.
    Other,
}

/// A (directory, file name) pair from a line-number program's file table.
#[derive(Clone, Debug)]
pub struct SourceFile {
    pub dir: String,
    pub name: String,
}

/// One node of a compilation unit's debug-information tree.
#[derive(Clone, Debug)]
pub struct DebugEntry {
    pub tag: DebugTag,
    pub low_pc: Option<AttrValue>,
    pub high_pc: Option<AttrValue>,
    pub ranges: Option<RangesAttr>,
    pub name: Option<String>,
    /// Index into the unit's file table.
    pub decl_file: Option<u64>,
    /// Index, in the unit's entries, of the entry this one is an instance of.
    pub abstract_origin: Option<usize>,
    /// Indices, in the unit's entries, of the children, in order.
    pub children: Vec<usize>,
}

/// A compilation unit: its entries, stored by index, with the tree's roots.
#[derive(Clone, Debug)]
pub struct CompUnit {
    pub name: Option<String>,
    pub comp_dir: Option<String>,
    /// The line-number program's file table by file index; `None` where the index has no
    /// usable entry.
    pub files: Vec<Option<SourceFile>>,
    pub entries: Vec<DebugEntry>,
    pub roots: Vec<usize>,
}

pub open spec fn ranges_ordered(rs: Seq<AddressRange>) -> bool {
    forall|j: int| 0 <= j < rs.len() ==> rs[j].begin <= rs[j].end
}

pub open spec fn entry_wf(e: DebugEntry, i: int, n: int) -> bool {
    &&& forall|j: int| 0 <= j < e.children@.len() ==> i < #[trigger] e.children@[j] < n
    &&& e.abstract_origin matches Some(o) ==> o < n
    &&& e.ranges matches Some(RangesAttr::List(rs)) ==> ranges_ordered(rs@)
}

impl CompUnit {
    /// Every index points at an entry, each child comes after its parent (so the tree is
    /// acyclic), and every address range is ordered.
    pub open spec fn wf(&self) -> bool {
        &&& forall|i: int| 0 <= i < self.entries@.len() ==> entry_wf(
            #[trigger] self.entries@[i],
            i,
            self.entries@.len() as int,
        )
        &&& forall|j: int| 0 <= j < self.roots@.len() ==> #[trigger] self.roots@[j] < self.entries@.len()
    }

    /// Tells whether the unit is well formed.
    pub fn check(&self) -> (r: bool)
        ensures
            r == self.wf(),
    {
        let n = self.entries.len();
        let mut i: usize = 0;
        while i < n
            invariant
                n == self.entries@.len(),
                i <= n,
                forall|k: int| 0 <= k < i ==> entry_wf(#[trigger] self.entries@[k], k, n as int),
            decreases n - i,
        {
            if !check_entry(&self.entries[i], i, n) {
                return false;
            }
            i = i + 1;
        }
        let m = self.roots.len();
        let mut j: usize = 0;
        while j < m
            invariant
                n == self.entries@.len(),
                m == self.roots@.len(),
                j <= m,
                forall|k: int| 0 <= k < n ==> entry_wf(#[trigger] self.entries@[k], k, n as int),
                forall|k: int| 0 <= k < j ==> #[trigger] self.roots@[k] < n,
            decreases m - j,
        {
            if self.roots[j] >= n {
                return false;
            }
            j = j + 1;
        }
        true
    }
}

fn check_entry(e: &DebugEntry, i: usize, n: usize) -> (r: bool)
    ensures
        r == entry_wf(*e, i as int, n as int),
{
    let c = e.children.len();
    let mut j: usize = 0;
    while j < c
        invariant
            c == e.children@.len(),
            j <= c,
            forall|k: int| 0 <= k < j ==> i < #[trigger] e.children@[k] < n,
        decreases c - j,
    {
        let child = e.children[j];
        if child <= i || child >= n {
            return false;
        }
        j = j + 1;
    }
    if let Some(o) = e.abstract_origin {
        if o >= n {
            return false;
        }
    }
    if let Some(RangesAttr::List(rs)) = &e.ranges {
        let m = rs.len();
        let mut k: usize = 0;
        while k < m
            invariant
                m == rs@.len(),
                e.ranges == Some(RangesAttr::List(*rs)),
                k <= m,
                forall|q: int| 0 <= q < k ==> rs@[q].begin <= rs@[q].end,
            decreases m - k,
        {
            if rs[k].begin > rs[k].end {
                assert(!ranges_ordered(rs@));
                return false;
            }
            k = k + 1;
        }
    }
    true
}

} // verus!
