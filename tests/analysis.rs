use dwarf_size::contributors::Contributors;
use dwarf_size::location::{build_key, resolve_location, resolve_name, trim_leading_slashes};
use dwarf_size::model::{AddressRange, AttrValue, CompUnit, DebugEntry, DebugTag, RangesAttr, SourceFile};
use dwarf_size::size::{entry_mapped_size, unpack_size, MappedSize};
use dwarf_size::walk::{analyze, analyze_die, analyze_unit, AnalysisError, DwarfAnalysisOpts};

fn blank(tag: DebugTag) -> DebugEntry {
    DebugEntry {
        tag,
        low_pc: None,
        high_pc: None,
        ranges: None,
        name: None,
        decl_file: None,
        abstract_origin: None,
        children: vec![],
    }
}

fn func(tag: DebugTag, size: u64, name: &str, file: u64, children: Vec<usize>) -> DebugEntry {
    let mut e = blank(tag);
    e.low_pc = Some(AttrValue::Addr(0x1000));
    e.high_pc = Some(AttrValue::Udata(size));
    e.name = Some(name.to_string());
    e.decl_file = Some(file);
    e.children = children;
    e
}

fn unit(entries: Vec<DebugEntry>) -> CompUnit {
    CompUnit {
        name: Some("/src/lib.rs".to_string()),
        comp_dir: Some("/home/proj/".to_string()),
        files: vec![
            None,
            Some(SourceFile { dir: "/abs/dir".to_string(), name: "a.rs".to_string() }),
            Some(SourceFile { dir: "src".to_string(), name: "b.rs".to_string() }),
        ],
        entries,
        roots: vec![0],
    }
}

fn split_opts() -> DwarfAnalysisOpts {
    DwarfAnalysisOpts { prefix: None, compilation_units: false, split_paths: true }
}

fn pairs(c: &Contributors) -> Vec<(String, u64)> {
    (0..c.len()).map(|i| c.entry_at(i)).collect()
}

#[test]
fn ranges_list_sums_spans() {
    let mut e = blank(DebugTag::Subprogram);
    e.ranges = Some(RangesAttr::List(vec![
        AddressRange { begin: 100, end: 150 },
        AddressRange { begin: 200, end: 230 },
    ]));
    e.low_pc = Some(AttrValue::Addr(5));
    assert_eq!(entry_mapped_size(&e), MappedSize::Bytes(80));
}

#[test]
fn ranges_other_encoding_not_applicable() {
    let mut e = blank(DebugTag::Subprogram);
    e.ranges = Some(RangesAttr::Other);
    e.low_pc = Some(AttrValue::Addr(0));
    e.high_pc = Some(AttrValue::Udata(4));
    assert_eq!(entry_mapped_size(&e), MappedSize::NotApplicable);
}

#[test]
fn high_as_length_or_address() {
    assert_eq!(unpack_size(&AttrValue::Addr(1000), &AttrValue::Udata(50)), MappedSize::Bytes(50));
    assert_eq!(unpack_size(&AttrValue::Addr(1000), &AttrValue::Addr(1050)), MappedSize::Bytes(50));
    assert_eq!(unpack_size(&AttrValue::Addr(1000), &AttrValue::Other), MappedSize::NotApplicable);
    assert_eq!(unpack_size(&AttrValue::Udata(1000), &AttrValue::Udata(5)), MappedSize::NotApplicable);
    assert_eq!(unpack_size(&AttrValue::Addr(1000), &AttrValue::Addr(900)), MappedSize::OutOfRange);
}

#[test]
fn low_only_is_not_applicable() {
    let mut e = blank(DebugTag::InlinedSubroutine);
    e.low_pc = Some(AttrValue::Addr(1000));
    assert_eq!(entry_mapped_size(&e), MappedSize::NotApplicable);
}

#[test]
fn ranges_overflow_is_out_of_range() {
    let mut e = blank(DebugTag::Subprogram);
    e.ranges = Some(RangesAttr::List(vec![
        AddressRange { begin: 0, end: u64::MAX },
        AddressRange { begin: 0, end: 1 },
    ]));
    assert_eq!(entry_mapped_size(&e), MappedSize::OutOfRange);
}

#[test]
fn leaf_contributes_its_size() {
    let u = unit(vec![func(DebugTag::Subprogram, 42, "leaf", 1, vec![])]);
    let c = analyze_die(&u, "", true, 0).unwrap();
    assert_eq!(pairs(&c), vec![("@source_files;;abs;dir;a.rs;@function: leaf".to_string(), 42)]);
}

#[test]
fn inlined_child_is_subtracted() {
    let u = unit(vec![
        func(DebugTag::Subprogram, 200, "outer", 1, vec![1]),
        func(DebugTag::InlinedSubroutine, 60, "inner", 1, vec![]),
    ]);
    let c = analyze_die(&u, "", true, 0).unwrap();
    assert_eq!(c.len(), 2);
    assert_eq!(c.get("@source_files;;abs;dir;a.rs;@function: inner"), Some(60));
    assert_eq!(c.get("@source_files;;abs;dir;a.rs;@function: outer"), Some(140));
    assert_eq!(c.total(), 200);
}

#[test]
fn conservation_over_nested_children() {
    let u = unit(vec![
        func(DebugTag::Subprogram, 300, "top", 1, vec![1, 3]),
        func(DebugTag::InlinedSubroutine, 100, "mid", 1, vec![2]),
        func(DebugTag::InlinedSubroutine, 30, "low", 2, vec![]),
        func(DebugTag::InlinedSubroutine, 50, "low", 2, vec![]),
    ]);
    let c = analyze_die(&u, "", true, 0).unwrap();
    assert_eq!(c.get("@source_files;;home;proj;src;b.rs;@function: low"), Some(80));
    assert_eq!(c.get("@source_files;;abs;dir;a.rs;@function: mid"), Some(70));
    assert_eq!(c.get("@source_files;;abs;dir;a.rs;@function: top"), Some(150));
    assert_eq!(c.total(), 300);
}

#[test]
fn children_exceeding_parent_fail() {
    let u = unit(vec![
        func(DebugTag::Subprogram, 100, "outer", 1, vec![1, 2]),
        func(DebugTag::InlinedSubroutine, 60, "a", 1, vec![]),
        func(DebugTag::InlinedSubroutine, 50, "b", 1, vec![]),
    ]);
    match analyze_die(&u, "", true, 0) {
        Err(AnalysisError::ChildrenExceedSize { name, dir, file }) => {
            assert_eq!(name, "outer");
            assert_eq!(dir, "/abs/dir");
            assert_eq!(file, "a.rs");
        }
        other => panic!("unexpected result: {:?}", other.map(|c| c.len())),
    }
}

#[test]
fn missing_size_is_an_error() {
    let mut e = blank(DebugTag::Subprogram);
    e.name = Some("f".to_string());
    let u = unit(vec![e]);
    assert!(matches!(analyze_die(&u, "", true, 0), Err(AnalysisError::MissingMappingData)));
}

#[test]
fn missing_name_is_an_error() {
    let mut e = func(DebugTag::Subprogram, 10, "f", 1, vec![]);
    e.name = None;
    let u = unit(vec![e]);
    assert!(matches!(analyze_die(&u, "", true, 0), Err(AnalysisError::MissingMappingData)));
}

#[test]
fn negative_span_is_an_error() {
    let mut e = func(DebugTag::Subprogram, 10, "f", 1, vec![]);
    e.high_pc = Some(AttrValue::Addr(0x10));
    let u = unit(vec![e]);
    assert!(matches!(analyze_die(&u, "", true, 0), Err(AnalysisError::SizeOutOfRange)));
}

#[test]
fn non_function_contributes_nothing() {
    let u = unit(vec![blank(DebugTag::Other)]);
    assert_eq!(analyze_die(&u, "", true, 0).unwrap().len(), 0);
}

#[test]
fn relative_dir_gets_comp_dir() {
    let u = unit(vec![func(DebugTag::Subprogram, 1, "f", 2, vec![])]);
    let (dir, file) = resolve_location(&u, 0);
    assert_eq!(dir, "/home/proj/src");
    assert_eq!(file, "b.rs");
}

#[test]
fn unresolvable_location_is_unknown() {
    let u = unit(vec![func(DebugTag::Subprogram, 1, "f", 9, vec![])]);
    let (dir, file) = resolve_location(&u, 0);
    assert_eq!(dir, "<unknown dir>");
    assert_eq!(file, "<unknown file>");
    let c = analyze_die(&u, "", true, 0).unwrap();
    assert_eq!(c.get("@source_files;<unknown dir>;<unknown file>;@function: f"), Some(1));
}

#[test]
fn abstract_origin_resolves_to_declaration() {
    let decl = {
        let mut d = blank(DebugTag::Other);
        d.name = Some("helper".to_string());
        d.decl_file = Some(1);
        d
    };
    let inl = {
        let mut e = blank(DebugTag::InlinedSubroutine);
        e.low_pc = Some(AttrValue::Addr(0));
        e.high_pc = Some(AttrValue::Udata(12));
        e.abstract_origin = Some(1);
        e
    };
    let mut root = blank(DebugTag::CompilationUnit);
    root.children = vec![1, 2];
    let u = unit(vec![root, decl, inl]);
    let (dir, file) = resolve_location(&u, 2);
    assert_eq!(dir, "/abs/dir");
    assert_eq!(file, "a.rs");
    assert_eq!(resolve_name(&u, 2), Some("helper".to_string()));
    let c = analyze_unit(&u, &split_opts()).unwrap();
    assert_eq!(pairs(&c), vec![("@source_files;;abs;dir;a.rs;@function: helper".to_string(), 12)]);
}

#[test]
fn origin_cycle_is_unknown() {
    let mut a = func(DebugTag::Subprogram, 5, "a", 1, vec![]);
    a.abstract_origin = Some(1);
    let mut b = blank(DebugTag::Other);
    b.abstract_origin = Some(0);
    let mut u = unit(vec![a, b]);
    u.roots = vec![0, 1];
    let (dir, file) = resolve_location(&u, 0);
    assert_eq!(dir, "<unknown dir>");
    assert_eq!(file, "<unknown file>");
}

#[test]
fn merge_disjoint_and_overlapping() {
    let mut a = Contributors::new();
    a.add("x".to_string(), 3);
    a.add("y".to_string(), 4);
    let mut b = Contributors::new();
    b.add("y".to_string(), 10);
    b.add("z".to_string(), 1);
    a.merge(b);
    assert_eq!(a.get("x"), Some(3));
    assert_eq!(a.get("y"), Some(14));
    assert_eq!(a.get("z"), Some(1));
    assert_eq!(a.get("w"), None);
    assert_eq!(a.len(), 3);
    assert_eq!(a.total(), 18);
}

#[test]
fn merge_is_commutative_on_values() {
    let build = |k: &str, v: u64| {
        let mut c = Contributors::new();
        c.add(k.to_string(), v);
        c.add("shared".to_string(), v);
        c
    };
    let mut ab = build("a", 2);
    ab.merge(build("b", 5));
    let mut ba = build("b", 5);
    ba.merge(build("a", 2));
    for k in ["a", "b", "shared"] {
        assert_eq!(ab.get(k), ba.get(k));
    }
    assert_eq!(ab.get("shared"), Some(7));
}

#[test]
fn repeated_key_is_summed() {
    let mut root = blank(DebugTag::CompilationUnit);
    root.children = vec![1, 2];
    let u = CompUnit {
        roots: vec![0],
        ..unit(vec![
            root,
            func(DebugTag::Subprogram, 7, "dup", 1, vec![]),
            func(DebugTag::Subprogram, 8, "dup", 1, vec![]),
        ])
    };
    let c = analyze_unit(&u, &split_opts()).unwrap();
    assert_eq!(pairs(&c), vec![("@source_files;;abs;dir;a.rs;@function: dup".to_string(), 15)]);
}

#[test]
fn analysis_is_deterministic() {
    let mut root = blank(DebugTag::CompilationUnit);
    root.children = vec![1, 3];
    let units = vec![
        unit(vec![
            root,
            func(DebugTag::Subprogram, 50, "f", 1, vec![2]),
            func(DebugTag::InlinedSubroutine, 20, "g", 2, vec![]),
            func(DebugTag::Subprogram, 9, "h", 2, vec![]),
        ]),
        unit(vec![func(DebugTag::Subprogram, 4, "f", 1, vec![])]),
    ];
    let first = pairs(&analyze(&units, &split_opts()).unwrap());
    let second = pairs(&analyze(&units, &split_opts()).unwrap());
    assert_eq!(first, second);
    assert_eq!(first.len(), 3);
    assert!(first.contains(&("@source_files;;abs;dir;a.rs;@function: f".to_string(), 34)));
}

#[test]
fn malformed_unit_is_rejected() {
    let mut u = unit(vec![func(DebugTag::Subprogram, 5, "f", 1, vec![0])]);
    assert!(matches!(analyze_unit(&u, &split_opts()), Err(AnalysisError::MalformedUnit)));
    u.entries[0].children = vec![];
    u.roots = vec![3];
    assert!(matches!(analyze_unit(&u, &split_opts()), Err(AnalysisError::MalformedUnit)));
}

#[test]
fn total_overflow_across_units() {
    let units = vec![
        unit(vec![func(DebugTag::Subprogram, u64::MAX, "f", 1, vec![])]),
        unit(vec![func(DebugTag::Subprogram, 1, "g", 1, vec![])]),
    ];
    assert!(matches!(analyze(&units, &split_opts()), Err(AnalysisError::TotalOverflow)));
}

#[test]
fn options_shape_the_key() {
    let u = unit(vec![func(DebugTag::Subprogram, 3, "f", 1, vec![])]);
    let opts = DwarfAnalysisOpts {
        prefix: Some("bin".to_string()),
        compilation_units: true,
        split_paths: false,
    };
    let c = analyze(&vec![u.clone()], &opts).unwrap();
    assert_eq!(pairs(&c), vec![("bin;src/lib.rs;@source_files;/abs/dir;a.rs;@function: f".to_string(), 3)]);
    let mut nameless = u;
    nameless.name = None;
    let opts = DwarfAnalysisOpts { prefix: None, compilation_units: true, split_paths: true };
    let c = analyze(&vec![nameless], &opts).unwrap();
    assert_eq!(
        pairs(&c),
        vec![("<unknown compilation unit>;@source_files;;abs;dir;a.rs;@function: f".to_string(), 3)]
    );
}

#[test]
fn key_and_trim_helpers() {
    assert_eq!(build_key("", true, "/a/b", "c.rs", "main"), "@source_files;;a;b;c.rs;@function: main");
    assert_eq!(build_key("p;", false, "/a/b", "c.rs", "main"), "p;@source_files;/a/b;c.rs;@function: main");
    assert_eq!(trim_leading_slashes("//x/y"), "x/y");
    assert_eq!(trim_leading_slashes("x"), "x");
}
