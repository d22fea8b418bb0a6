use vstd::prelude::*;
use vstd::string::{StrSliceExecFns, StringExecFns};

use crate::model::CompUnit;

verus! {

/// The (directory, file name) pair at file index `f` of the unit's file table.
pub open spec fn file_entry(u: CompUnit, f: u64) -> Option<(Seq<char>, Seq<char>)> {
    if f < u.files@.len() {
        match u.files@[f as int] {
            Some(sf) => Some((sf.dir@, sf.name@)),
            None => None,
        }
    } else {
        None
    }
}

/// Declaration file of entry `i`, following abstract-origin references at most `fuel` times.
pub open spec fn origin_file(u: CompUnit, i: int, fuel: nat) -> Option<(Seq<char>, Seq<char>)>
    decreases fuel,
{
    if fuel == 0 || !(0 <= i < u.entries@.len()) {
        None
    } else {
        let e = u.entries@[i];
        match e.abstract_origin {
            Some(o) => origin_file(u, o as int, (fuel - 1) as nat),
            None => match e.decl_file {
                Some(f) => file_entry(u, f),
                None => None,
            },
        }
    }
}

/// Declaration file of entry `i`. A chain of references that visits no entry twice is
/// followed to its end; a cycle of references leaves the location unknown.
pub open spec fn decl_location(u: CompUnit, i: int) -> Option<(Seq<char>, Seq<char>)> {
    origin_file(u, i, u.entries@.len() as nat)
}

/// Name of entry `i`: its own, or else that of the entry it is an instance of, following
/// abstract-origin references at most `fuel` times.
pub open spec fn origin_name(u: CompUnit, i: int, fuel: nat) -> Option<Seq<char>>
    decreases fuel,
{
    if fuel == 0 || !(0 <= i < u.entries@.len()) {
        None
    } else {
        let e = u.entries@[i];
        match e.name {
            Some(n) => Some(n@),
            None => match e.abstract_origin {
                Some(o) => origin_name(u, o as int, (fuel - 1) as nat),
                None => None,
            },
        }
    }
}

pub open spec fn decl_name(u: CompUnit, i: int) -> Option<Seq<char>> {
    origin_name(u, i, u.entries@.len() as nat)
}

pub open spec fn comp_dir_of(u: CompUnit) -> Seq<char> {
    match u.comp_dir {
        Some(c) => c@,
        None => Seq::empty(),
    }
}

/// A directory that starts with neither `/` nor `<` is relative: the unit's working
/// directory is put in front of it.
pub open spec fn normalize_dir(u: CompUnit, d: Seq<char>) -> Seq<char> {
    if d.len() > 0 && (d[0] == '/' || d[0] == '<') {
        d
    } else {
        comp_dir_of(u) + d
    }
}

pub open spec fn resolved_dir(u: CompUnit, i: int) -> Seq<char> {
    match decl_location(u, i) {
        Some(p) => normalize_dir(u, p.0),
        None => "<unknown dir>"@,
    }
}

pub open spec fn resolved_file(u: CompUnit, i: int) -> Seq<char> {
    match decl_location(u, i) {
        Some(p) => p.1,
        None => "<unknown file>"@,
    }
}

/// Directory as it stands in a key: its components as separate segments when `split`.
pub open spec fn dir_segment(d: Seq<char>, split: bool) -> Seq<char> {
    if split {
        Seq::new(d.len(), |j: int| if d[j] == '/' { ';' } else { d[j] })
    } else {
        d
    }
}

/// The contribution key of a function `name` declared in `dir`/`file`, after `lead`.
pub open spec fn key_of(
    lead: Seq<char>,
    split: bool,
    dir: Seq<char>,
    file: Seq<char>,
    name: Seq<char>,
) -> Seq<char> {
    lead + "@source_files;"@ + dir_segment(dir, split) + ";"@ + file + ";@function: "@ + name
}

/// A path with its leading `/` characters removed.
pub open spec fn trim_slashes(s: Seq<char>) -> Seq<char>
    decreases s.len(),
{
    if s.len() > 0 && s[0] == '/' {
        trim_slashes(s.drop_first())
    } else {
        s
    }
}

/// Relies on `String::push`: appends one character.
#[verifier::external_body]
fn push_char(s: &mut String, c: char)
    ensures
        final(s)@ == old(s)@.push(c),
{
    s.push(c);
}

fn lookup_file(u: &CompUnit, f: u64) -> (r: Option<(String, String)>)
    ensures
        r is Some <==> file_entry(*u, f) is Some,
        r matches Some(p) ==> file_entry(*u, f) == Some((p.0@, p.1@)),
{
    if f < u.files.len() as u64 {
        match &u.files[f as usize] {
            Some(sf) => Some((sf.dir.clone(), sf.name.clone())),
            None => None,
        }
    } else {
        None
    }
}

/// The (directory, file name) entry `i` is declared in, before normalisation, following
/// abstract-origin references.
pub fn unpack_file(u: &CompUnit, i: usize) -> (r: Option<(String, String)>)
    ensures
        r is Some <==> decl_location(*u, i as int) is Some,
        r matches Some(p) ==> decl_location(*u, i as int) == Some((p.0@, p.1@)),
{
    let n = u.entries.len();
    let mut cur: usize = i;
    let mut fuel: usize = n;
    while fuel > 0
        invariant
            n == u.entries@.len(),
            fuel <= n,
            decl_location(*u, i as int) == origin_file(*u, cur as int, fuel as nat),
        decreases fuel,
    {
        if cur >= n {
            return None;
        }
        let e = &u.entries[cur];
        match e.abstract_origin {
            Some(o) => {
                cur = o;
                fuel = fuel - 1;
            },
            None => {
                return match e.decl_file {
                    Some(f) => lookup_file(u, f),
                    None => None,
                };
            },
        }
    }
    None
}

/// The name of entry `i`, taken from the entry it is an instance of where it has none.
pub fn resolve_name(u: &CompUnit, i: usize) -> (r: Option<String>)
    ensures
        r is Some <==> decl_name(*u, i as int) is Some,
        r matches Some(n) ==> decl_name(*u, i as int) == Some(n@),
{
    let n = u.entries.len();
    let mut cur: usize = i;
    let mut fuel: usize = n;
    while fuel > 0
        invariant
            n == u.entries@.len(),
            fuel <= n,
            decl_name(*u, i as int) == origin_name(*u, cur as int, fuel as nat),
        decreases fuel,
    {
        if cur >= n {
            return None;
        }
        let e = &u.entries[cur];
        match &e.name {
            Some(nm) => {
                return Some(nm.clone());
            },
            None => match e.abstract_origin {
                Some(o) => {
                    cur = o;
                    fuel = fuel - 1;
                },
                None => {
                    return None;
                },
            },
        }
    }
    None
}

/// Puts the unit's working directory in front of a relative directory.
pub fn normalize(u: &CompUnit, d: String) -> (r: String)
    ensures
        r@ == normalize_dir(*u, d@),
{
    let len = d.as_str().unicode_len();
    if len > 0 {
        let c = d.as_str().get_char(0);
        if c == '/' || c == '<' {
            return d;
        }
    }
    let mut r = match &u.comp_dir {
        Some(c) => c.clone(),
        None => String::new(),
    };
    r.append(d.as_str());
    r
}

/// The directory and file name of entry `i`, with "unknown" placeholders where they
/// cannot be resolved.
pub fn resolve_location(u: &CompUnit, i: usize) -> (r: (String, String))
    ensures
        r.0@ == resolved_dir(*u, i as int),
        r.1@ == resolved_file(*u, i as int),
{
    match unpack_file(u, i) {
        Some((d, f)) => (normalize(u, d), f),
        None => {
            let d = String::from_str("<unknown dir>");
            let f = String::from_str("<unknown file>");
            (d, f)
        },
    }
}

fn push_dir_segment(out: &mut String, d: &str, split: bool)
    ensures
        final(out)@ == old(out)@ + dir_segment(d@, split),
{
    if !split {
        out.append(d);
        return;
    }
    let n = d.unicode_len();
    let ghost start = out@;
    let mut j: usize = 0;
    while j < n
        invariant
            n == d@.len(),
            j <= n,
            out@ == start + dir_segment(d@, true).subrange(0, j as int),
        decreases n - j,
    {
        let c = d.get_char(j);
        if c == '/' {
            push_char(out, ';');
        } else {
            push_char(out, c);
        }
        assert(dir_segment(d@, true).subrange(0, j + 1) =~= dir_segment(d@, true).subrange(
            0,
            j as int,
        ).push(dir_segment(d@, true)[j as int]));
        j = j + 1;
    }
    assert(dir_segment(d@, true).subrange(0, n as int) =~= dir_segment(d@, true));
}

/// Builds the contribution key of function `name` declared in `dir`/`file`.
pub fn build_key(lead: &str, split: bool, dir: &str, file: &str, name: &str) -> (r: String)
    ensures
        r@ == key_of(lead@, split, dir@, file@, name@),
{
    let mut k = String::from_str(lead);
    k.append("@source_files;");
    push_dir_segment(&mut k, dir, split);
    k.append(";");
    k.append(file);
    k.append(";@function: ");
    k.append(name);
    k
}

/// A path with its leading `/` characters removed.
pub fn trim_leading_slashes(s: &str) -> (r: String)
    ensures
        r@ == trim_slashes(s@),
{
    let n = s.unicode_len();
    let mut j: usize = 0;
    assert(s@.subrange(0, n as int) =~= s@);
    while j < n && s.get_char(j) == '/'
        invariant
            n == s@.len(),
            j <= n,
            trim_slashes(s@) == trim_slashes(s@.subrange(j as int, n as int)),
        decreases n - j,
    {
        assert(s@.subrange(j as int, n as int).drop_first() =~= s@.subrange(j + 1, n as int));
        j = j + 1;
    }
    let r = String::from_str(s.substring_char(j, n));
    proof {
        let t = s@.subrange(j as int, n as int);
        if t.len() > 0 {
            assert(t[0] == s@[j as int]);
        }
    }
    r
}

} // verus!
