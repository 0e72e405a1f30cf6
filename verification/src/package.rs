//! Resolved packages and the collector that merges resolved sets into one
//! duplicate-free list, setting aside local-path packages that live inside
//! the vendor directory so the pruner never deletes them.

use vstd::prelude::*;

use crate::origin::{is_local_path, origin_eq, origin_is_local_path, origin_same, Origin};
use crate::text::{starts_with, str_eq, str_starts_with, push_char};
use crate::version::{version_eq, version_same, Version};

verus! {

/// One already-resolved package: its identity (name, version, origin), the
/// absolute path of its source tree on disk, the authoritative list of its
/// published files when the fetch layer knows one, and its origin checksum
/// when the origin has a distributable artifact.
#[derive(Debug)]
pub struct ResolvedPackage {
    pub name: String,
    pub version: Version,
    pub origin: Origin,
    pub src_path: String,
    pub file_list: Option<Vec<String>>,
    pub checksum: Option<String>,
}

/// Two resolved packages are the same identity when name, version (build
/// metadata included) and origin all match.
pub open spec fn same_identity(a: ResolvedPackage, b: ResolvedPackage) -> bool {
    a.name@ == b.name@ && version_eq(a.version, b.version) && origin_eq(a.origin, b.origin)
}

/// Tests two packages for identity equality.
pub fn identity_same(a: &ResolvedPackage, b: &ResolvedPackage) -> (r: bool)
    ensures
        r == same_identity(*a, *b),
{
    str_eq(a.name.as_str(), b.name.as_str()) && version_same(&a.version, &b.version)
        && origin_same(&a.origin, &b.origin)
}

/// True when some element of `s` shares `p`'s identity.
pub open spec fn spec_contains_identity(s: Seq<ResolvedPackage>, p: ResolvedPackage) -> bool {
    exists|i: int| 0 <= i < s.len() && same_identity(#[trigger] s[i], p)
}

/// Scans a list for a package of the given identity.
pub fn contains_identity(s: &Vec<ResolvedPackage>, p: &ResolvedPackage) -> (r: bool)
    ensures
        r == spec_contains_identity(s@, *p),
{
    let mut i: usize = 0;
    while i < s.len()
        invariant
            i <= s@.len(),
            forall|j: int| 0 <= j < i ==> !same_identity(#[trigger] s@[j], *p),
        decreases s@.len() - i,
    {
        if identity_same(&s[i], p) {
            return true;
        }
        i = i + 1;
    }
    false
}

/// True when path `p` equals `dir` or lies beneath it.
pub open spec fn path_within(p: Seq<char>, dir: Seq<char>) -> bool {
    p == dir || starts_with(p, dir + seq!['/'])
}

/// Tests whether a canonical path equals `dir` or lies beneath it.
pub fn path_within_exec(p: &str, dir: &str) -> (r: bool)
    ensures
        r == path_within(p@, dir@),
{
    if str_eq(p, dir) {
        return true;
    }
    let mut d = dir.to_owned();
    push_char(&mut d, '/');
    proof {
        assert(d@ =~= dir@ + seq!['/']);
    }
    str_starts_with(p, d.as_str())
}

/// The collected list: input order kept, local-path packages dropped, and
/// of packages with the same identity only the first.
pub open spec fn collect_spec(s: Seq<ResolvedPackage>) -> Seq<ResolvedPackage>
    decreases s.len(),
{
    if s.len() == 0 {
        Seq::empty()
    } else {
        let rest = collect_spec(s.drop_last());
        if is_local_path(s.last().origin) || spec_contains_identity(rest, s.last()) {
            rest
        } else {
            rest.push(s.last())
        }
    }
}

/// The source paths of local-path packages that live inside the vendor
/// directory, in input order.
pub open spec fn protected_spec(s: Seq<ResolvedPackage>, dir: Seq<char>) -> Seq<Seq<char>>
    decreases s.len(),
{
    if s.len() == 0 {
        Seq::empty()
    } else {
        protected_spec(s.drop_last(), dir) + (if is_local_path(s.last().origin) && path_within(
            s.last().src_path@,
            dir,
        ) {
            seq![s.last().src_path@]
        } else {
            Seq::<Seq<char>>::empty()
        })
    }
}

/// Merges the resolved sets (already concatenated, in workspace order)
/// into one duplicate-free package list, and gathers the local-path
/// packages inside the vendor directory whose directories must survive
/// pruning. `vendor_dir` and the packages' `src_path`s are canonical paths.
pub fn collect_packages(resolved: Vec<ResolvedPackage>, vendor_dir: &String) -> (r: (
    Vec<ResolvedPackage>,
    Vec<String>,
))
    ensures
        r.0@ == collect_spec(resolved@),
        r.1.deep_view() == protected_spec(resolved@, vendor_dir@),
{
    let mut rest = resolved;
    let mut collected: Vec<ResolvedPackage> = Vec::new();
    let mut protected: Vec<String> = Vec::new();
    let ghost all = rest@;
    let mut i: usize = 0;
    let n = rest.len();
    proof {
        assert(all.len() == n);
        assert(all.take(0) =~= Seq::<ResolvedPackage>::empty());
    }
    while rest.len() > 0
        invariant
            all.len() <= usize::MAX,
            i + rest@.len() == all.len(),
            rest@ == all.skip(i as int),
            collected@ == collect_spec(all.take(i as int)),
            protected.deep_view() == protected_spec(all.take(i as int), vendor_dir@),
        decreases rest@.len(),
    {
        let p = rest.remove(0);
        proof {
            assert(p == all[i as int]);
            assert(rest@ =~= all.skip(i + 1));
        }
        let ghost prefix = all.take(i as int);
        let ghost prefix1 = all.take(i + 1);
        proof {
            assert(prefix1.drop_last() =~= prefix);
            assert(prefix1.last() == all[i as int]);
        }
        if origin_is_local_path(&p.origin) {
            if path_within_exec(p.src_path.as_str(), vendor_dir.as_str()) {
                protected.push(p.src_path);
            }
            proof {
                assert(collected@ =~= collect_spec(prefix1));
                assert(protected.deep_view() =~= protected_spec(prefix1, vendor_dir@));
            }
        } else {
            if !contains_identity(&collected, &p) {
                collected.push(p);
            }
            proof {
                assert(collected@ =~= collect_spec(prefix1));
                assert(protected.deep_view() =~= protected_spec(prefix1, vendor_dir@));
            }
        }
        i = i + 1;
    }
    proof {
        assert(all.take(all.len() as int) =~= all);
    }
    (collected, protected)
}

} // verus!
