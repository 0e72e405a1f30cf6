//! The version-dedup planner: which destination name each collected
//! package gets, which packages must carry a version suffix, and the two
//! conflict errors that stop a run before anything is copied.

use vstd::prelude::*;

use crate::origin::{origin_str_of, origin_to_string};
use crate::package::ResolvedPackage;
use crate::text::{push_char, str_eq};
use crate::version::{
    lemma_version_le_total, lemma_version_le_transitive, lemma_version_lt_le_transitive,
    spec_version_le, spec_version_lt, version_le, version_lt, version_prec_eq, version_str_of,
    version_tied, version_to_string,
};

verus! {

/// One planned destination: the package (by index into the collected
/// list), its destination directory name, and whether that name carries a
/// version suffix.
#[derive(Debug)]
pub struct VendorEntry {
    pub pkg_index: usize,
    pub dst_name: String,
    pub has_suffix: bool,
}

/// A planner-detected conflict. Both are fatal; the fields carry the
/// rendered name, versions and origins for the error message.
#[derive(Debug)]
pub enum VendorError {
    /// Two packages of the same name resolve to the same version (build
    /// metadata aside) from two different origins, in the merged layout:
    /// they cannot legally share one destination.
    DuplicateVersion { name: String, version: String, source1: String, source2: String },
    /// Two different versions of one name are present while duplicates are
    /// disallowed and no explicit version suffix is in use.
    DuplicateVersionsDisallowed { name: String, version: String, max_version: String },
}

/// The message of a planner error, as the run reports it.
pub open spec fn message_of(e: VendorError) -> Seq<char> {
    match e {
        VendorError::DuplicateVersion { name, version, source1, source2 } => {
            "found duplicate version of package `"@ + name@ + " v"@ + version@
                + "` vendored from two sources:\n\n\tsource 1: "@ + source1@ + "\n\tsource 2: "@
                + source2@
        },
        VendorError::DuplicateVersionsDisallowed { name, version, max_version } => {
            "found duplicate versions of package `"@ + name@ + "` at "@ + version@ + " and "@
                + max_version@ + ", but this was disallowed via --disallow-duplicates"@
        },
    }
}

/// Renders a planner error's message.
pub fn error_message(e: &VendorError) -> (s: String)
    ensures
        s@ == message_of(*e),
{
    let mut s = String::new();
    match e {
        VendorError::DuplicateVersion { name, version, source1, source2 } => {
            s.append("found duplicate version of package `");
            s.append(name.as_str());
            s.append(" v");
            s.append(version.as_str());
            s.append("` vendored from two sources:\n\n\tsource 1: ");
            s.append(source1.as_str());
            s.append("\n\tsource 2: ");
            s.append(source2.as_str());
        },
        VendorError::DuplicateVersionsDisallowed { name, version, max_version } => {
            s.append("found duplicate versions of package `");
            s.append(name.as_str());
            s.append("` at ");
            s.append(version.as_str());
            s.append(" and ");
            s.append(max_version.as_str());
            s.append(", but this was disallowed via --disallow-duplicates");
        },
    }
    proof {
        assert(s@ =~= message_of(*e));
    }
    s
}

/// True when some other collected package of the same name has strictly
/// higher precedence: package `i` is then not the primary version.
pub open spec fn outranked(pkgs: Seq<ResolvedPackage>, i: int) -> bool {
    exists|j: int|
        0 <= j < pkgs.len() && (#[trigger] pkgs[j]).name@ == pkgs[i].name@ && spec_version_lt(
            pkgs[i].version,
            pkgs[j].version,
        )
}

/// Packages `i` and `j` collide on one destination: same name, same
/// precedence (so the same suffixed or unsuffixed directory name).
pub open spec fn dup_at(pkgs: Seq<ResolvedPackage>, i: int, j: int) -> bool {
    0 <= i < j < pkgs.len() && pkgs[i].name@ == pkgs[j].name@ && version_prec_eq(
        pkgs[i].version,
        pkgs[j].version,
    )
}

pub open spec fn has_dup(pkgs: Seq<ResolvedPackage>) -> bool {
    exists|i: int, j: int| #[trigger] dup_at(pkgs, i, j)
}

pub open spec fn any_outranked(pkgs: Seq<ResolvedPackage>) -> bool {
    exists|i: int| 0 <= i < pkgs.len() && #[trigger] outranked(pkgs, i)
}

/// Whether package `i`'s destination name carries a version suffix.
pub open spec fn needs_suffix(pkgs: Seq<ResolvedPackage>, i: int, explicit: bool) -> bool {
    explicit || outranked(pkgs, i)
}

/// The destination directory name of package `i`: the bare package name
/// for the primary version, `name-version` otherwise (or always, in
/// explicit-version mode).
pub open spec fn dst_name_of(pkgs: Seq<ResolvedPackage>, i: int, explicit: bool) -> Seq<char> {
    if needs_suffix(pkgs, i, explicit) {
        pkgs[i].name@ + seq!['-'] + version_str_of(pkgs[i].version)
    } else {
        pkgs[i].name@
    }
}

/// The planned entries pair up with the collected packages, index by
/// index, each with the suffix decision and destination name above.
pub open spec fn entries_ok(
    pkgs: Seq<ResolvedPackage>,
    entries: Seq<VendorEntry>,
    explicit: bool,
) -> bool {
    &&& entries.len() == pkgs.len()
    &&& forall|i: int|
        0 <= i < entries.len() ==> {
            &&& (#[trigger] entries[i]).pkg_index == i
            &&& entries[i].has_suffix == needs_suffix(pkgs, i, explicit)
            &&& entries[i].dst_name@ == dst_name_of(pkgs, i, explicit)
        }
}

/// The error names the colliding pair: their shared name, the version they
/// tie at, and the two origins.
pub open spec fn describes_dup_error(pkgs: Seq<ResolvedPackage>, e: VendorError) -> bool {
    match e {
        VendorError::DuplicateVersion { name, version, source1, source2 } => {
            exists|i: int, j: int|
                {
                    &&& #[trigger] dup_at(pkgs, i, j)
                    &&& name@ == pkgs[j].name@
                    &&& version@ == version_str_of(pkgs[j].version)
                    &&& source1@ == origin_str_of(pkgs[i].origin)
                    &&& source2@ == origin_str_of(pkgs[j].origin)
                }
        },
        _ => false,
    }
}

/// The error names an outranked package and the highest version of its
/// name among the collected packages.
pub open spec fn describes_disallowed_error(pkgs: Seq<ResolvedPackage>, e: VendorError) -> bool {
    match e {
        VendorError::DuplicateVersionsDisallowed { name, version, max_version } => {
            exists|i: int, m: int|
                {
                    &&& 0 <= i < pkgs.len()
                    &&& #[trigger] outranked(pkgs, i)
                    &&& 0 <= m < pkgs.len()
                    &&& (#[trigger] pkgs[m]).name@ == pkgs[i].name@
                    &&& forall|j: int|
                        0 <= j < pkgs.len() && (#[trigger] pkgs[j]).name@ == pkgs[i].name@
                            ==> spec_version_le(pkgs[j].version, pkgs[m].version)
                    &&& name@ == pkgs[i].name@
                    &&& version@ == version_str_of(pkgs[i].version)
                    &&& max_version@ == version_str_of(pkgs[m].version)
                }
        },
        _ => false,
    }
}

/// Finds the index of a highest-precedence package among those sharing
/// package `i`'s name.
fn group_max(pkgs: &Vec<ResolvedPackage>, i: usize) -> (m: usize)
    requires
        i < pkgs@.len(),
    ensures
        m < pkgs@.len(),
        pkgs@[m as int].name@ == pkgs@[i as int].name@,
        forall|j: int|
            0 <= j < pkgs@.len() && (#[trigger] pkgs@[j]).name@ == pkgs@[i as int].name@
                ==> spec_version_le(pkgs@[j].version, pkgs@[m as int].version),
{
    let mut m = i;
    let mut j: usize = 0;
    while j < pkgs.len()
        invariant
            i < pkgs@.len(),
            m < pkgs@.len(),
            j <= pkgs@.len(),
            pkgs@[m as int].name@ == pkgs@[i as int].name@,
            forall|k: int|
                0 <= k < j && (#[trigger] pkgs@[k]).name@ == pkgs@[i as int].name@
                    ==> spec_version_le(pkgs@[k].version, pkgs@[m as int].version),
        decreases pkgs@.len() - j,
    {
        if str_eq(pkgs[j].name.as_str(), pkgs[i].name.as_str()) {
            if version_le(&pkgs[m].version, &pkgs[j].version) {
                proof {
                    assert forall|k: int|
                        0 <= k < j + 1 && (#[trigger] pkgs@[k]).name@
                            == pkgs@[i as int].name@ implies spec_version_le(
                        pkgs@[k].version,
                        pkgs@[j as int].version,
                    ) by {
                        if k < j {
                            lemma_version_le_transitive(
                                pkgs@[k].version,
                                pkgs@[m as int].version,
                                pkgs@[j as int].version,
                            );
                        } else {
                            lemma_version_le_total(pkgs@[k].version, pkgs@[k].version);
                        }
                    }
                }
                m = j;
            } else {
                proof {
                    lemma_version_le_total(
                        pkgs@[m as int].version,
                        pkgs@[j as int].version,
                    );
                }
            }
        }
        j = j + 1;
    }
    m
}

/// Plans the destination of every collected package, or stops on the
/// first conflict. In the merged layout two packages may not tie on one
/// destination; with duplicates disallowed (and no explicit suffixes) a
/// name may appear at one version only. Either conflict is reported
/// before anything is copied.
pub fn plan_entries(
    pkgs: &Vec<ResolvedPackage>,
    explicit_version: bool,
    disallow_duplicates: bool,
    merge_sources: bool,
) -> (r: Result<Vec<VendorEntry>, VendorError>)
    ensures
        match r {
            Result::Ok(entries) => {
                &&& entries_ok(pkgs@, entries@, explicit_version)
                &&& (merge_sources ==> !has_dup(pkgs@))
                &&& (disallow_duplicates && !explicit_version ==> !any_outranked(pkgs@))
            },
            Result::Err(e) => {
                ||| (merge_sources && describes_dup_error(pkgs@, e))
                ||| (disallow_duplicates && !explicit_version && !(merge_sources && has_dup(pkgs@))
                    && describes_disallowed_error(pkgs@, e))
            },
        },
        r is Ok <==> !((merge_sources && has_dup(pkgs@)) || (disallow_duplicates
            && !explicit_version && any_outranked(pkgs@))),
{
    if merge_sources {
        let mut j: usize = 1;
        while j < pkgs.len()
            invariant
                merge_sources,
                forall|x: int, y: int| y < j ==> !dup_at(pkgs@, x, y),
            decreases pkgs@.len() - j,
        {
            let mut i: usize = 0;
            while i < j
                invariant
                    merge_sources,
                    j < pkgs@.len(),
                    i <= j,
                    forall|x: int, y: int| y < j ==> !dup_at(pkgs@, x, y),
                    forall|x: int| x < i ==> !dup_at(pkgs@, x, j as int),
                decreases j - i,
            {
                if str_eq(pkgs[i].name.as_str(), pkgs[j].name.as_str()) && version_tied(
                    &pkgs[i].version,
                    &pkgs[j].version,
                ) {
                    let e = VendorError::DuplicateVersion {
                        name: pkgs[j].name.clone(),
                        version: version_to_string(&pkgs[j].version),
                        source1: origin_to_string(&pkgs[i].origin),
                        source2: origin_to_string(&pkgs[j].origin),
                    };
                    proof {
                        assert(dup_at(pkgs@, i as int, j as int));
                        assert(has_dup(pkgs@));
                        assert(describes_dup_error(pkgs@, e));
                    }
                    return Result::Err(e);
                }
                i = i + 1;
            }
            j = j + 1;
        }
        proof {
            assert forall|x: int, y: int| !(#[trigger] dup_at(pkgs@, x, y)) by {
                if 0 <= y < pkgs@.len() {
                    assert(!dup_at(pkgs@, x, y));
                }
            }
        }
    }
    if disallow_duplicates && !explicit_version {
        let mut i: usize = 0;
        while i < pkgs.len()
            invariant
                disallow_duplicates && !explicit_version,
                merge_sources ==> !has_dup(pkgs@),
                i <= pkgs@.len(),
                forall|k: int| 0 <= k < i ==> !(#[trigger] outranked(pkgs@, k)),
            decreases pkgs@.len() - i,
        {
            let m = group_max(pkgs, i);
            if version_lt(&pkgs[i].version, &pkgs[m].version) {
                let e = VendorError::DuplicateVersionsDisallowed {
                    name: pkgs[i].name.clone(),
                    version: version_to_string(&pkgs[i].version),
                    max_version: version_to_string(&pkgs[m].version),
                };
                proof {
                    assert(outranked(pkgs@, i as int));
                    assert(any_outranked(pkgs@));
                    assert(describes_disallowed_error(pkgs@, e));
                }
                return Result::Err(e);
            }
            proof {
                assert(!outranked(pkgs@, i as int)) by {
                    if outranked(pkgs@, i as int) {
                        let j = choose|j: int|
                            0 <= j < pkgs@.len() && (#[trigger] pkgs@[j]).name@
                                == pkgs@[i as int].name@ && spec_version_lt(
                                pkgs@[i as int].version,
                                pkgs@[j].version,
                            );
                        lemma_version_lt_le_transitive(
                            pkgs@[i as int].version,
                            pkgs@[j].version,
                            pkgs@[m as int].version,
                        );
                    }
                }
            }
            i = i + 1;
        }
    }
    let mut entries: Vec<VendorEntry> = Vec::new();
    let mut i: usize = 0;
    while i < pkgs.len()
        invariant
            i <= pkgs@.len(),
            entries@.len() == i,
            forall|k: int|
                0 <= k < i ==> {
                    &&& (#[trigger] entries@[k]).pkg_index == k
                    &&& entries@[k].has_suffix == needs_suffix(pkgs@, k, explicit_version)
                    &&& entries@[k].dst_name@ == dst_name_of(pkgs@, k, explicit_version)
                },
        decreases pkgs@.len() - i,
    {
        let suffix: bool;
        if explicit_version {
            suffix = true;
        } else {
            let m = group_max(pkgs, i);
            let lt = version_lt(&pkgs[i].version, &pkgs[m].version);
            proof {
                if lt {
                    assert(outranked(pkgs@, i as int));
                } else {
                    assert(!outranked(pkgs@, i as int)) by {
                        if outranked(pkgs@, i as int) {
                            let j = choose|j: int|
                                0 <= j < pkgs@.len() && (#[trigger] pkgs@[j]).name@
                                    == pkgs@[i as int].name@ && spec_version_lt(
                                    pkgs@[i as int].version,
                                    pkgs@[j].version,
                                );
                            lemma_version_lt_le_transitive(
                                pkgs@[i as int].version,
                                pkgs@[j].version,
                                pkgs@[m as int].version,
                            );
                        }
                    }
                }
            }
            suffix = lt;
        }
        let mut dst_name = pkgs[i].name.clone();
        if suffix {
            push_char(&mut dst_name, '-');
            crate::version::push_version(&mut dst_name, &pkgs[i].version);
            proof {
                assert(dst_name@ =~= dst_name_of(pkgs@, i as int, explicit_version));
            }
        }
        entries.push(VendorEntry { pkg_index: i, dst_name, has_suffix: suffix });
        i = i + 1;
    }
    Result::Ok(entries)
}

} // verus!
