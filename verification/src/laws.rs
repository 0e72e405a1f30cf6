//! Laws of the synchronizer that span several functions, stated over the
//! same spec-level predicates that [`crate::engine::sync`] promises of its
//! plan.

use vstd::prelude::*;

use crate::engine::{
    is_touched_spec, lemma_stale_membership, planned_entry_ok, planned_ok, spec_stale,
    PlannedEntry,
};
use crate::package::{path_within, protected_spec, ResolvedPackage};
use crate::plan::{any_outranked, needs_suffix, outranked};
use crate::origin::is_local_path;
use crate::version::{
    lemma_version_lt_asymmetric, lemma_version_lt_le_transitive, spec_version_le, spec_version_lt,
};

verus! {

/// Law (idempotence): running a sync again, with the same resolved
/// packages, over the disk state the first run left behind — every
/// included destination now holds a checksum manifest, and every
/// surviving crate directory was touched by the first run — re-copies no
/// version-suffixed destination, plans the same destinations, and prunes
/// nothing. Re-copied primaries rewrite byte-identical content, since the
/// copied files and manifests are functions of the unchanged package
/// data.
pub proof fn lemma_resync_idempotent(
    pkgs: Seq<ResolvedPackage>,
    vendor: Seq<char>,
    explicit: bool,
    only_git: bool,
    merge: bool,
    manifest_dirs1: Seq<Seq<char>>,
    entries1: Seq<PlannedEntry>,
    protected: Seq<Seq<char>>,
    manifest_dirs2: Seq<Seq<char>>,
    existing2: Seq<Seq<char>>,
    entries2: Seq<PlannedEntry>,
)
    requires
        planned_ok(pkgs, vendor, explicit, only_git, merge, manifest_dirs1, entries1),
        planned_ok(pkgs, vendor, explicit, only_git, merge, manifest_dirs2, entries2),
        forall|i: int|
            0 <= i < entries1.len() && (#[trigger] entries1[i]).included
                ==> manifest_dirs2.contains(entries1[i].dst@),
        forall|x: Seq<char>|
            existing2.contains(x) ==> is_touched_spec(entries1, protected, x),
    ensures
        forall|i: int|
            0 <= i < entries2.len() ==> (#[trigger] entries2[i]).dst@ == entries1[i].dst@,
        forall|i: int|
            0 <= i < entries2.len() && (#[trigger] entries2[i]).has_suffix
                ==> !entries2[i].copy,
        spec_stale(existing2, entries2, protected).len() == 0,
{
    assert forall|i: int| 0 <= i < entries2.len() implies (#[trigger] entries2[i]).dst@
        == entries1[i].dst@ by {
        assert(planned_entry_ok(
            pkgs,
            vendor,
            explicit,
            only_git,
            merge,
            manifest_dirs1,
            entries1[i],
            i,
        ));
        assert(planned_entry_ok(
            pkgs,
            vendor,
            explicit,
            only_git,
            merge,
            manifest_dirs2,
            entries2[i],
            i,
        ));
    }
    assert forall|i: int|
        0 <= i < entries2.len() && (#[trigger] entries2[i]).has_suffix implies !entries2[i].copy by {
        assert(planned_entry_ok(
            pkgs,
            vendor,
            explicit,
            only_git,
            merge,
            manifest_dirs1,
            entries1[i],
            i,
        ));
        assert(planned_entry_ok(
            pkgs,
            vendor,
            explicit,
            only_git,
            merge,
            manifest_dirs2,
            entries2[i],
            i,
        ));
        if entries2[i].included {
            assert(entries1[i].included);
            assert(manifest_dirs2.contains(entries1[i].dst@));
        }
    }
    let stale = spec_stale(existing2, entries2, protected);
    assert forall|x: Seq<char>| !(#[trigger] stale.contains(x)) by {
        lemma_stale_membership(existing2, entries2, protected, x);
        if existing2.contains(x) && !is_touched_spec(entries2, protected, x) {
            assert(is_touched_spec(entries1, protected, x));
            if !protected.contains(x) {
                let i = choose|i: int|
                    0 <= i < entries1.len() && (#[trigger] entries1[i]).dst@ == x;
                assert(entries2[i].dst@ == x);
            }
        }
    }
    if stale.len() > 0 {
        assert(stale.contains(stale[0]));
    }
}

/// Law (primaries are always refreshed): an included package whose
/// destination carries no version suffix is copied on every run — only
/// suffixed destinations are ever skipped — because the primary version
/// of a name can change between runs.
pub proof fn lemma_primary_always_refreshed(
    pkgs: Seq<ResolvedPackage>,
    vendor: Seq<char>,
    explicit: bool,
    only_git: bool,
    merge: bool,
    manifest_dirs: Seq<Seq<char>>,
    entries: Seq<PlannedEntry>,
    i: int,
)
    requires
        planned_ok(pkgs, vendor, explicit, only_git, merge, manifest_dirs, entries),
        0 <= i < entries.len(),
        entries[i].included,
        !entries[i].has_suffix,
    ensures
        entries[i].copy,
{
    assert(planned_entry_ok(pkgs, vendor, explicit, only_git, merge, manifest_dirs, entries[i], i));
}

/// Law (highest version gets the bare name): a package whose version is
/// at least every other collected version of its name is the primary, so
/// its destination name carries no version suffix (outside
/// explicit-version mode).
pub proof fn lemma_primary_is_unsuffixed(pkgs: Seq<ResolvedPackage>, i: int)
    requires
        0 <= i < pkgs.len(),
        forall|j: int|
            0 <= j < pkgs.len() && (#[trigger] pkgs[j]).name@ == pkgs[i].name@
                ==> spec_version_le(pkgs[j].version, pkgs[i].version),
    ensures
        !needs_suffix(pkgs, i, false),
{
    if outranked(pkgs, i) {
        let j = choose|j: int|
            0 <= j < pkgs.len() && (#[trigger] pkgs[j]).name@ == pkgs[i].name@
                && spec_version_lt(pkgs[i].version, pkgs[j].version);
        lemma_version_lt_le_transitive(pkgs[i].version, pkgs[j].version, pkgs[i].version);
        lemma_version_lt_asymmetric(pkgs[i].version, pkgs[i].version);
    }
}

/// Law (a lower version is suffixed — and, with duplicates disallowed and
/// explicit suffixes off, rejected): two collected packages of one name
/// at different precedence leave the lower one outranked; the planner's
/// contract then forces the duplicate-versions error before anything is
/// copied.
pub proof fn lemma_duplicates_disallowed_rejects(pkgs: Seq<ResolvedPackage>, i: int, j: int)
    requires
        0 <= i < pkgs.len(),
        0 <= j < pkgs.len(),
        pkgs[i].name@ == pkgs[j].name@,
        spec_version_lt(pkgs[i].version, pkgs[j].version),
    ensures
        needs_suffix(pkgs, i, false),
        any_outranked(pkgs),
{
    assert(outranked(pkgs, i)) by {
        assert((pkgs[j]).name@ == pkgs[i].name@ && spec_version_lt(
            pkgs[i].version,
            pkgs[j].version,
        ));
    }
}

/// Membership in the protected list: every local-path package inside the
/// vendor directory contributes its source path.
proof fn lemma_protected_membership(resolved: Seq<ResolvedPackage>, vendor: Seq<char>, p: int)
    requires
        0 <= p < resolved.len(),
        is_local_path(resolved[p].origin),
        path_within(resolved[p].src_path@, vendor),
    ensures
        protected_spec(resolved, vendor).contains(resolved[p].src_path@),
    decreases resolved.len(),
{
    let prot = protected_spec(resolved, vendor);
    let rest = protected_spec(resolved.drop_last(), vendor);
    if p == resolved.len() - 1 {
        assert(prot[prot.len() - 1] == resolved[p].src_path@);
        assert(prot.contains(resolved[p].src_path@));
    } else {
        assert(resolved.drop_last()[p] == resolved[p]);
        lemma_protected_membership(resolved.drop_last(), vendor, p);
        let w = choose|w: int| 0 <= w < rest.len() && rest[w] == resolved[p].src_path@;
        assert(prot[w] == resolved[p].src_path@);
        assert(prot.contains(resolved[p].src_path@));
    }
}

/// Law (local-path protection): a package sourced from a path inside the
/// vendor directory is never stale — whatever the run's entries, the
/// pruner leaves its directory alone, even though it is not among the
/// collected non-local packages.
pub proof fn lemma_local_path_protected(
    resolved: Seq<ResolvedPackage>,
    vendor: Seq<char>,
    entries: Seq<PlannedEntry>,
    existing: Seq<Seq<char>>,
    p: int,
)
    requires
        0 <= p < resolved.len(),
        is_local_path(resolved[p].origin),
        path_within(resolved[p].src_path@, vendor),
    ensures
        !spec_stale(existing, entries, protected_spec(resolved, vendor)).contains(
            resolved[p].src_path@,
        ),
{
    lemma_protected_membership(resolved, vendor, p);
    lemma_stale_membership(
        existing,
        entries,
        protected_spec(resolved, vendor),
        resolved[p].src_path@,
    );
}

} // verus!
