//! The synchronizer: one run's complete plan. Collects the resolved
//! packages, plans every destination, decides copy-or-skip per package,
//! gathers the per-origin directories of the split layout, computes the
//! stale entries to prune, and builds the replacement-source document.
//!
//! The plan is pure: the caller reads the disk facts beforehand, executes
//! the planned copies and deletions afterwards, and file contents flow
//! through [`crate::files::cp_sources`] package by package.

use vstd::prelude::*;

use crate::config::{
    build_config, joined, keys_of, merged_config_ok, split_config_ok, VendorConfig,
};
use crate::origin::{
    dir_name_of, is_git, is_local_path, origin_eq, origin_is_git, origin_same, source_id_to_dir_name,
    GitRef, Origin,
};
use crate::package::{
    collect_packages, collect_spec, protected_spec, ResolvedPackage,
};
use crate::plan::{
    any_outranked, describes_disallowed_error, describes_dup_error, dst_name_of, entries_ok,
    has_dup, needs_suffix, plan_entries, VendorError,
};
use crate::text::{push_char, str_eq, str_starts_with};

verus! {

/// The switches of one run.
#[derive(Debug)]
pub struct SyncOptions {
    /// Give every destination a version suffix.
    pub explicit_version: bool,
    /// Keep stale entries instead of deleting them.
    pub no_delete: bool,
    /// Refuse two versions of one package name.
    pub disallow_duplicates: bool,
    /// Emit the vendor path as given rather than anchored to the
    /// working directory.
    pub use_relative_path: bool,
    /// Vendor only version-control packages; others are neither copied
    /// nor deleted.
    pub only_git_deps: bool,
    /// One flat vendor directory, rather than one subdirectory per origin.
    pub merge_sources: bool,
}

/// What the caller found on disk before the run.
#[derive(Debug)]
pub struct DiskFacts {
    /// Directories under the source roots that directly hold a package
    /// manifest: the candidates for pruning.
    pub existing_crates: Vec<String>,
    /// Destination directories that already hold a checksum manifest.
    pub manifest_dirs: Vec<String>,
}

/// One package's planned destination and the copy-or-skip decision.
#[derive(Debug)]
pub struct PlannedEntry {
    /// Index into the collected package list.
    pub pkg_index: usize,
    /// Destination directory name (with version suffix when required).
    pub dst_name: String,
    pub has_suffix: bool,
    /// False when only-git filtering leaves this package alone.
    pub included: bool,
    /// Full destination path.
    pub dst: String,
    /// Whether the package's files must be copied this run. A suffixed
    /// destination that already has a checksum manifest is immutable and
    /// is skipped; an unsuffixed (primary) destination is always
    /// refreshed.
    pub copy: bool,
}

/// The complete plan of one run.
#[derive(Debug)]
pub struct SyncPlan {
    /// The collected packages; each entry's `pkg_index` points here.
    pub packages: Vec<ResolvedPackage>,
    /// One entry per collected package, in order.
    pub entries: Vec<PlannedEntry>,
    /// The distinct origins of the included packages, first-seen order.
    pub origins_used: Vec<Origin>,
    /// Split layout: the per-origin subdirectory names used this run.
    pub used_source_names: Vec<String>,
    /// Split layout: the full paths of those subdirectories, to create.
    pub create_source_dirs: Vec<String>,
    /// Destination paths to delete recursively, in on-disk listing order.
    pub stale: Vec<String>,
    /// The replacement-source document to emit.
    pub config: VendorConfig,
}

/// Whether a collected package takes part in this run.
pub open spec fn included_spec(p: ResolvedPackage, only_git: bool) -> bool {
    !only_git || is_git(p.origin)
}

/// The full destination path of a package: directly under the vendor
/// directory in the merged layout, under the origin's subdirectory in the
/// split layout.
pub open spec fn dst_of(vendor: Seq<char>, merge: bool, o: Origin, name: Seq<char>) -> Seq<char> {
    if merge {
        joined(vendor, name)
    } else {
        joined(joined(vendor, dir_name_of(o)), name)
    }
}

/// One planned entry is right for package `i`.
pub open spec fn planned_entry_ok(
    pkgs: Seq<ResolvedPackage>,
    vendor: Seq<char>,
    explicit: bool,
    only_git: bool,
    merge: bool,
    manifest_dirs: Seq<Seq<char>>,
    e: PlannedEntry,
    i: int,
) -> bool {
    &&& e.pkg_index == i
    &&& e.has_suffix == needs_suffix(pkgs, i, explicit)
    &&& e.dst_name@ == dst_name_of(pkgs, i, explicit)
    &&& e.included == included_spec(pkgs[i], only_git)
    &&& e.dst@ == dst_of(vendor, merge, pkgs[i].origin, dst_name_of(pkgs, i, explicit))
    &&& e.copy == (e.included && !(e.has_suffix && manifest_dirs.contains(e.dst@)))
}

/// The whole entry list is right.
pub open spec fn planned_ok(
    pkgs: Seq<ResolvedPackage>,
    vendor: Seq<char>,
    explicit: bool,
    only_git: bool,
    merge: bool,
    manifest_dirs: Seq<Seq<char>>,
    entries: Seq<PlannedEntry>,
) -> bool {
    &&& entries.len() == pkgs.len()
    &&& forall|i: int|
        0 <= i < entries.len() ==> #[trigger] planned_entry_ok(
            pkgs,
            vendor,
            explicit,
            only_git,
            merge,
            manifest_dirs,
            entries[i],
            i,
        )
}

/// A path is touched by the run when it is some entry's destination
/// (copied or not: skipped and filtered destinations stay) or a protected
/// local-path package inside the vendor directory.
pub open spec fn is_touched_spec(
    entries: Seq<PlannedEntry>,
    protected: Seq<Seq<char>>,
    x: Seq<char>,
) -> bool {
    (exists|i: int| 0 <= i < entries.len() && (#[trigger] entries[i]).dst@ == x)
        || protected.contains(x)
}

/// The stale paths: the existing crate directories not touched this run,
/// in listing order.
pub open spec fn spec_stale(
    existing: Seq<Seq<char>>,
    entries: Seq<PlannedEntry>,
    protected: Seq<Seq<char>>,
) -> Seq<Seq<char>>
    decreases existing.len(),
{
    if existing.len() == 0 {
        Seq::empty()
    } else {
        let rest = spec_stale(existing.drop_last(), entries, protected);
        if is_touched_spec(entries, protected, existing.last()) {
            rest
        } else {
            rest.push(existing.last())
        }
    }
}

/// A path is stale exactly when it existed and was not touched.
pub proof fn lemma_stale_membership(
    existing: Seq<Seq<char>>,
    entries: Seq<PlannedEntry>,
    protected: Seq<Seq<char>>,
    x: Seq<char>,
)
    ensures
        spec_stale(existing, entries, protected).contains(x) <==> (existing.contains(x)
            && !is_touched_spec(entries, protected, x)),
    decreases existing.len(),
{
    if existing.len() == 0 {
    } else {
        lemma_stale_membership(existing.drop_last(), entries, protected, x);
        let s = spec_stale(existing, entries, protected);
        let rest = spec_stale(existing.drop_last(), entries, protected);
        let last = existing.last();
        if existing.contains(x) && !is_touched_spec(entries, protected, x) {
            if x == last {
                assert(s == rest.push(last));
                assert(s[s.len() - 1] == x);
                assert(s.contains(x));
            } else {
                let w = choose|w: int| 0 <= w < existing.len() && existing[w] == x;
                assert(existing.drop_last()[w] == x);
                assert(existing.drop_last().contains(x));
                let v = choose|v: int| 0 <= v < rest.len() && rest[v] == x;
                if is_touched_spec(entries, protected, last) {
                    assert(s == rest);
                } else {
                    assert(s == rest.push(last));
                    assert(s[v] == x);
                }
                assert(s.contains(x));
            }
        }
        if s.contains(x) {
            let w = choose|w: int| 0 <= w < s.len() && s[w] == x;
            if is_touched_spec(entries, protected, last) {
                assert(s == rest);
                assert(rest.contains(x));
            } else {
                assert(s == rest.push(last));
                if w < s.len() - 1 {
                    assert(rest[w] == x);
                    assert(rest.contains(x));
                } else {
                    assert(x == last);
                    assert(existing[existing.len() - 1] == x);
                    assert(existing.contains(x));
                }
            }
            if rest.contains(x) {
                assert(existing.drop_last().contains(x));
                let v = choose|v: int|
                    0 <= v < existing.drop_last().len() && existing.drop_last()[v] == x;
                assert(existing[v] == x);
                assert(existing.contains(x));
            }
        }
    }
}

/// The per-origin subdirectory names of the included packages, first
/// occurrence kept.
pub open spec fn spec_used_names(pkgs: Seq<ResolvedPackage>, only_git: bool) -> Seq<Seq<char>>
    decreases pkgs.len(),
{
    if pkgs.len() == 0 {
        Seq::empty()
    } else {
        let rest = spec_used_names(pkgs.drop_last(), only_git);
        if included_spec(pkgs.last(), only_git) && !rest.contains(
            dir_name_of(pkgs.last().origin),
        ) {
            rest.push(dir_name_of(pkgs.last().origin))
        } else {
            rest
        }
    }
}

/// Those names, each joined under the vendor directory.
pub open spec fn full_paths(vendor: Seq<char>, names: Seq<Seq<char>>) -> Seq<Seq<char>> {
    names.map_values(|n: Seq<char>| joined(vendor, n))
}

proof fn lemma_full_paths_push(vendor: Seq<char>, names: Seq<Seq<char>>, n: Seq<char>)
    ensures
        full_paths(vendor, names.push(n)) =~= full_paths(vendor, names).push(joined(vendor, n)),
{
    assert forall|j: int| 0 <= j < names.len() + 1 implies full_paths(vendor, names.push(n))[j]
        == full_paths(vendor, names).push(joined(vendor, n))[j] by {
        if j < names.len() {
            assert(names.push(n)[j] == names[j]);
        } else {
            assert(names.push(n)[j] == n);
        }
    }
}

pub open spec fn origins_contains(s: Seq<Origin>, o: Origin) -> bool {
    exists|i: int| 0 <= i < s.len() && origin_eq(#[trigger] s[i], o)
}

/// The distinct origins of the included packages, first occurrence kept.
pub open spec fn spec_used_origins(pkgs: Seq<ResolvedPackage>, only_git: bool) -> Seq<Origin>
    decreases pkgs.len(),
{
    if pkgs.len() == 0 {
        Seq::empty()
    } else {
        let rest = spec_used_origins(pkgs.drop_last(), only_git);
        if included_spec(pkgs.last(), only_git) && !origins_contains(rest, pkgs.last().origin) {
            rest.push(pkgs.last().origin)
        } else {
            rest
        }
    }
}

/// The vendor path as written into the emitted document: the given path
/// itself in relative mode, else anchored to the working directory (an
/// absolute path stands alone).
pub open spec fn config_dir_of(
    cwd: Seq<char>,
    local_dst: Seq<char>,
    use_relative: bool,
) -> Seq<char> {
    if use_relative {
        local_dst
    } else if local_dst.len() > 0 && local_dst[0] == '/' {
        local_dst
    } else {
        joined(cwd, local_dst)
    }
}

/// The vendor directory must be wiped before the run when the split
/// layout's index file disagrees with the requested layout: what is on
/// disk was laid out the other way.
pub fn should_reset_vendor_dir(sources_file_exists: bool, merge_sources: bool) -> (r: bool)
    ensures
        r == (sources_file_exists == merge_sources),
{
    sources_file_exists == merge_sources
}

fn is_absolute_path(s: &str) -> (r: bool)
    ensures
        r == (s@.len() > 0 && s@[0] == '/'),
{
    let r = str_starts_with(s, "/");
    proof {
        reveal_strlit("/");
        if s@.len() > 0 {
            assert(s@.take(1)[0] == s@[0]);
            if s@[0] == '/' {
                assert(s@.take(1) =~= "/"@);
            }
        }
    }
    r
}

/// Scans a string list for a value.
pub fn vec_contains_str(v: &Vec<String>, x: &str) -> (r: bool)
    ensures
        r == v.deep_view().contains(x@),
{
    let mut i: usize = 0;
    while i < v.len()
        invariant
            i <= v@.len(),
            v.deep_view().len() == v@.len(),
            forall|j: int| 0 <= j < i ==> v.deep_view()[j] != x@,
        decreases v@.len() - i,
    {
        proof {
            assert(v.deep_view()[i as int] == v@[i as int]@);
        }
        if str_eq(v[i].as_str(), x) {
            return true;
        }
        i = i + 1;
    }
    false
}

fn is_touched(entries: &Vec<PlannedEntry>, protected: &Vec<String>, x: &str) -> (r: bool)
    ensures
        r == is_touched_spec(entries@, protected.deep_view(), x@),
{
    let mut i: usize = 0;
    while i < entries.len()
        invariant
            i <= entries@.len(),
            forall|j: int| 0 <= j < i ==> (#[trigger] entries@[j]).dst@ != x@,
        decreases entries@.len() - i,
    {
        if str_eq(entries[i].dst.as_str(), x) {
            return true;
        }
        i = i + 1;
    }
    vec_contains_str(protected, x)
}

fn clone_origin(o: &Origin) -> (r: Origin)
    ensures
        origin_eq(r, *o),
        is_local_path(r) == is_local_path(*o),
{
    match o {
        Origin::Registry { index_url } => Origin::Registry { index_url: index_url.clone() },
        Origin::Git { url, reference } => Origin::Git {
            url: url.clone(),
            reference: match reference {
                GitRef::Branch(b) => GitRef::Branch(b.clone()),
                GitRef::Tag(t) => GitRef::Tag(t.clone()),
                GitRef::Rev(v) => GitRef::Rev(v.clone()),
            },
        },
        Origin::LocalPath { path } => Origin::LocalPath { path: path.clone() },
    }
}

/// No collected package has a local-path origin.
proof fn lemma_collect_non_local(s: Seq<ResolvedPackage>)
    ensures
        forall|i: int|
            0 <= i < collect_spec(s).len() ==> !is_local_path(
                (#[trigger] collect_spec(s)[i]).origin,
            ),
    decreases s.len(),
{
    if s.len() > 0 {
        lemma_collect_non_local(s.drop_last());
        let rest = collect_spec(s.drop_last());
        assert forall|i: int| 0 <= i < collect_spec(s).len() implies !is_local_path(
            (#[trigger] collect_spec(s)[i]).origin,
        ) by {
            if i < rest.len() {
                assert(collect_spec(s)[i] == rest[i]);
            }
        }
    }
}

/// No used origin is a local path.
proof fn lemma_used_origins_non_local(pkgs: Seq<ResolvedPackage>, only_git: bool)
    requires
        forall|i: int| 0 <= i < pkgs.len() ==> !is_local_path((#[trigger] pkgs[i]).origin),
    ensures
        forall|i: int|
            0 <= i < spec_used_origins(pkgs, only_git).len() ==> !is_local_path(
                #[trigger] spec_used_origins(pkgs, only_git)[i],
            ),
    decreases pkgs.len(),
{
    if pkgs.len() > 0 {
        assert(forall|i: int|
            0 <= i < pkgs.drop_last().len() ==> !is_local_path(
                (#[trigger] pkgs.drop_last()[i]).origin,
            )) by {
            assert(forall|i: int|
                0 <= i < pkgs.drop_last().len() ==> pkgs.drop_last()[i] == pkgs[i]);
        }
        lemma_used_origins_non_local(pkgs.drop_last(), only_git);
        let rest = spec_used_origins(pkgs.drop_last(), only_git);
        assert forall|i: int| 0 <= i < spec_used_origins(pkgs, only_git).len() implies !is_local_path(
            #[trigger] spec_used_origins(pkgs, only_git)[i],
        ) by {
            if i < rest.len() {
                assert(spec_used_origins(pkgs, only_git)[i] == rest[i]);
            } else {
                assert(pkgs.contains(pkgs.last())) by {
                    assert(pkgs[pkgs.len() - 1] == pkgs.last());
                }
            }
        }
    }
}

/// Plans one run. `resolved` is the concatenation, in workspace order, of
/// the workspaces' resolved package sets; `vendor_dir` is the canonical
/// path of the vendor directory; `cwd` and `local_dst` are the working
/// directory and the vendor path as the user gave it, for the emitted
/// document. The caller gathers `disk` beforehand and executes the plan
/// afterwards: copies (through [`crate::files::cp_sources`]), deletions
/// of the stale paths, and the document's emission.
pub fn sync(
    resolved: Vec<ResolvedPackage>,
    vendor_dir: &String,
    cwd: &String,
    local_dst: &String,
    opts: &SyncOptions,
    disk: &DiskFacts,
) -> (r: Result<SyncPlan, VendorError>)
    ensures
        match r {
            Result::Ok(plan) => {
                let pkgs = collect_spec(resolved@);
                let cdir = config_dir_of(cwd@, local_dst@, opts.use_relative_path);
                &&& plan.packages@ == pkgs
                &&& planned_ok(
                    pkgs,
                    vendor_dir@,
                    opts.explicit_version,
                    opts.only_git_deps,
                    opts.merge_sources,
                    disk.manifest_dirs.deep_view(),
                    plan.entries@,
                )
                &&& (opts.merge_sources ==> !has_dup(pkgs))
                &&& (opts.disallow_duplicates && !opts.explicit_version ==> !any_outranked(pkgs))
                &&& (opts.no_delete ==> plan.stale@.len() == 0)
                &&& (!opts.no_delete ==> plan.stale.deep_view() == spec_stale(
                    disk.existing_crates.deep_view(),
                    plan.entries@,
                    protected_spec(resolved@, vendor_dir@),
                ))
                &&& (opts.merge_sources ==> plan.used_source_names@.len() == 0
                    && plan.create_source_dirs@.len() == 0)
                &&& (!opts.merge_sources ==> plan.used_source_names.deep_view()
                    == spec_used_names(pkgs, opts.only_git_deps))
                &&& (!opts.merge_sources ==> plan.create_source_dirs.deep_view() == full_paths(
                    vendor_dir@,
                    spec_used_names(pkgs, opts.only_git_deps),
                ))
                &&& plan.origins_used@.len() == spec_used_origins(pkgs, opts.only_git_deps).len()
                &&& (forall|i: int|
                    0 <= i < plan.origins_used@.len() ==> origin_eq(
                        #[trigger] plan.origins_used@[i],
                        spec_used_origins(pkgs, opts.only_git_deps)[i],
                    ))
                &&& keys_of(plan.config.source@).no_duplicates()
                &&& (opts.merge_sources ==> merged_config_ok(
                    plan.origins_used@,
                    cdir,
                    plan.config.source@,
                ))
                &&& (!opts.merge_sources ==> split_config_ok(
                    plan.origins_used@,
                    cdir,
                    plan.config.source@,
                ))
            },
            Result::Err(e) => {
                let pkgs = collect_spec(resolved@);
                ||| (opts.merge_sources && describes_dup_error(pkgs, e))
                ||| (opts.disallow_duplicates && !opts.explicit_version && !(opts.merge_sources
                    && has_dup(pkgs)) && describes_disallowed_error(pkgs, e))
            },
        },
        r is Ok <==> !((opts.merge_sources && has_dup(collect_spec(resolved@))) || (
        opts.disallow_duplicates && !opts.explicit_version && any_outranked(
            collect_spec(resolved@),
        ))),
{
    let ghost resolved_view = resolved@;
    let (collected, protected) = collect_packages(resolved, vendor_dir);
    let planned = match plan_entries(
        &collected,
        opts.explicit_version,
        opts.disallow_duplicates,
        opts.merge_sources,
    ) {
        Result::Ok(v) => v,
        Result::Err(e) => {
            return Result::Err(e);
        },
    };
    let ghost pkgs = collected@;
    proof {
        lemma_collect_non_local(resolved_view);
    }

    // full destinations and copy-or-skip decisions
    let mut entries: Vec<PlannedEntry> = Vec::new();
    let mut i: usize = 0;
    while i < planned.len()
        invariant
            entries_ok(pkgs, planned@, opts.explicit_version),
            pkgs == collected@,
            forall|k: int| 0 <= k < pkgs.len() ==> !is_local_path((#[trigger] pkgs[k]).origin),
            planned@.len() == pkgs.len(),
            i <= planned@.len(),
            entries@.len() == i,
            forall|k: int|
                0 <= k < i ==> #[trigger] planned_entry_ok(
                    pkgs,
                    vendor_dir@,
                    opts.explicit_version,
                    opts.only_git_deps,
                    opts.merge_sources,
                    disk.manifest_dirs.deep_view(),
                    entries@[k],
                    k,
                ),
        decreases planned@.len() - i,
    {
        let included = if opts.only_git_deps {
            origin_is_git(&collected[i].origin)
        } else {
            true
        };
        let mut dst = vendor_dir.clone();
        push_char(&mut dst, '/');
        if !opts.merge_sources {
            let sub = source_id_to_dir_name(&collected[i].origin);
            dst.append(sub.as_str());
            push_char(&mut dst, '/');
        }
        dst.append(planned[i].dst_name.as_str());
        proof {
            assert(dst@ =~= dst_of(
                vendor_dir@,
                opts.merge_sources,
                pkgs[i as int].origin,
                dst_name_of(pkgs, i as int, opts.explicit_version),
            ));
        }
        let has_suffix = planned[i].has_suffix;
        let skip = has_suffix && vec_contains_str(&disk.manifest_dirs, dst.as_str());
        let copy = included && !skip;
        entries.push(
            PlannedEntry {
                pkg_index: i,
                dst_name: planned[i].dst_name.clone(),
                has_suffix,
                included,
                dst,
                copy,
            },
        );
        i = i + 1;
    }

    // per-origin subdirectories of the split layout, and the distinct
    // origins for the emitted document
    let mut used_source_names: Vec<String> = Vec::new();
    let mut create_source_dirs: Vec<String> = Vec::new();
    let mut origins_used: Vec<Origin> = Vec::new();
    let mut j: usize = 0;
    proof {
        assert(pkgs.take(0) =~= Seq::<ResolvedPackage>::empty());
        assert(used_source_names.deep_view() =~= spec_used_names(
            pkgs.take(0),
            opts.only_git_deps,
        ));
        assert(create_source_dirs.deep_view() =~= full_paths(
            vendor_dir@,
            spec_used_names(pkgs.take(0), opts.only_git_deps),
        ));
    }
    while j < collected.len()
        invariant
            pkgs == collected@,
            forall|k: int| 0 <= k < pkgs.len() ==> !is_local_path((#[trigger] pkgs[k]).origin),
            j <= pkgs.len(),
            opts.merge_sources ==> used_source_names@.len() == 0 && create_source_dirs@.len()
                == 0,
            !opts.merge_sources ==> used_source_names.deep_view() == spec_used_names(
                pkgs.take(j as int),
                opts.only_git_deps,
            ),
            !opts.merge_sources ==> create_source_dirs.deep_view() == full_paths(
                vendor_dir@,
                spec_used_names(pkgs.take(j as int), opts.only_git_deps),
            ),
            origins_used@.len() == spec_used_origins(pkgs.take(j as int), opts.only_git_deps).len(),
            forall|k: int|
                0 <= k < origins_used@.len() ==> origin_eq(
                    #[trigger] origins_used@[k],
                    spec_used_origins(pkgs.take(j as int), opts.only_git_deps)[k],
                ),
            forall|k: int|
                0 <= k < origins_used@.len() ==> is_local_path(#[trigger] origins_used@[k])
                    == is_local_path(spec_used_origins(pkgs.take(j as int), opts.only_git_deps)[k]),
        decreases pkgs.len() - j,
    {
        let ghost prefix = pkgs.take(j as int);
        let ghost prefix1 = pkgs.take(j + 1);
        proof {
            assert(prefix1.drop_last() =~= prefix);
            assert(prefix1.last() == pkgs[j as int]);
        }
        let included = if opts.only_git_deps {
            origin_is_git(&collected[j].origin)
        } else {
            true
        };
        if included {
            if !opts.merge_sources {
                let name = source_id_to_dir_name(&collected[j].origin);
                if !vec_contains_str(&used_source_names, name.as_str()) {
                    let mut full = vendor_dir.clone();
                    push_char(&mut full, '/');
                    full.append(name.as_str());
                    proof {
                        assert(full@ =~= joined(vendor_dir@, name@));
                    }
                    used_source_names.push(name);
                    create_source_dirs.push(full);
                }
            }
            let mut seen = false;
            let mut t: usize = 0;
            while t < origins_used.len()
                invariant
                    pkgs == collected@,
                    j < pkgs.len(),
                    t <= origins_used@.len(),
                    seen == exists|x: int|
                        0 <= x < t && origin_eq(
                            #[trigger] origins_used@[x],
                            pkgs[j as int].origin,
                        ),
                decreases origins_used@.len() - t,
            {
                if origin_same(&origins_used[t], &collected[j].origin) {
                    seen = true;
                }
                t = t + 1;
            }
            if !seen {
                origins_used.push(clone_origin(&collected[j].origin));
            }
            proof {
                if !seen {
                    assert(!origins_contains(
                        spec_used_origins(prefix, opts.only_git_deps),
                        pkgs[j as int].origin,
                    )) by {
                        if origins_contains(
                            spec_used_origins(prefix, opts.only_git_deps),
                            pkgs[j as int].origin,
                        ) {
                            let x = choose|x: int|
                                0 <= x < spec_used_origins(prefix, opts.only_git_deps).len()
                                    && origin_eq(
                                    #[trigger] spec_used_origins(prefix, opts.only_git_deps)[x],
                                    pkgs[j as int].origin,
                                );
                            lemma_origin_eq_transfer(
                                origins_used@[x],
                                spec_used_origins(prefix, opts.only_git_deps)[x],
                                pkgs[j as int].origin,
                            );
                        }
                    }
                } else {
                    assert(origins_contains(
                        spec_used_origins(prefix, opts.only_git_deps),
                        pkgs[j as int].origin,
                    )) by {
                        let x = choose|x: int|
                            0 <= x < origins_used@.len() && origin_eq(
                                #[trigger] origins_used@[x],
                                pkgs[j as int].origin,
                            );
                        lemma_origin_eq_transfer2(
                            origins_used@[x],
                            spec_used_origins(prefix, opts.only_git_deps)[x],
                            pkgs[j as int].origin,
                        );
                    }
                }
            }
        }
        j = j + 1;
        proof {
            if !opts.merge_sources {
                lemma_full_paths_push(
                    vendor_dir@,
                    spec_used_names(prefix, opts.only_git_deps),
                    dir_name_of(prefix1.last().origin),
                );
                assert(used_source_names.deep_view() =~= spec_used_names(
                    prefix1,
                    opts.only_git_deps,
                ));
                assert(create_source_dirs.deep_view() =~= full_paths(
                    vendor_dir@,
                    spec_used_names(prefix1, opts.only_git_deps),
                ));
            }
        }
    }
    proof {
        assert(pkgs.take(pkgs.len() as int) =~= pkgs);
    }

    // the stale paths
    let mut stale: Vec<String> = Vec::new();
    if !opts.no_delete {
        let mut s: usize = 0;
        proof {
            assert(disk.existing_crates.deep_view().take(0) =~= Seq::<Seq<char>>::empty());
            assert(stale.deep_view() =~= spec_stale(
                disk.existing_crates.deep_view().take(0),
                entries@,
                protected.deep_view(),
            ));
        }
        while s < disk.existing_crates.len()
            invariant
                s <= disk.existing_crates@.len(),
                disk.existing_crates.deep_view().len() == disk.existing_crates@.len(),
                stale.deep_view() == spec_stale(
                    disk.existing_crates.deep_view().take(s as int),
                    entries@,
                    protected.deep_view(),
                ),
            decreases disk.existing_crates@.len() - s,
        {
            proof {
                assert(disk.existing_crates.deep_view()[s as int] == disk.existing_crates@[s as int]@);
            }
            if !is_touched(&entries, &protected, disk.existing_crates[s].as_str()) {
                stale.push(disk.existing_crates[s].clone());
            }
            s = s + 1;
            proof {
                let p = disk.existing_crates.deep_view().take(s as int);
                assert(p.drop_last() =~= disk.existing_crates.deep_view().take(s - 1));
                assert(p.last() == disk.existing_crates.deep_view()[s - 1]);
                assert(stale.deep_view() =~= spec_stale(p, entries@, protected.deep_view()));
            }
        }
        proof {
            assert(disk.existing_crates.deep_view().take(disk.existing_crates@.len() as int)
                =~= disk.existing_crates.deep_view());
        }
    }

    // the emitted document
    let config_dir = if opts.use_relative_path {
        local_dst.clone()
    } else {
        if is_absolute_path(local_dst.as_str()) {
            local_dst.clone()
        } else {
            let mut d = cwd.clone();
            push_char(&mut d, '/');
            d.append(local_dst.as_str());
            proof {
                assert(d@ =~= joined(cwd@, local_dst@));
            }
            d
        }
    };
    proof {
        assert(config_dir@ == config_dir_of(cwd@, local_dst@, opts.use_relative_path));
        lemma_used_origins_non_local(pkgs, opts.only_git_deps);
    }
    let config = build_config(&origins_used, &config_dir, opts.merge_sources);

    Result::Ok(
        SyncPlan {
            packages: collected,
            entries,
            origins_used,
            used_source_names,
            create_source_dirs,
            stale,
            config,
        },
    )
}

/// The index entries removed by reconciliation: recorded by an earlier
/// run, unused now, and empty after pruning.
pub open spec fn spec_removed_sources(
    old: Seq<Seq<char>>,
    used: Seq<Seq<char>>,
    empty: Seq<Seq<char>>,
) -> Seq<Seq<char>>
    decreases old.len(),
{
    if old.len() == 0 {
        Seq::empty()
    } else {
        let rest = spec_removed_sources(old.drop_last(), used, empty);
        if !used.contains(old.last()) && empty.contains(old.last()) {
            rest.push(old.last())
        } else {
            rest
        }
    }
}

/// The index entries kept besides the used ones: unused this run but
/// still holding entries (of a mode this run excluded).
pub open spec fn spec_kept_sources(
    old: Seq<Seq<char>>,
    used: Seq<Seq<char>>,
    nonempty: Seq<Seq<char>>,
) -> Seq<Seq<char>>
    decreases old.len(),
{
    if old.len() == 0 {
        Seq::empty()
    } else {
        let rest = spec_kept_sources(old.drop_last(), used, nonempty);
        if !used.contains(old.last()) && nonempty.contains(old.last()) {
            rest.push(old.last())
        } else {
            rest
        }
    }
}

/// Reconciles the split layout's persisted source index after pruning:
/// a previously recorded origin subdirectory not used this run is removed
/// when now empty, kept in the index when it still holds entries, and
/// silently dropped when gone. Returns the subdirectory names to remove
/// and the new index contents.
pub fn reconcile_sources(
    old_index: &Vec<String>,
    used: &Vec<String>,
    empty_dirs: &Vec<String>,
    nonempty_dirs: &Vec<String>,
) -> (r: (Vec<String>, Vec<String>))
    ensures
        r.0.deep_view() == spec_removed_sources(
            old_index.deep_view(),
            used.deep_view(),
            empty_dirs.deep_view(),
        ),
        r.1.deep_view() == used.deep_view() + spec_kept_sources(
            old_index.deep_view(),
            used.deep_view(),
            nonempty_dirs.deep_view(),
        ),
{
    let mut remove: Vec<String> = Vec::new();
    let mut new_index: Vec<String> = Vec::new();
    let mut u: usize = 0;
    while u < used.len()
        invariant
            u <= used@.len(),
            used.deep_view().len() == used@.len(),
            new_index.deep_view() == used.deep_view().take(u as int),
        decreases used@.len() - u,
    {
        proof {
            assert(used.deep_view()[u as int] == used@[u as int]@);
        }
        let ghost nb = new_index.deep_view();
        let c = used[u].clone();
        let ghost cc = c@;
        new_index.push(c);
        u = u + 1;
        proof {
            assert(new_index.deep_view() =~= nb.push(cc));
            assert(new_index.deep_view() =~= used.deep_view().take(u as int));
        }
    }
    proof {
        assert(used.deep_view().take(used@.len() as int) =~= used.deep_view());
    }
    let mut o: usize = 0;
    proof {
        assert(old_index.deep_view().take(0) =~= Seq::<Seq<char>>::empty());
        assert(remove.deep_view() =~= spec_removed_sources(
            old_index.deep_view().take(0),
            used.deep_view(),
            empty_dirs.deep_view(),
        ));
        assert(new_index.deep_view() =~= used.deep_view() + spec_kept_sources(
            old_index.deep_view().take(0),
            used.deep_view(),
            nonempty_dirs.deep_view(),
        ));
    }
    while o < old_index.len()
        invariant
            o <= old_index@.len(),
            old_index.deep_view().len() == old_index@.len(),
            remove.deep_view() == spec_removed_sources(
                old_index.deep_view().take(o as int),
                used.deep_view(),
                empty_dirs.deep_view(),
            ),
            new_index.deep_view() == used.deep_view() + spec_kept_sources(
                old_index.deep_view().take(o as int),
                used.deep_view(),
                nonempty_dirs.deep_view(),
            ),
        decreases old_index@.len() - o,
    {
        proof {
            assert(old_index.deep_view()[o as int] == old_index@[o as int]@);
        }
        let name = &old_index[o];
        if !vec_contains_str(used, name.as_str()) {
            if vec_contains_str(empty_dirs, name.as_str()) {
                let ghost rb = remove.deep_view();
                remove.push(name.clone());
                proof {
                    assert(remove.deep_view() =~= rb.push(name@));
                }
            }
            if vec_contains_str(nonempty_dirs, name.as_str()) {
                let ghost nb = new_index.deep_view();
                new_index.push(name.clone());
                proof {
                    assert(new_index.deep_view() =~= nb.push(name@));
                }
            }
        }
        o = o + 1;
        proof {
            let p = old_index.deep_view().take(o as int);
            assert(p.drop_last() =~= old_index.deep_view().take(o - 1));
            assert(p.last() == old_index.deep_view()[o - 1]);
            assert(remove.deep_view() =~= spec_removed_sources(
                p,
                used.deep_view(),
                empty_dirs.deep_view(),
            ));
            assert(new_index.deep_view() =~= used.deep_view() + spec_kept_sources(
                p,
                used.deep_view(),
                nonempty_dirs.deep_view(),
            ));
        }
    }
    proof {
        assert(old_index.deep_view().take(old_index@.len() as int) =~= old_index.deep_view());
    }
    (remove, new_index)
}

proof fn lemma_origin_eq_transfer(a: Origin, b: Origin, c: Origin)
    requires
        origin_eq(a, b),
        origin_eq(b, c),
    ensures
        origin_eq(a, c),
{
}

proof fn lemma_origin_eq_transfer2(a: Origin, b: Origin, c: Origin)
    requires
        origin_eq(a, b),
        origin_eq(a, c),
    ensures
        origin_eq(b, c),
{
}

} // verus!
