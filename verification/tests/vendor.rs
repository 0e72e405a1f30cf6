use cargo_vendor::engine::{reconcile_sources, should_reset_vendor_dir, sync, DiskFacts, SyncOptions};
use cargo_vendor::config::VendorSource;
use cargo_vendor::origin::{GitRef, Origin};
use cargo_vendor::package::ResolvedPackage;
use cargo_vendor::plan::{error_message, VendorError};
use cargo_vendor::version::{version_to_string, Version};

fn ver(major: u64, minor: u64, patch: u64) -> Version {
    Version { major, minor, patch, pre: Vec::new(), build: Vec::new() }
}

fn crates_io() -> Origin {
    Origin::Registry { index_url: "https://github.com/rust-lang/crates.io-index".to_string() }
}

fn reg_pkg(name: &str, v: Version) -> ResolvedPackage {
    ResolvedPackage {
        name: name.to_string(),
        version: v,
        origin: crates_io(),
        src_path: format!("/cache/{}", name),
        file_list: None,
        checksum: Some("0123456789abcdef".to_string()),
    }
}

fn git_pkg(name: &str, v: Version, url: &str, branch: &str) -> ResolvedPackage {
    ResolvedPackage {
        name: name.to_string(),
        version: v,
        origin: Origin::Git {
            url: url.to_string(),
            reference: GitRef::Branch(branch.to_string()),
        },
        src_path: format!("/cache/git/{}", name),
        file_list: None,
        checksum: None,
    }
}

fn opts() -> SyncOptions {
    SyncOptions {
        explicit_version: false,
        no_delete: false,
        disallow_duplicates: false,
        use_relative_path: false,
        only_git_deps: false,
        merge_sources: true,
    }
}

fn empty_disk() -> DiskFacts {
    DiskFacts { existing_crates: Vec::new(), manifest_dirs: Vec::new() }
}

fn run(
    resolved: Vec<ResolvedPackage>,
    options: &SyncOptions,
    disk: &DiskFacts,
) -> Result<cargo_vendor::engine::SyncPlan, VendorError> {
    let vendor = "/work/vendor".to_string();
    let cwd = "/work".to_string();
    let local = "vendor".to_string();
    sync(resolved, &vendor, &cwd, &local, options, disk)
}

#[test]
fn vendor_simple() {
    let plan = run(vec![reg_pkg("log", ver(0, 3, 5))], &opts(), &empty_disk()).unwrap();
    assert_eq!(plan.entries.len(), 1);
    let e = &plan.entries[0];
    assert_eq!(e.dst_name, "log");
    assert!(!e.has_suffix);
    assert!(e.included);
    assert!(e.copy);
    assert_eq!(e.dst, "/work/vendor/log");
    // the merged layout needs no per-origin subdirectories
    assert!(plan.create_source_dirs.is_empty());
    assert!(plan.used_source_names.is_empty());
    // the emitted document redirects crates.io at the vendor directory
    assert_eq!(plan.config.source.len(), 2);
    assert_eq!(plan.config.source[0].0, "vendored-sources");
    match &plan.config.source[0].1 {
        VendorSource::Directory { directory } => assert_eq!(directory, "/work/vendor"),
        _ => panic!("expected a directory source"),
    }
    assert_eq!(plan.config.source[1].0, "crates-io");
    match &plan.config.source[1].1 {
        VendorSource::Registry { registry, replace_with } => {
            assert!(registry.is_none());
            assert_eq!(replace_with, "vendored-sources");
        },
        _ => panic!("expected a registry block"),
    }
}

#[test]
fn two_versions() {
    let plan = run(
        vec![reg_pkg("bitflags", ver(0, 8, 0)), reg_pkg("bitflags", ver(0, 7, 0))],
        &opts(),
        &empty_disk(),
    )
    .unwrap();
    assert_eq!(plan.entries.len(), 2);
    assert_eq!(plan.entries[0].dst_name, "bitflags");
    assert!(!plan.entries[0].has_suffix);
    assert_eq!(plan.entries[1].dst_name, "bitflags-0.7.0");
    assert!(plan.entries[1].has_suffix);
    assert!(plan.entries[0].copy && plan.entries[1].copy);
    // the unsuffixed destination holds 0.8.0, the suffixed one 0.7.0
    let v0 = &plan.packages[plan.entries[0].pkg_index].version;
    let v1 = &plan.packages[plan.entries[1].pkg_index].version;
    assert_eq!(version_to_string(v0), "0.8.0");
    assert_eq!(version_to_string(v1), "0.7.0");
}

#[test]
fn two_lockfiles() {
    // the same two versions arriving from two different workspaces
    let mut resolved = vec![reg_pkg("bitflags", ver(0, 7, 0))];
    resolved.extend(vec![reg_pkg("bitflags", ver(0, 8, 0))]);
    let plan = run(resolved, &opts(), &empty_disk()).unwrap();
    assert_eq!(plan.entries.len(), 2);
    assert_eq!(plan.entries[0].dst_name, "bitflags-0.7.0");
    assert_eq!(plan.entries[1].dst_name, "bitflags");
}

#[test]
fn update_versions() {
    // first sync 0.7.0 alone: the primary name carries no suffix
    let plan1 = run(vec![reg_pkg("bitflags", ver(0, 7, 0))], &opts(), &empty_disk()).unwrap();
    assert_eq!(plan1.entries[0].dst, "/work/vendor/bitflags");
    assert!(plan1.entries[0].copy);
    // after the manifest moves to 0.8.0, the unsuffixed destination is
    // re-copied with the new version and nothing of 0.7.0 remains
    let disk = DiskFacts {
        existing_crates: vec!["/work/vendor/bitflags".to_string()],
        manifest_dirs: vec!["/work/vendor/bitflags".to_string()],
    };
    let plan2 = run(vec![reg_pkg("bitflags", ver(0, 8, 0))], &opts(), &disk).unwrap();
    assert_eq!(plan2.entries.len(), 1);
    assert_eq!(plan2.entries[0].dst, "/work/vendor/bitflags");
    assert!(!plan2.entries[0].has_suffix);
    // the primary destination is always refreshed
    assert!(plan2.entries[0].copy);
    assert_eq!(
        version_to_string(&plan2.packages[plan2.entries[0].pkg_index].version),
        "0.8.0"
    );
    assert!(plan2.stale.is_empty());
}

#[test]
fn explicit_version_allows_duplicates() {
    // explicit suffixes give every version its own destination, so the
    // duplicate-versions refusal does not fire
    let mut o = opts();
    o.disallow_duplicates = true;
    o.explicit_version = true;
    let plan = run(
        vec![reg_pkg("bitflags", ver(0, 8, 0)), reg_pkg("bitflags", ver(0, 7, 0))],
        &o,
        &empty_disk(),
    )
    .unwrap();
    assert_eq!(plan.entries[0].dst_name, "bitflags-0.8.0");
    assert_eq!(plan.entries[1].dst_name, "bitflags-0.7.0");
}

#[test]
fn revendor_with_config() {
    // both versions vendored, then a second run over the result: the
    // suffixed directory is immutable and skipped
    let resolved =
        || vec![reg_pkg("bitflags", ver(0, 8, 0)), reg_pkg("bitflags", ver(0, 7, 0))];
    let plan1 = run(resolved(), &opts(), &empty_disk()).unwrap();
    let disk = DiskFacts {
        existing_crates: plan1.entries.iter().map(|e| e.dst.clone()).collect(),
        manifest_dirs: plan1.entries.iter().map(|e| e.dst.clone()).collect(),
    };
    let plan2 = run(resolved(), &opts(), &disk).unwrap();
    assert!(plan2.entries[0].copy, "the primary is always refreshed");
    assert!(!plan2.entries[1].copy, "the suffixed copy is skipped");
    assert!(plan2.stale.is_empty());
}

#[test]
fn delete_old_crates() {
    let plan1 = run(vec![reg_pkg("log", ver(0, 3, 5))], &opts(), &empty_disk()).unwrap();
    assert_eq!(plan1.entries[0].dst, "/work/vendor/log");
    // switch the dependency to libc: log's directory is stale
    let disk = DiskFacts {
        existing_crates: vec!["/work/vendor/log".to_string()],
        manifest_dirs: vec!["/work/vendor/log".to_string()],
    };
    let plan2 = run(vec![reg_pkg("libc", ver(0, 2, 30))], &opts(), &disk).unwrap();
    assert_eq!(plan2.entries[0].dst, "/work/vendor/libc");
    assert_eq!(plan2.stale, vec!["/work/vendor/log".to_string()]);
}

#[test]
fn no_delete_keeps_stale() {
    let disk = DiskFacts {
        existing_crates: vec!["/work/vendor/log".to_string()],
        manifest_dirs: vec!["/work/vendor/log".to_string()],
    };
    let mut o = opts();
    o.no_delete = true;
    let plan = run(vec![reg_pkg("libc", ver(0, 2, 30))], &o, &disk).unwrap();
    assert!(plan.stale.is_empty());
}

#[test]
fn git_simple() {
    let plan = run(
        vec![git_pkg("futures", ver(0, 1, 15), "https://github.com/rust-lang/futures-rs", "master")],
        &opts(),
        &empty_disk(),
    )
    .unwrap();
    assert_eq!(plan.entries[0].dst_name, "futures");
    // a version-control origin has no origin checksum: the manifest
    // records null
    let (kept, manifest) = cargo_vendor::files::cp_sources(
        &vec!["src/lib.rs".to_string()],
        &vec![b"pub fn x() {}".to_vec()],
        &None,
    );
    assert_eq!(kept, vec!["src/lib.rs".to_string()]);
    assert!(manifest.contains("\"package\":null"));
}

#[test]
fn git_duplicate() {
    let resolved = vec![
        git_pkg("futures", ver(0, 1, 15), "https://github.com/alexcrichton/futures-rs", "master"),
        git_pkg("futures", ver(0, 1, 15), "https://github.com/rust-lang/futures-rs", "master"),
    ];
    let err = run(resolved, &opts(), &empty_disk()).unwrap_err();
    let msg = error_message(&err);
    assert!(msg.contains("found duplicate version of package `futures v0.1.15`"), "{}", msg);
    assert!(msg.contains("source 1: git+https://github.com/alexcrichton/futures-rs?branch=master"));
    assert!(msg.contains("source 2: git+https://github.com/rust-lang/futures-rs?branch=master"));
}

#[test]
fn git_only() {
    let mut o = opts();
    o.only_git_deps = true;
    let plan = run(
        vec![
            git_pkg("futures", ver(0, 1, 15), "https://github.com/rust-lang/futures-rs", "master"),
            reg_pkg("log", ver(0, 3, 5)),
        ],
        &o,
        &empty_disk(),
    )
    .unwrap();
    assert!(plan.entries[0].included && plan.entries[0].copy);
    assert!(!plan.entries[1].included && !plan.entries[1].copy);
    // a registry package left alone by an only-git run is not deleted
    let disk = DiskFacts {
        existing_crates: vec!["/work/vendor/log".to_string()],
        manifest_dirs: vec!["/work/vendor/log".to_string()],
    };
    let plan2 = run(
        vec![
            git_pkg("futures", ver(0, 1, 15), "https://github.com/rust-lang/futures-rs", "master"),
            reg_pkg("log", ver(0, 3, 5)),
        ],
        &o,
        &disk,
    )
    .unwrap();
    assert!(plan2.stale.is_empty());
    // only the git origin gets a replacement block
    assert_eq!(plan2.origins_used.len(), 1);
}

#[test]
fn two_versions_disallowed() {
    let mut o = opts();
    o.disallow_duplicates = true;
    let err = run(
        vec![reg_pkg("bitflags", ver(0, 8, 0)), reg_pkg("bitflags", ver(0, 7, 0))],
        &o,
        &empty_disk(),
    )
    .unwrap_err();
    match &err {
        VendorError::DuplicateVersionsDisallowed { name, version, max_version } => {
            assert_eq!(name, "bitflags");
            assert_eq!(version, "0.7.0");
            assert_eq!(max_version, "0.8.0");
        },
        _ => panic!("expected the disallowed-duplicates error"),
    }
    let msg = error_message(&err);
    assert_eq!(
        msg,
        "found duplicate versions of package `bitflags` at 0.7.0 and 0.8.0, \
         but this was disallowed via --disallow-duplicates"
    );
}

#[test]
fn depend_on_vendor_dir_not_deleted() {
    // a path dependency living inside the vendor directory survives
    // pruning even though it is not vendored itself
    let local = ResolvedPackage {
        name: "libc".to_string(),
        version: ver(0, 2, 30),
        origin: Origin::LocalPath { path: "/work/vendor/libc".to_string() },
        src_path: "/work/vendor/libc".to_string(),
        file_list: None,
        checksum: None,
    };
    let disk = DiskFacts {
        existing_crates: vec!["/work/vendor/libc".to_string()],
        manifest_dirs: Vec::new(),
    };
    let plan = run(vec![local, reg_pkg("log", ver(0, 3, 5))], &opts(), &disk).unwrap();
    // the local-path package is not collected, yet not stale either
    assert_eq!(plan.entries.len(), 1);
    assert!(plan.stale.is_empty());
}

#[test]
fn replace_section() {
    let mut o = opts();
    o.merge_sources = false;
    let plan = run(
        vec![
            reg_pkg("log", ver(0, 3, 5)),
            git_pkg("futures", ver(0, 1, 15), "https://github.com/rust-lang/futures-rs", "master"),
        ],
        &o,
        &empty_disk(),
    )
    .unwrap();
    // two origins: a directory declaration and a block for each
    assert_eq!(plan.config.source.len(), 4);
    assert_eq!(plan.config.source[1].0, "crates-io");
    assert_eq!(plan.config.source[0].0, "vendor+crates-io");
    match &plan.config.source[1].1 {
        VendorSource::Registry { registry, replace_with } => {
            assert!(registry.is_none());
            assert_eq!(replace_with, "vendor+crates-io");
        },
        _ => panic!("expected a registry block"),
    }
    assert_eq!(plan.config.source[3].0, "https://github.com/rust-lang/futures-rs");
    match &plan.config.source[3].1 {
        VendorSource::Git { git, branch, tag, rev, replace_with } => {
            assert_eq!(git, "https://github.com/rust-lang/futures-rs");
            assert_eq!(branch.as_deref(), Some("master"));
            assert!(tag.is_none() && rev.is_none());
            assert_eq!(replace_with, &plan.config.source[2].0);
        },
        _ => panic!("expected a git block"),
    }
    // each origin lands in its own stable subdirectory, and its declared
    // directory points there
    assert_eq!(plan.used_source_names.len(), 2);
    assert!(plan.used_source_names[0].starts_with("registry-"));
    assert!(plan.used_source_names[1].starts_with("git-"));
    match &plan.config.source[0].1 {
        VendorSource::Directory { directory } => {
            assert_eq!(directory, &format!("/work/vendor/{}", plan.used_source_names[0]));
        },
        _ => panic!("expected a directory source"),
    }
    assert_eq!(
        plan.create_source_dirs[0],
        format!("/work/vendor/{}", plan.used_source_names[0])
    );
    assert!(plan.entries[0]
        .dst
        .starts_with(&format!("/work/vendor/{}/", plan.used_source_names[0])));
}

#[test]
fn switch_merged_source() {
    // a split-layout vendor directory is wiped before a merged run, and
    // the other way around; matching layouts are kept
    assert!(should_reset_vendor_dir(true, true));
    assert!(should_reset_vendor_dir(false, false));
    assert!(!should_reset_vendor_dir(true, false));
    assert!(!should_reset_vendor_dir(false, true));
}

#[test]
fn sources_index_reconciled() {
    let old_index = vec!["registry-aaaa".to_string(), "git-bbbb".to_string(), "git-cccc".to_string()];
    let used = vec!["registry-aaaa".to_string()];
    // git-bbbb emptied by pruning; git-cccc still holds entries of an
    // excluded mode and is kept in the index
    let empty_dirs = vec!["git-bbbb".to_string()];
    let nonempty_dirs = vec!["registry-aaaa".to_string(), "git-cccc".to_string()];
    let (remove, new_index) = reconcile_sources(&old_index, &used, &empty_dirs, &nonempty_dirs);
    assert_eq!(remove, vec!["git-bbbb".to_string()]);
    assert_eq!(new_index, vec!["registry-aaaa".to_string(), "git-cccc".to_string()]);
}

#[test]
fn resync_is_idempotent() {
    // a full second run over the first run's outcome: nothing suffixed is
    // re-copied and nothing is pruned
    let resolved = || {
        vec![
            reg_pkg("bitflags", ver(0, 8, 0)),
            reg_pkg("bitflags", ver(0, 7, 0)),
            reg_pkg("log", ver(0, 3, 5)),
        ]
    };
    let plan1 = run(resolved(), &opts(), &empty_disk()).unwrap();
    let disk = DiskFacts {
        existing_crates: plan1.entries.iter().map(|e| e.dst.clone()).collect(),
        manifest_dirs: plan1.entries.iter().map(|e| e.dst.clone()).collect(),
    };
    let plan2 = run(resolved(), &opts(), &disk).unwrap();
    assert!(plan2.stale.is_empty());
    for (e1, e2) in plan1.entries.iter().zip(plan2.entries.iter()) {
        assert_eq!(e1.dst, e2.dst);
        if e2.has_suffix {
            assert!(!e2.copy, "suffixed destinations are never re-copied");
        }
    }
    // the second run's emitted document is identical
    assert_eq!(plan1.config.source.len(), plan2.config.source.len());
    for (a, b) in plan1.config.source.iter().zip(plan2.config.source.iter()) {
        assert_eq!(a.0, b.0);
    }
}
