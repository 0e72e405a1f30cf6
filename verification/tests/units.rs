use cargo_vendor::digest::sha256;
use cargo_vendor::engine::{sync, DiskFacts, SyncOptions};
use cargo_vendor::config::VendorSource;
use cargo_vendor::files::{cp_sources, keep_file, manifest_json, normalize_separators};
use cargo_vendor::hex;
use cargo_vendor::origin::{source_id_to_dir_name, GitRef, Origin};
use cargo_vendor::package::{path_within_exec, ResolvedPackage};
use cargo_vendor::plan::{error_message, VendorError};
use cargo_vendor::text::u64_to_string;
use cargo_vendor::version::{
    version_lt, version_same, version_tied, version_to_string, Version, VersionIdent,
};

fn ver(major: u64, minor: u64, patch: u64) -> Version {
    Version { major, minor, patch, pre: Vec::new(), build: Vec::new() }
}

fn pre(major: u64, minor: u64, patch: u64, idents: Vec<VersionIdent>) -> Version {
    Version { major, minor, patch, pre: idents, build: Vec::new() }
}

fn alpha(s: &str) -> VersionIdent {
    VersionIdent::Alpha(s.to_string())
}

#[test]
fn hex_known_values() {
    assert_eq!(hex(&[0xde, 0xad, 0xbe, 0xef]), "deadbeef");
    assert_eq!(hex(&[]), "");
    assert_eq!(hex(&[0x00, 0x0f]), "000f");
}

#[test]
fn decimal_rendering() {
    assert_eq!(u64_to_string(0), "0");
    assert_eq!(u64_to_string(1204), "1204");
    assert_eq!(u64_to_string(u64::MAX), "18446744073709551615");
}

#[test]
fn sha256_known_vectors() {
    assert_eq!(
        sha256(b""),
        "e3b0c44298fc1c149afbf4c8996fb92427ae41e4649b934ca495991b7852b855"
    );
    assert_eq!(
        sha256(b"abc"),
        "ba7816bf8f01cfea414140de5dae2223b00361a396177a9cb410ff61f20015ad"
    );
}

#[test]
fn semver_precedence() {
    // the pre-release chain of the semantic-versioning specification
    let chain = vec![
        pre(1, 0, 0, vec![alpha("alpha")]),
        pre(1, 0, 0, vec![alpha("alpha"), VersionIdent::Num(1)]),
        pre(1, 0, 0, vec![alpha("alpha"), alpha("beta")]),
        pre(1, 0, 0, vec![alpha("beta")]),
        pre(1, 0, 0, vec![alpha("beta"), VersionIdent::Num(2)]),
        pre(1, 0, 0, vec![alpha("beta"), VersionIdent::Num(11)]),
        pre(1, 0, 0, vec![alpha("rc"), VersionIdent::Num(1)]),
        ver(1, 0, 0),
    ];
    for i in 0..chain.len() {
        for j in 0..chain.len() {
            assert_eq!(version_lt(&chain[i], &chain[j]), i < j, "{} vs {}", i, j);
        }
    }
    assert!(version_lt(&ver(0, 7, 0), &ver(0, 8, 0)));
    assert!(!version_lt(&ver(0, 8, 0), &ver(0, 7, 0)));
}

#[test]
fn build_metadata_ties_but_differs() {
    let a = Version { major: 1, minor: 0, patch: 0, pre: Vec::new(), build: vec![alpha("a")] };
    let b = Version { major: 1, minor: 0, patch: 0, pre: Vec::new(), build: vec![alpha("b")] };
    assert!(version_tied(&a, &b));
    assert!(!version_lt(&a, &b) && !version_lt(&b, &a));
    assert!(!version_same(&a, &b));
    assert!(version_same(&a, &a));
}

#[test]
fn version_rendering() {
    assert_eq!(version_to_string(&ver(0, 7, 0)), "0.7.0");
    let v = Version {
        major: 1,
        minor: 2,
        patch: 3,
        pre: vec![alpha("beta"), VersionIdent::Num(1)],
        build: vec![alpha("exp"), alpha("sha5114")],
    };
    assert_eq!(version_to_string(&v), "1.2.3-beta.1+exp.sha5114");
}

#[test]
fn file_selection() {
    assert!(!keep_file(".gitignore"));
    assert!(!keep_file(".gitattributes"));
    assert!(!keep_file(".git"));
    assert!(!keep_file(".cargo-ok"));
    assert!(!keep_file("Cargo.toml.orig"));
    assert!(!keep_file("foo.rej"));
    assert!(keep_file("src/lib.rs"));
    assert!(keep_file("origami.rs"));
}

#[test]
fn ignore_files() {
    // a backup file and version-control files are filtered; the manifest
    // lists only the legitimate source file
    let rels = vec![
        ".gitignore".to_string(),
        "Cargo.toml.orig".to_string(),
        "src/lib.rs".to_string(),
    ];
    let contents = vec![b"target".to_vec(), b"old".to_vec(), b"pub fn x() {}".to_vec()];
    let checksum = Some("aabbcc".to_string());
    let (kept, manifest) = cp_sources(&rels, &contents, &checksum);
    assert_eq!(kept, vec!["src/lib.rs".to_string()]);
    let expected = format!(
        "{{\"files\":{{\"src/lib.rs\":\"{}\"}},\"package\":\"aabbcc\"}}",
        sha256(b"pub fn x() {}")
    );
    assert_eq!(manifest, expected);
    assert!(!manifest.contains("Cargo.toml.orig"));
}

#[test]
fn included_files_only() {
    // an authoritative file list is trusted: exactly its (non-excluded)
    // entries are copied and recorded
    let rels = vec!["Cargo.toml".to_string(), "src/lib.rs".to_string()];
    let contents = vec![b"[package]".to_vec(), b"fn main() {}".to_vec()];
    let (kept, manifest) = cp_sources(&rels, &contents, &None);
    assert_eq!(kept, rels);
    assert!(manifest.contains("\"Cargo.toml\""));
    assert!(manifest.contains("\"src/lib.rs\""));
    assert!(!manifest.contains("ci/README.md"));
}

#[test]
fn manifest_keys_sorted() {
    let rels = vec!["b.rs".to_string(), "a.rs".to_string(), "c.rs".to_string()];
    let contents = vec![b"b".to_vec(), b"a".to_vec(), b"c".to_vec()];
    let (_, manifest) = cp_sources(&rels, &contents, &None);
    let pa = manifest.find("\"a.rs\"").unwrap();
    let pb = manifest.find("\"b.rs\"").unwrap();
    let pc = manifest.find("\"c.rs\"").unwrap();
    assert!(pa < pb && pb < pc, "{}", manifest);
}

#[test]
fn separators_normalized() {
    assert_eq!(normalize_separators("src\\windows\\mod.rs"), "src/windows/mod.rs");
    let rels = vec!["src\\lib.rs".to_string()];
    let contents = vec![b"x".to_vec()];
    let (kept, manifest) = cp_sources(&rels, &contents, &None);
    assert_eq!(kept, vec!["src/lib.rs".to_string()]);
    assert!(manifest.contains("\"src/lib.rs\""));
}

#[test]
fn manifest_json_escaping() {
    let files = vec![("a\"b\tc".to_string(), "00".to_string())];
    let manifest = manifest_json(&Some("x\\y".to_string()), &files);
    assert_eq!(manifest, "{\"files\":{\"a\\\"b\\tc\":\"00\"},\"package\":\"x\\\\y\"}");
    let files2 = vec![("a\u{1}b".to_string(), "00".to_string())];
    let manifest2 = manifest_json(&None, &files2);
    assert_eq!(manifest2, "{\"files\":{\"a\\u0001b\":\"00\"},\"package\":null}");
}

#[test]
fn dir_names_stable() {
    let a = Origin::Registry {
        index_url: "https://github.com/rust-lang/crates.io-index".to_string(),
    };
    let b = Origin::Registry {
        index_url: "https://github.com/rust-lang/crates.io-index".to_string(),
    };
    let g = Origin::Git {
        url: "https://github.com/rust-lang/futures-rs".to_string(),
        reference: GitRef::Branch("master".to_string()),
    };
    let g2 = Origin::Git {
        url: "https://github.com/rust-lang/futures-rs".to_string(),
        reference: GitRef::Tag("v0.1".to_string()),
    };
    let da = source_id_to_dir_name(&a);
    assert_eq!(da, source_id_to_dir_name(&b), "the same origin maps to the same name");
    assert!(da.starts_with("registry-"));
    assert_eq!(da.len(), "registry-".len() + 16);
    let dg = source_id_to_dir_name(&g);
    assert!(dg.starts_with("git-"));
    assert_ne!(dg, source_id_to_dir_name(&g2), "a different pin gives a different name");
}

#[test]
fn dir_name_formula() {
    // the name is the origin kind, a dash, and the hex of an FNV-style
    // fold over the origin's canonical rendering, least significant
    // byte first
    let o = Origin::Git {
        url: "https://x".to_string(),
        reference: GitRef::Rev("abc".to_string()),
    };
    let canonical = "git+https://x?rev=abc";
    let mut h: u64 = 0xcbf29ce484222325;
    for c in canonical.chars() {
        h = (h ^ (c as u64)).wrapping_mul(0x100000001b3);
    }
    let mut expected = String::from("git-");
    for i in 0..8 {
        expected.push_str(&format!("{:02x}", (h >> (8 * i)) & 0xff));
    }
    assert_eq!(source_id_to_dir_name(&o), expected);
}

#[test]
fn duplicate_error_message_exact() {
    let e = VendorError::DuplicateVersion {
        name: "futures".to_string(),
        version: "0.1.15".to_string(),
        source1: "git+https://a?branch=master".to_string(),
        source2: "git+https://b?branch=master".to_string(),
    };
    assert_eq!(
        error_message(&e),
        "found duplicate version of package `futures v0.1.15` vendored from two sources:\n\n\
         \tsource 1: git+https://a?branch=master\n\tsource 2: git+https://b?branch=master"
    );
}

#[test]
fn path_containment() {
    assert!(path_within_exec("/work/vendor/libc", "/work/vendor"));
    assert!(path_within_exec("/work/vendor", "/work/vendor"));
    assert!(!path_within_exec("/work/vendorx/libc", "/work/vendor"));
    assert!(!path_within_exec("/work", "/work/vendor"));
}

#[test]
fn config_name_collision_gets_suffix() {
    // two pins of one git URL: the second block name takes a numeric
    // suffix, and both names stay distinct
    let mk = |branch: &str, name: &str| ResolvedPackage {
        name: name.to_string(),
        version: ver(0, 1, 0),
        origin: Origin::Git {
            url: "https://github.com/rust-lang/futures-rs".to_string(),
            reference: GitRef::Branch(branch.to_string()),
        },
        src_path: format!("/cache/{}", name),
        file_list: None,
        checksum: None,
    };
    let o = SyncOptions {
        explicit_version: false,
        no_delete: false,
        disallow_duplicates: false,
        use_relative_path: true,
        only_git_deps: false,
        merge_sources: true,
    };
    let vendor = "/work/vendor".to_string();
    let cwd = "/work".to_string();
    let local = "vendor".to_string();
    let disk = DiskFacts { existing_crates: Vec::new(), manifest_dirs: Vec::new() };
    let plan = sync(
        vec![mk("master", "futures"), mk("old", "futures-old")],
        &vendor,
        &cwd,
        &local,
        &o,
        &disk,
    )
    .unwrap();
    assert_eq!(plan.config.source[0].0, "vendored-sources");
    // relative mode: the declared directory is the path as given
    match &plan.config.source[0].1 {
        VendorSource::Directory { directory } => assert_eq!(directory, "vendor"),
        _ => panic!("expected a directory source"),
    }
    assert_eq!(plan.config.source[1].0, "https://github.com/rust-lang/futures-rs");
    assert_eq!(plan.config.source[2].0, "https://github.com/rust-lang/futures-rs-2");
    match &plan.config.source[2].1 {
        VendorSource::Git { branch, .. } => assert_eq!(branch.as_deref(), Some("old")),
        _ => panic!("expected a git block"),
    }
}

#[test]
fn vendoring_git_crates() {
    let pkg = ResolvedPackage {
        name: "futures".to_string(),
        version: ver(0, 1, 15),
        origin: Origin::Git {
            url: "https://github.com/rust-lang/futures-rs".to_string(),
            reference: GitRef::Rev("9f4aaf6".to_string()),
        },
        src_path: "/cache/git/futures".to_string(),
        file_list: None,
        checksum: None,
    };
    let o = SyncOptions {
        explicit_version: false,
        no_delete: false,
        disallow_duplicates: false,
        use_relative_path: false,
        only_git_deps: false,
        merge_sources: true,
    };
    let vendor = "/work/vendor".to_string();
    let cwd = "/work".to_string();
    let local = "vendor".to_string();
    let disk = DiskFacts { existing_crates: Vec::new(), manifest_dirs: Vec::new() };
    let plan = sync(vec![pkg], &vendor, &cwd, &local, &o, &disk).unwrap();
    assert!(plan.entries[0].copy);
    match &plan.config.source[1].1 {
        VendorSource::Git { git, rev, branch, tag, replace_with } => {
            assert_eq!(git, "https://github.com/rust-lang/futures-rs");
            assert_eq!(rev.as_deref(), Some("9f4aaf6"));
            assert!(branch.is_none() && tag.is_none());
            assert_eq!(replace_with, "vendored-sources");
        },
        _ => panic!("expected a git block"),
    }
}

#[test]
fn dependent_crates_in_crates() {
    let o = SyncOptions {
        explicit_version: false,
        no_delete: false,
        disallow_duplicates: false,
        use_relative_path: false,
        only_git_deps: false,
        merge_sources: true,
    };
    let mk = |name: &str| ResolvedPackage {
        name: name.to_string(),
        version: ver(0, 2, 8),
        origin: Origin::Registry {
            index_url: "https://github.com/rust-lang/crates.io-index".to_string(),
        },
        src_path: format!("/cache/{}", name),
        file_list: None,
        checksum: Some("ff".to_string()),
    };
    let vendor = "/work/vendor".to_string();
    let cwd = "/work".to_string();
    let local = "vendor".to_string();
    let disk = DiskFacts { existing_crates: Vec::new(), manifest_dirs: Vec::new() };
    let plan = sync(
        vec![mk("winapi"), mk("winapi-i686-pc-windows-gnu")],
        &vendor,
        &cwd,
        &local,
        &o,
        &disk,
    )
    .unwrap();
    assert_eq!(plan.entries[0].dst, "/work/vendor/winapi");
    assert_eq!(plan.entries[1].dst, "/work/vendor/winapi-i686-pc-windows-gnu");
    assert!(plan.entries[0].copy && plan.entries[1].copy);
    // one shared origin, one replacement block
    assert_eq!(plan.origins_used.len(), 1);
    assert_eq!(plan.config.source.len(), 2);
}

#[test]
fn explicit_version_always_suffixes() {
    let o = SyncOptions {
        explicit_version: true,
        no_delete: false,
        disallow_duplicates: false,
        use_relative_path: false,
        only_git_deps: false,
        merge_sources: true,
    };
    let pkg = ResolvedPackage {
        name: "log".to_string(),
        version: ver(0, 3, 5),
        origin: Origin::Registry {
            index_url: "https://github.com/rust-lang/crates.io-index".to_string(),
        },
        src_path: "/cache/log".to_string(),
        file_list: None,
        checksum: Some("ff".to_string()),
    };
    let vendor = "/work/vendor".to_string();
    let cwd = "/work".to_string();
    let local = "vendor".to_string();
    let disk = DiskFacts { existing_crates: Vec::new(), manifest_dirs: Vec::new() };
    let plan = sync(vec![pkg], &vendor, &cwd, &local, &o, &disk).unwrap();
    assert_eq!(plan.entries[0].dst_name, "log-0.3.5");
    assert!(plan.entries[0].has_suffix);
}
