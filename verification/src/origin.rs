//! Package origins: where a package's source comes from, equality of
//! origins, their canonical rendering, and the stable per-origin directory
//! name used by the split source layout.

use vstd::prelude::*;

use crate::hexfmt::{hex, hex_of};
use crate::text::str_eq;

verus! {

/// The pinned reference of a version-control origin.
#[derive(Debug)]
pub enum GitRef {
    Branch(String),
    Tag(String),
    Rev(String),
}

/// The provenance of a package's source: a registry (keyed by its index
/// URL), a version-control reference, or a local filesystem path. Local
/// paths are never vendored.
#[derive(Debug)]
pub enum Origin {
    Registry { index_url: String },
    Git { url: String, reference: GitRef },
    LocalPath { path: String },
}

/// The index URL of the default registry.
pub open spec fn default_registry_chars() -> Seq<char> {
    "https://github.com/rust-lang/crates.io-index"@
}

pub open spec fn git_ref_eq(a: GitRef, b: GitRef) -> bool {
    match (a, b) {
        (GitRef::Branch(x), GitRef::Branch(y)) => x@ == y@,
        (GitRef::Tag(x), GitRef::Tag(y)) => x@ == y@,
        (GitRef::Rev(x), GitRef::Rev(y)) => x@ == y@,
        _ => false,
    }
}

/// Equality of origins: same kind and same fields.
pub open spec fn origin_eq(a: Origin, b: Origin) -> bool {
    match (a, b) {
        (Origin::Registry { index_url: x }, Origin::Registry { index_url: y }) => x@ == y@,
        (
            Origin::Git { url: u1, reference: r1 },
            Origin::Git { url: u2, reference: r2 },
        ) => u1@ == u2@ && git_ref_eq(r1, r2),
        (Origin::LocalPath { path: p }, Origin::LocalPath { path: q }) => p@ == q@,
        _ => false,
    }
}

pub open spec fn is_git(o: Origin) -> bool {
    o matches Origin::Git { .. }
}

pub open spec fn is_local_path(o: Origin) -> bool {
    o matches Origin::LocalPath { .. }
}

pub open spec fn is_default_registry(o: Origin) -> bool {
    match o {
        Origin::Registry { index_url } => index_url@ == default_registry_chars(),
        _ => false,
    }
}

/// Tests two origins for equality.
pub fn origin_same(a: &Origin, b: &Origin) -> (r: bool)
    ensures
        r == origin_eq(*a, *b),
{
    match (a, b) {
        (Origin::Registry { index_url: x }, Origin::Registry { index_url: y }) => str_eq(
            x.as_str(),
            y.as_str(),
        ),
        (Origin::Git { url: u1, reference: r1 }, Origin::Git { url: u2, reference: r2 }) => {
            let urls = str_eq(u1.as_str(), u2.as_str());
            let refs = match (r1, r2) {
                (GitRef::Branch(p), GitRef::Branch(q)) => str_eq(p.as_str(), q.as_str()),
                (GitRef::Tag(p), GitRef::Tag(q)) => str_eq(p.as_str(), q.as_str()),
                (GitRef::Rev(p), GitRef::Rev(q)) => str_eq(p.as_str(), q.as_str()),
                _ => false,
            };
            urls && refs
        },
        (Origin::LocalPath { path: p }, Origin::LocalPath { path: q }) => str_eq(
            p.as_str(),
            q.as_str(),
        ),
        _ => false,
    }
}

pub fn origin_is_git(o: &Origin) -> (r: bool)
    ensures
        r == is_git(*o),
{
    match o {
        Origin::Git { .. } => true,
        _ => false,
    }
}

pub fn origin_is_local_path(o: &Origin) -> (r: bool)
    ensures
        r == is_local_path(*o),
{
    match o {
        Origin::LocalPath { .. } => true,
        _ => false,
    }
}

pub fn origin_is_default_registry(o: &Origin) -> (r: bool)
    ensures
        r == is_default_registry(*o),
{
    match o {
        Origin::Registry { index_url } => str_eq(
            index_url.as_str(),
            "https://github.com/rust-lang/crates.io-index",
        ),
        _ => false,
    }
}

/// The canonical rendering of a git reference as a URL query suffix.
pub open spec fn git_ref_str_of(r: GitRef) -> Seq<char> {
    match r {
        GitRef::Branch(b) => "?branch="@ + b@,
        GitRef::Tag(t) => "?tag="@ + t@,
        GitRef::Rev(v) => "?rev="@ + v@,
    }
}

/// The canonical rendering of an origin, used in error messages and as the
/// input of the stable directory-name hash.
pub open spec fn origin_str_of(o: Origin) -> Seq<char> {
    match o {
        Origin::Registry { index_url } => "registry+"@ + index_url@,
        Origin::Git { url, reference } => "git+"@ + url@ + git_ref_str_of(reference),
        Origin::LocalPath { path } => "path+"@ + path@,
    }
}

/// Appends the canonical rendering of an origin to `s`.
pub fn push_origin(s: &mut String, o: &Origin)
    ensures
        final(s)@ == old(s)@ + origin_str_of(*o),
{
    match o {
        Origin::Registry { index_url } => {
            s.append("registry+");
            s.append(index_url.as_str());
        },
        Origin::Git { url, reference } => {
            s.append("git+");
            s.append(url.as_str());
            match reference {
                GitRef::Branch(b) => {
                    s.append("?branch=");
                    s.append(b.as_str());
                },
                GitRef::Tag(t) => {
                    s.append("?tag=");
                    s.append(t.as_str());
                },
                GitRef::Rev(v) => {
                    s.append("?rev=");
                    s.append(v.as_str());
                },
            }
        },
        Origin::LocalPath { path } => {
            s.append("path+");
            s.append(path.as_str());
        },
    }
    proof {
        assert(s@ =~= old(s)@ + origin_str_of(*o));
    }
}

/// Renders an origin as a string.
pub fn origin_to_string(o: &Origin) -> (s: String)
    ensures
        s@ == origin_str_of(*o),
{
    let mut s = String::new();
    push_origin(&mut s, o);
    proof {
        assert(s@ =~= origin_str_of(*o));
    }
    s
}

/// One round of the FNV-style fold: mix one unit into the accumulator.
pub open spec fn fnv_step(h: u64, unit: u64) -> u64 {
    vstd::wrapping::u64_specs::wrapping_mul(h ^ unit, 0x100000001b3u64)
}

/// An FNV-style stable hash of a character sequence: deterministic across
/// runs and machines, so a re-sync lands in the same per-origin directory.
pub open spec fn fnv_hash(chars: Seq<char>) -> u64
    decreases chars.len(),
{
    if chars.len() == 0 {
        0xcbf29ce484222325u64
    } else {
        fnv_step(fnv_hash(chars.drop_last()), chars.last() as u32 as u64)
    }
}

fn fnv64(s: &str) -> (h: u64)
    ensures
        h == fnv_hash(s@),
{
    let n = s.unicode_len();
    let mut h: u64 = 0xcbf29ce484222325;
    let mut i: usize = 0;
    while i < n
        invariant
            n == s@.len(),
            i <= n,
            h == fnv_hash(s@.take(i as int)),
        decreases n - i,
    {
        let c = s.get_char(i);
        h = (h ^ (c as u32 as u64)).wrapping_mul(0x100000001b3);
        i = i + 1;
        proof {
            let p = s@.take(i as int);
            assert(p.drop_last() =~= s@.take(i - 1));
            assert(p.last() == s@[i - 1]);
        }
    }
    proof {
        assert(s@.take(n as int) =~= s@);
    }
    h
}

/// The eight bytes of a 64-bit value, least significant first.
pub open spec fn le_bytes_rec(h: u64, n: nat) -> Seq<u8>
    decreases n,
{
    if n == 0 {
        Seq::empty()
    } else {
        seq![(h & 0xff) as u8] + le_bytes_rec(h >> 8, (n - 1) as nat)
    }
}

pub open spec fn le_bytes_of(h: u64) -> Seq<u8> {
    le_bytes_rec(h, 8)
}

fn le_bytes(h: u64) -> (v: Vec<u8>)
    ensures
        v@ == le_bytes_of(h),
{
    let mut v: Vec<u8> = Vec::new();
    let mut x = h;
    let mut i: usize = 0;
    while i < 8
        invariant
            i <= 8,
            le_bytes_of(h) == v@ + le_bytes_rec(x, (8 - i) as nat),
        decreases 8 - i,
    {
        proof {
            assert((x & 0xff) < 256) by (bit_vector);
        }
        let b = (x & 0xff) as u8;
        v.push(b);
        x = x >> 8;
        i = i + 1;
        proof {
            assert(le_bytes_of(h) =~= v@ + le_bytes_rec(x, (8 - i) as nat));
        }
    }
    proof {
        assert(v@ =~= le_bytes_of(h));
    }
    v
}

/// The kind word of an origin's directory name.
pub open spec fn origin_kind_str(o: Origin) -> Seq<char> {
    match o {
        Origin::Registry { .. } => "registry"@,
        Origin::Git { .. } => "git"@,
        Origin::LocalPath { .. } => "path"@,
    }
}

/// The per-origin subdirectory name of the split source layout:
/// the origin's kind, a dash, and the stable hash of its canonical
/// rendering in hexadecimal. The same origin always maps to the same name.
pub open spec fn dir_name_of(o: Origin) -> Seq<char> {
    origin_kind_str(o) + seq!['-'] + hex_of(le_bytes_of(fnv_hash(origin_str_of(o))))
}

/// Computes the per-origin subdirectory name for the split source layout.
pub fn source_id_to_dir_name(origin: &Origin) -> (s: String)
    requires
        !is_local_path(*origin),
    ensures
        s@ == dir_name_of(*origin),
{
    let mut s = match origin {
        Origin::Registry { .. } => String::from_str("registry"),
        Origin::Git { .. } => String::from_str("git"),
        Origin::LocalPath { .. } => String::from_str("path"),
    };
    crate::text::push_char(&mut s, '-');
    let canonical = origin_to_string(origin);
    let h = fnv64(canonical.as_str());
    let digits = hex(le_bytes(h).as_slice());
    let r = s.concat(digits.as_str());
    proof {
        assert(r@ =~= dir_name_of(*origin));
    }
    r
}

} // verus!
