//! The config emitter: the replacement-source document that redirects a
//! build tool's dependency lookups to the vendor directory — one block per
//! distinct origin, plus the vendor directory declarations.

use vstd::prelude::*;

use crate::origin::{
    default_registry_chars, dir_name_of, is_default_registry, is_local_path,
    origin_is_default_registry, source_id_to_dir_name, GitRef, Origin,
};
use crate::text::{
    dec_of, lemma_dec_of_injective, lemma_dec_of_min_len, push_char, push_decimal_wide, str_eq,
};

verus! {

/// One entry of the emitted document: a local directory source, or a
/// replacement block redirecting a registry or git origin at a vendor
/// source.
#[derive(Debug)]
pub enum VendorSource {
    Directory { directory: String },
    Registry { registry: Option<String>, replace_with: String },
    Git {
        git: String,
        branch: Option<String>,
        tag: Option<String>,
        rev: Option<String>,
        replace_with: String,
    },
}

/// The emitted replacement-source document: named source entries, with
/// pairwise-distinct names, in emission order.
#[derive(Debug)]
pub struct VendorConfig {
    pub source: Vec<(String, VendorSource)>,
}

/// The names of the entries, in order.
pub open spec fn keys_of(s: Seq<(String, VendorSource)>) -> Seq<Seq<char>> {
    s.map_values(|e: (String, VendorSource)| e.0@)
}

/// The candidate name with numeric suffix `n`.
pub open spec fn cand_of(base: Seq<char>, n: nat) -> Seq<char> {
    base + seq!['-'] + dec_of(n)
}

/// `k` is the name chosen for `base` against the given taken names: `base`
/// itself when free, otherwise the first free `base-n` with `n` counted up
/// from two.
pub open spec fn chosen_name(keys: Seq<Seq<char>>, base: Seq<char>, k: Seq<char>) -> bool {
    &&& !keys.contains(k)
    &&& (k == base || (keys.contains(base) && exists|n: nat|
        n >= 2 && k == #[trigger] cand_of(base, n) && (forall|m: nat|
            2 <= m < n ==> keys.contains(#[trigger] cand_of(base, m)))))
}

/// The URL (or path) carried by an origin.
pub open spec fn origin_url_of(o: Origin) -> Seq<char> {
    match o {
        Origin::Registry { index_url } => index_url@,
        Origin::Git { url, .. } => url@,
        Origin::LocalPath { path } => path@,
    }
}

/// The base name of an origin's replacement block: the well-known name
/// for the default registry, the origin's URL otherwise.
pub open spec fn base_name_of(o: Origin) -> Seq<char> {
    if is_default_registry(o) {
        "crates-io"@
    } else {
        origin_url_of(o)
    }
}

/// The replacement block for an origin, pointing `replace-with` at `rep`:
/// a registry block (the default registry leaves the URL implicit), or a
/// git block carrying the URL and the pinned branch, tag or revision.
pub open spec fn block_matches(o: Origin, v: VendorSource, rep: Seq<char>) -> bool {
    match (o, v) {
        (Origin::Registry { index_url }, VendorSource::Registry { registry, replace_with }) => {
            &&& replace_with@ == rep
            &&& if index_url@ == default_registry_chars() {
                registry is None
            } else {
                registry matches Some(u) && u@ == index_url@
            }
        },
        (
            Origin::Git { url, reference },
            VendorSource::Git { git, branch, tag, rev, replace_with },
        ) => {
            &&& git@ == url@
            &&& replace_with@ == rep
            &&& match reference {
                GitRef::Branch(b) => branch matches Some(x) && x@ == b@ && tag is None
                    && rev is None,
                GitRef::Tag(t) => tag matches Some(x) && x@ == t@ && branch is None
                    && rev is None,
                GitRef::Rev(rv) => rev matches Some(x) && x@ == rv@ && branch is None
                    && tag is None,
            }
        },
        _ => false,
    }
}

/// A path directly under `dir`.
pub open spec fn joined(dir: Seq<char>, name: Seq<char>) -> Seq<char> {
    dir + seq!['/'] + name
}

/// Scans the document for a name already in use.
fn key_is_free(cfg: &Vec<(String, VendorSource)>, k: &str) -> (r: bool)
    ensures
        r == !keys_of(cfg@).contains(k@),
{
    let mut i: usize = 0;
    while i < cfg.len()
        invariant
            i <= cfg@.len(),
            forall|j: int| 0 <= j < i ==> cfg@[j].0@ != k@,
        decreases cfg@.len() - i,
    {
        if str_eq(cfg[i].0.as_str(), k) {
            proof {
                assert(keys_of(cfg@)[i as int] == k@);
            }
            return false;
        }
        i = i + 1;
    }
    proof {
        assert forall|j: int| 0 <= j < keys_of(cfg@).len() implies keys_of(cfg@)[j] != k@ by {
            assert(keys_of(cfg@)[j] == cfg@[j].0@);
        }
    }
    true
}

/// Among `base` and its suffixed candidates up to `n`, all distinct and
/// all taken, there are `n` taken names; so `n` cannot exceed the number
/// of names.
proof fn lemma_candidates_bound(keys: Seq<Seq<char>>, base: Seq<char>, n: int)
    requires
        2 <= n,
        keys.contains(base),
        forall|m: nat| 2 <= m <= n ==> keys.contains(#[trigger] cand_of(base, m)),
    ensures
        n <= keys.len(),
{
    broadcast use vstd::seq_lib::seq_to_set_is_finite;

    let cands = Seq::new(
        n as nat,
        |i: int|
            if i == 0 {
                base
            } else {
                cand_of(base, (i + 1) as nat)
            },
    );
    assert(cands.no_duplicates()) by {
        assert forall|i: int, j: int|
            (0 <= i < cands.len() && 0 <= j < cands.len() && i != j) implies cands[i]
            != cands[j] by {
            if i != 0 && j != 0 {
                lemma_dec_of_min_len((i + 1) as nat);
                lemma_dec_of_min_len((j + 1) as nat);
                if cands[i] == cands[j] {
                    assert(cand_of(base, (i + 1) as nat).skip(base.len() as int + 1) =~= dec_of(
                        (i + 1) as nat,
                    ));
                    assert(cand_of(base, (j + 1) as nat).skip(base.len() as int + 1) =~= dec_of(
                        (j + 1) as nat,
                    ));
                    lemma_dec_of_injective((i + 1) as nat, (j + 1) as nat);
                }
            } else {
                let s = if i == 0 {
                    j
                } else {
                    i
                };
                lemma_dec_of_min_len((s + 1) as nat);
                assert(cand_of(base, (s + 1) as nat).len() >= base.len() + 2);
            }
        }
    }
    assert(cands.to_set().subset_of(keys.to_set())) by {
        assert forall|x: Seq<char>| cands.to_set().contains(x) implies keys.to_set().contains(
            x,
        ) by {
            let i = choose|i: int| 0 <= i < cands.len() && cands[i] == x;
            if i == 0 {
                assert(keys.contains(x));
            } else {
                assert(2 <= i + 1 <= n);
                assert(keys.contains(cand_of(base, (i + 1) as nat)));
            }
        }
    }
    cands.unique_seq_to_set();
    keys.lemma_cardinality_of_set();
    vstd::set_lib::lemma_len_subset(cands.to_set(), keys.to_set());
}

/// Picks the name for a new entry: `base` when free, else the first free
/// `base-n` counting up from two.
fn find_free_name(cfg: &Vec<(String, VendorSource)>, base: String) -> (r: String)
    ensures
        chosen_name(keys_of(cfg@), base@, r@),
{
    if key_is_free(cfg, base.as_str()) {
        return base;
    }
    let len = cfg.len();
    proof {
        // the base name is taken, so the document is not empty
        let w = choose|w: int| 0 <= w < keys_of(cfg@).len() && keys_of(cfg@)[w] == base@;
        assert(len >= 1);
    }
    let mut n: u128 = 2;
    loop
        invariant
            2 <= n,
            n <= len + 1,
            len >= 1,
            len == cfg@.len(),
            len == keys_of(cfg@).len(),
            keys_of(cfg@).contains(base@),
            forall|m: nat| 2 <= m < n ==> keys_of(cfg@).contains(#[trigger] cand_of(base@, m)),
        decreases len + 2 - n,
    {
        let mut cand = base.clone();
        push_char(&mut cand, '-');
        push_decimal_wide(&mut cand, n);
        proof {
            assert(cand@ =~= cand_of(base@, n as nat));
        }
        if key_is_free(cfg, cand.as_str()) {
            proof {
                assert(chosen_name(keys_of(cfg@), base@, cand@));
            }
            return cand;
        }
        proof {
            assert forall|m: nat| 2 <= m <= n implies keys_of(cfg@).contains(
                #[trigger] cand_of(base@, m),
            ) by {
                if m < n {
                } else {
                    assert(cand_of(base@, m) == cand@);
                }
            }
            lemma_candidates_bound(keys_of(cfg@), base@, n as int);
        }
        n = n + 1;
    }
}

/// Builds the replacement block itself (everything but the name).
fn make_block(o: &Origin, replace_with: String) -> (v: VendorSource)
    requires
        !is_local_path(*o),
    ensures
        block_matches(*o, v, replace_with@),
{
    match o {
        Origin::Registry { index_url } => {
            if origin_is_default_registry(o) {
                VendorSource::Registry { registry: Option::None, replace_with }
            } else {
                VendorSource::Registry {
                    registry: Option::Some(index_url.clone()),
                    replace_with,
                }
            }
        },
        Origin::Git { url, reference } => {
            let mut branch: Option<String> = Option::None;
            let mut tag: Option<String> = Option::None;
            let mut rev: Option<String> = Option::None;
            match reference {
                GitRef::Branch(b) => {
                    branch = Option::Some(b.clone());
                },
                GitRef::Tag(t) => {
                    tag = Option::Some(t.clone());
                },
                GitRef::Rev(r) => {
                    rev = Option::Some(r.clone());
                },
            }
            VendorSource::Git { git: url.clone(), branch, tag, rev, replace_with }
        },
        Origin::LocalPath { .. } => {
            // excluded by the precondition; the match is total for the
            // closed origin type
            VendorSource::Directory { directory: String::new() }
        },
    }
}

/// Entry `1 + i` of the merged-layout document serves origin `i`: its
/// name chosen against the names already taken, its block pointing at the
/// single vendor source.
pub open spec fn merged_entry_ok(origins: Seq<Origin>, s: Seq<(String, VendorSource)>, i: int) -> bool {
    &&& chosen_name(keys_of(s.take(1 + i)), base_name_of(origins[i]), s[1 + i].0@)
    &&& block_matches(origins[i], s[1 + i].1, "vendored-sources"@)
}

/// Every entry of the merged-layout document, stated positionally: the
/// vendor directory declaration first, then one block per origin.
pub open spec fn merged_config_ok(
    origins: Seq<Origin>,
    dir: Seq<char>,
    s: Seq<(String, VendorSource)>,
) -> bool {
    &&& s.len() == 1 + origins.len()
    &&& s[0].0@ == "vendored-sources"@
    &&& (s[0].1 matches VendorSource::Directory { directory } && directory@ == dir)
    &&& forall|i: int| 0 <= i < origins.len() ==> #[trigger] merged_entry_ok(origins, s, i)
}

/// Entries `2 * i` and `2 * i + 1` of the split-layout document serve
/// origin `i`: a directory declaration for the origin's own subdirectory,
/// then the origin's block pointing at that declaration. The block's name
/// is chosen against the names already taken; the declaration's name is
/// chosen as if the block's were already among them, so the two always
/// differ.
pub open spec fn split_entry_ok(
    origins: Seq<Origin>,
    dir: Seq<char>,
    s: Seq<(String, VendorSource)>,
    i: int,
) -> bool {
    &&& chosen_name(keys_of(s.take(2 * i)), base_name_of(origins[i]), s[2 * i + 1].0@)
    &&& chosen_name(
        keys_of(s.take(2 * i)).push(s[2 * i + 1].0@),
        "vendor+"@ + s[2 * i + 1].0@,
        s[2 * i].0@,
    )
    &&& (s[2 * i].1 matches VendorSource::Directory { directory } && directory@ == joined(
        dir,
        dir_name_of(origins[i]),
    ))
    &&& block_matches(origins[i], s[2 * i + 1].1, s[2 * i].0@)
}

/// Every entry of the split-layout document, stated positionally.
pub open spec fn split_config_ok(
    origins: Seq<Origin>,
    dir: Seq<char>,
    s: Seq<(String, VendorSource)>,
) -> bool {
    &&& s.len() == 2 * origins.len()
    &&& forall|i: int| 0 <= i < origins.len() ==> #[trigger] split_entry_ok(origins, dir, s, i)
}

proof fn lemma_keys_push(s: Seq<(String, VendorSource)>, e: (String, VendorSource))
    ensures
        keys_of(s.push(e)) =~= keys_of(s).push(e.0@),
{
    assert forall|j: int| 0 <= j < s.len() + 1 implies keys_of(s.push(e))[j] == keys_of(s).push(
        e.0@,
    )[j] by {
        if j < s.len() {
            assert(s.push(e)[j] == s[j]);
        }
    }
}

proof fn lemma_push_key_unique(s: Seq<(String, VendorSource)>, e: (String, VendorSource))
    requires
        keys_of(s).no_duplicates(),
        !keys_of(s).contains(e.0@),
    ensures
        keys_of(s.push(e)).no_duplicates(),
{
    lemma_keys_push(s, e);
    let r = keys_of(s).push(e.0@);
    assert forall|x: int, y: int|
        (0 <= x < r.len() && 0 <= y < r.len() && x != y) implies r[x] != r[y] by {
        if y == r.len() - 1 && x < y {
            if r[x] == r[y] {
                assert(keys_of(s)[x] == r[x]);
                assert(keys_of(s).contains(r[y]));
            }
        } else if x == r.len() - 1 && y < x {
            if r[x] == r[y] {
                assert(keys_of(s)[y] == r[y]);
                assert(keys_of(s).contains(r[x]));
            }
        } else {
            assert(r[x] == keys_of(s)[x] && r[y] == keys_of(s)[y]);
        }
    }
}

/// Builds the replacement-source document for the given distinct origins
/// (local-path origins are never vendored and may not appear). `dir` is
/// the vendor directory path as the consuming build tool should see it.
pub fn build_config(origins: &Vec<Origin>, dir: &String, merge_sources: bool) -> (cfg:
    VendorConfig)
    requires
        forall|i: int| 0 <= i < origins@.len() ==> !is_local_path(#[trigger] origins@[i]),
    ensures
        keys_of(cfg.source@).no_duplicates(),
        merge_sources ==> merged_config_ok(origins@, dir@, cfg.source@),
        !merge_sources ==> split_config_ok(origins@, dir@, cfg.source@),
{
    let mut entries: Vec<(String, VendorSource)> = Vec::new();
    if merge_sources {
        entries.push(
            (String::from_str("vendored-sources"), VendorSource::Directory {
                directory: dir.clone(),
            }),
        );
    }
    let mut i: usize = 0;
    while i < origins.len()
        invariant
            forall|k: int| 0 <= k < origins@.len() ==> !is_local_path(#[trigger] origins@[k]),
            i <= origins@.len(),
            keys_of(entries@).no_duplicates(),
            merge_sources ==> {
                &&& entries@.len() == 1 + i
                &&& entries@[0].0@ == "vendored-sources"@
                &&& (entries@[0].1 matches VendorSource::Directory { directory } && directory@
                    == dir@)
                &&& forall|k: int| 0 <= k < i ==> #[trigger] merged_entry_ok(origins@, entries@, k)
            },
            !merge_sources ==> {
                &&& entries@.len() == 2 * i
                &&& forall|k: int|
                    0 <= k < i ==> #[trigger] split_entry_ok(origins@, dir@, entries@, k)
            },
        decreases origins@.len() - i,
    {
        let o = &origins[i];
        let base = if origin_is_default_registry(o) {
            String::from_str("crates-io")
        } else {
            match o {
                Origin::Registry { index_url } => index_url.clone(),
                Origin::Git { url, .. } => url.clone(),
                Origin::LocalPath { path } => path.clone(),
            }
        };
        let ghost before = entries@;
        let name = find_free_name(&entries, base);
        if merge_sources {
            let block = make_block(o, String::from_str("vendored-sources"));
            proof {
                lemma_push_key_unique(before, (name, block));
            }
            entries.push((name, block));
            proof {
                assert(entries@.take(1 + i) =~= before);
                assert forall|k: int| 0 <= k < i + 1 implies #[trigger] merged_entry_ok(
                    origins@,
                    entries@,
                    k,
                ) by {
                    if k < i {
                        assert(merged_entry_ok(origins@, before, k));
                        assert(entries@.take(1 + k) =~= before.take(1 + k));
                        assert(entries@[1 + k] == before[1 + k]);
                    } else {
                        assert(entries@[1 + k] == (name, block));
                    }
                }
            }
        } else {
            // pick the directory declaration's name as if the block entry
            // were already present, so the two can never collide
            entries.push((name.clone(), VendorSource::Directory { directory: String::new() }));
            let ghost with_block = entries@;
            proof {
                lemma_keys_push(before, with_block.last());
                assert(keys_of(with_block) =~= keys_of(before).push(name@));
            }
            let mut dir_base = String::from_str("vendor+");
            dir_base.append(name.as_str());
            proof {
                assert(dir_base@ =~= "vendor+"@ + name@);
            }
            let dir_key = find_free_name(&entries, dir_base);
            let _ = entries.pop();
            proof {
                assert(entries@ =~= before);
            }
            let mut dirpath = dir.clone();
            push_char(&mut dirpath, '/');
            let sub = source_id_to_dir_name(o);
            dirpath.append(sub.as_str());
            proof {
                assert(dirpath@ =~= joined(dir@, dir_name_of(origins@[i as int])));
            }
            let block = make_block(o, dir_key.clone());
            let ghost dir_key_chars = dir_key@;
            let ghost name_chars = name@;
            proof {
                // the directory name is free among the old names and
                // differs from the block name
                assert(keys_of(with_block).contains(name_chars)) by {
                    assert(keys_of(with_block).last() == name_chars);
                }
                assert(dir_key_chars != name_chars);
                assert(!keys_of(before).contains(dir_key_chars)) by {
                    if keys_of(before).contains(dir_key_chars) {
                        let x = choose|x: int|
                            0 <= x < keys_of(before).len() && keys_of(before)[x]
                                == dir_key_chars;
                        assert(keys_of(with_block)[x] == dir_key_chars);
                        assert(keys_of(with_block).contains(dir_key_chars));
                    }
                }
            }
            proof {
                lemma_push_key_unique(before, (dir_key, VendorSource::Directory {
                    directory: dirpath,
                }));
            }
            let dir_entry = (dir_key, VendorSource::Directory { directory: dirpath });
            entries.push(dir_entry);
            let ghost mid = entries@;
            proof {
                lemma_keys_push(before, mid.last());
                assert(!keys_of(mid).contains(name_chars)) by {
                    assert(keys_of(mid) =~= keys_of(before).push(dir_key_chars));
                    if keys_of(mid).contains(name_chars) {
                        let x = choose|x: int|
                            0 <= x < keys_of(mid).len() && keys_of(mid)[x] == name_chars;
                        if x < keys_of(before).len() {
                            assert(keys_of(before).contains(name_chars));
                        }
                    }
                }
                lemma_push_key_unique(mid, (name, block));
            }
            entries.push((name, block));
            proof {
                assert(entries@.take(2 * i) =~= before);
                assert forall|k: int| 0 <= k < i + 1 implies #[trigger] split_entry_ok(
                    origins@,
                    dir@,
                    entries@,
                    k,
                ) by {
                    if k < i {
                        assert(split_entry_ok(origins@, dir@, before, k));
                        assert(entries@.take(2 * k) =~= before.take(2 * k));
                        assert(entries@[2 * k] == before[2 * k]);
                        assert(entries@[2 * k + 1] == before[2 * k + 1]);
                    } else {
                        assert(entries@[2 * k] == mid.last());
                        assert(entries@[2 * k + 1] == entries@.last());
                        assert(entries@.take(2 * k) =~= before);
                        assert(keys_of(entries@.take(2 * k)) =~= keys_of(before));
                        assert(keys_of(entries@.take(2 * k)).push(entries@[2 * k + 1].0@) =~= keys_of(
                            with_block,
                        ));
                        assert(entries@[2 * k + 1].0@ == name_chars);
                        assert(entries@[2 * k].0@ == dir_key_chars);
                    }
                }
            }
        }
        i = i + 1;
    }
    VendorConfig { source: entries }
}

} // verus!
