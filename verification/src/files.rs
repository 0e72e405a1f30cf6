//! The file selector and the per-package checksum manifest: which files
//! belong to a vendored package, path normalization, and the JSON record
//! of the copied files and their content digests.

use vstd::prelude::*;

use crate::digest::{content_digest_of, sha256};
use crate::hexfmt::{hex_digit, hex_digit_char};
use crate::text::{
    ends_with, lex_lt, lemma_lex_le_antisymmetric, lemma_lex_le_total, push_char, str_ends_with,
    str_eq, str_le,
};

verus! {

/// True of a relative path that is not part of the published package:
/// version-control metadata, the fetch layer's ready-marker file, and
/// patch-style backup files.
pub open spec fn excluded_file(rel: Seq<char>) -> bool {
    ||| rel == ".gitattributes"@
    ||| rel == ".gitignore"@
    ||| rel == ".git"@
    ||| rel == ".cargo-ok"@
    ||| ends_with(rel, ".orig"@)
    ||| ends_with(rel, ".rej"@)
}

/// Decides whether a file at the given relative path is copied into the
/// vendor directory.
pub fn keep_file(rel: &str) -> (r: bool)
    ensures
        r == !excluded_file(rel@),
{
    if str_eq(rel, ".gitattributes") {
        return false;
    }
    if str_eq(rel, ".gitignore") {
        return false;
    }
    if str_eq(rel, ".git") {
        return false;
    }
    if str_eq(rel, ".cargo-ok") {
        return false;
    }
    if str_ends_with(rel, ".orig") {
        return false;
    }
    if str_ends_with(rel, ".rej") {
        return false;
    }
    true
}

/// Path separators normalized to a single canonical form: every backslash
/// becomes a forward slash.
pub open spec fn normalize_sep(s: Seq<char>) -> Seq<char> {
    s.map_values(|c: char| if c == '\\' { '/' } else { c })
}

/// Rewrites a relative path with forward slashes only, so the recorded
/// manifest is byte-identical regardless of the host's separator style.
pub fn normalize_separators(s: &str) -> (r: String)
    ensures
        r@ == normalize_sep(s@),
{
    let n = s.unicode_len();
    let mut r = String::new();
    let mut i: usize = 0;
    while i < n
        invariant
            n == s@.len(),
            i <= n,
            r@ == normalize_sep(s@.take(i as int)),
        decreases n - i,
    {
        let c = s.get_char(i);
        if c == '\\' {
            push_char(&mut r, '/');
        } else {
            push_char(&mut r, c);
        }
        i = i + 1;
        proof {
            assert(r@ =~= normalize_sep(s@.take(i as int)));
        }
    }
    proof {
        assert(s@.take(n as int) =~= s@);
        assert(r@ =~= normalize_sep(s@));
    }
    r
}

/// Insertion into a key-sorted list of (path, digest) pairs; an existing
/// key's value is replaced.
pub open spec fn sorted_insert(
    s: Seq<(Seq<char>, Seq<char>)>,
    k: Seq<char>,
    v: Seq<char>,
) -> Seq<(Seq<char>, Seq<char>)>
    decreases s.len(),
{
    if s.len() == 0 {
        seq![(k, v)]
    } else if k == s[0].0 {
        seq![(k, v)] + s.drop_first()
    } else if lex_lt(k, s[0].0) {
        seq![(k, v)] + s
    } else {
        seq![s[0]] + sorted_insert(s.drop_first(), k, v)
    }
}

/// Strictly increasing keys.
pub open spec fn key_sorted(s: Seq<(Seq<char>, Seq<char>)>) -> bool {
    forall|i: int, j: int| 0 <= i < j < s.len() ==> lex_lt(#[trigger] s[i].0, #[trigger] s[j].0)
}

pub proof fn lemma_sorted_insert_wf(s: Seq<(Seq<char>, Seq<char>)>, k: Seq<char>, v: Seq<char>)
    requires
        key_sorted(s),
    ensures
        key_sorted(sorted_insert(s, k, v)),
    decreases s.len(),
{
    if s.len() == 0 {
    } else if k == s[0].0 {
        let r = seq![(k, v)] + s.drop_first();
        assert forall|i: int, j: int| 0 <= i < j < r.len() implies lex_lt(
            #[trigger] r[i].0,
            #[trigger] r[j].0,
        ) by {
            if i == 0 {
                assert(r[j] == s[j]);
                assert(lex_lt(s[0].0, s[j].0));
            } else {
                assert(r[i] == s[i] && r[j] == s[j]);
            }
        }
    } else if lex_lt(k, s[0].0) {
        let r = seq![(k, v)] + s;
        assert forall|i: int, j: int| 0 <= i < j < r.len() implies lex_lt(
            #[trigger] r[i].0,
            #[trigger] r[j].0,
        ) by {
            if i == 0 {
                assert(r[j] == s[j - 1]);
                if j > 1 {
                    assert(lex_lt(s[0].0, s[j - 1].0));
                    crate::text::lemma_lex_le_transitive(k, s[0].0, s[j - 1].0);
                    if k == s[j - 1].0 {
                        lemma_lex_le_antisymmetric(k, s[0].0);
                    }
                }
            } else {
                assert(r[i] == s[i - 1] && r[j] == s[j - 1]);
            }
        }
    } else {
        assert(key_sorted(s.drop_first())) by {
            assert forall|i: int, j: int| 0 <= i < j < s.drop_first().len() implies lex_lt(
                #[trigger] s.drop_first()[i].0,
                #[trigger] s.drop_first()[j].0,
            ) by {
                assert(s.drop_first()[i] == s[i + 1] && s.drop_first()[j] == s[j + 1]);
            }
        }
        lemma_sorted_insert_wf(s.drop_first(), k, v);
        let rest = sorted_insert(s.drop_first(), k, v);
        let r = seq![s[0]] + rest;
        // s[0].0 is below k and below every key of the tail
        lemma_lex_le_total(k, s[0].0);
        assert(lex_lt(s[0].0, k));
        assert forall|i: int, j: int| 0 <= i < j < r.len() implies lex_lt(
            #[trigger] r[i].0,
            #[trigger] r[j].0,
        ) by {
            if i == 0 {
                lemma_sorted_insert_head_bound(s.drop_first(), k, v, s[0].0, j - 1);
            } else {
                assert(r[i] == rest[i - 1] && r[j] == rest[j - 1]);
            }
        }
    }
}

/// Every key of `sorted_insert(s, k, v)` is either `k` or a key of `s`;
/// so a strict lower bound of both stays a strict lower bound.
proof fn lemma_sorted_insert_head_bound(
    s: Seq<(Seq<char>, Seq<char>)>,
    k: Seq<char>,
    v: Seq<char>,
    lo: Seq<char>,
    j: int,
)
    requires
        lex_lt(lo, k),
        forall|i: int| 0 <= i < s.len() ==> lex_lt(lo, #[trigger] s[i].0),
        0 <= j < sorted_insert(s, k, v).len(),
    ensures
        lex_lt(lo, sorted_insert(s, k, v)[j].0),
    decreases s.len(),
{
    if s.len() == 0 {
    } else if k == s[0].0 {
        if j > 0 {
            assert(sorted_insert(s, k, v)[j] == s.drop_first()[j - 1]);
            assert(s.drop_first()[j - 1] == s[j]);
        }
    } else if lex_lt(k, s[0].0) {
        if j > 0 {
            assert(sorted_insert(s, k, v)[j] == s[j - 1]);
        }
    } else {
        if j > 0 {
            assert(sorted_insert(s, k, v)[j] == sorted_insert(s.drop_first(), k, v)[j - 1]);
            assert(forall|i: int|
                0 <= i < s.drop_first().len() ==> lex_lt(lo, #[trigger] s.drop_first()[i].0))
                by {
                assert(forall|i: int|
                    0 <= i < s.drop_first().len() ==> s.drop_first()[i] == s[i + 1]);
            }
            lemma_sorted_insert_head_bound(s.drop_first(), k, v, lo, j - 1);
        }
    }
}

/// `sorted_insert` splices the new pair in at the first position whose key
/// is not below `k`.
proof fn lemma_sorted_insert_splice(
    s: Seq<(Seq<char>, Seq<char>)>,
    k: Seq<char>,
    v: Seq<char>,
    idx: int,
)
    requires
        0 <= idx <= s.len(),
        forall|j: int| 0 <= j < idx ==> lex_lt(#[trigger] s[j].0, k),
        idx < s.len() ==> (k == s[idx].0 || lex_lt(k, s[idx].0)),
    ensures
        idx < s.len() && k == s[idx].0 ==> sorted_insert(s, k, v) == s.take(idx) + seq![(k, v)]
            + s.skip(idx + 1),
        !(idx < s.len() && k == s[idx].0) ==> sorted_insert(s, k, v) == s.take(idx) + seq![(k, v)]
            + s.skip(idx),
    decreases s.len(),
{
    if s.len() == 0 {
        assert(sorted_insert(s, k, v) =~= s.take(0) + seq![(k, v)] + s.skip(0));
    } else if idx == 0 {
        if k == s[0].0 {
            assert(sorted_insert(s, k, v) =~= s.take(0) + seq![(k, v)] + s.skip(1));
        } else {
            assert(lex_lt(k, s[0].0));
            assert(sorted_insert(s, k, v) =~= s.take(0) + seq![(k, v)] + s.skip(0));
        }
    } else {
        assert(lex_lt(s[0].0, k));
        assert(k != s[0].0);
        if lex_lt(k, s[0].0) {
            lemma_lex_le_antisymmetric(k, s[0].0);
            assert(false);
        }
        let t = s.drop_first();
        assert(forall|j: int| 0 <= j < idx - 1 ==> lex_lt(#[trigger] t[j].0, k)) by {
            assert(forall|j: int| 0 <= j < t.len() ==> t[j] == s[j + 1]);
        }
        assert(idx - 1 < t.len() ==> (k == t[idx - 1].0 || lex_lt(k, t[idx - 1].0))) by {
            if idx - 1 < t.len() {
                assert(t[idx - 1] == s[idx]);
            }
        }
        lemma_sorted_insert_splice(t, k, v, idx - 1);
        if idx < s.len() && k == s[idx].0 {
            assert(t[idx - 1] == s[idx]);
            assert(seq![s[0]] + (t.take(idx - 1) + seq![(k, v)] + t.skip(idx)) =~= s.take(idx)
                + seq![(k, v)] + s.skip(idx + 1));
        } else {
            assert(seq![s[0]] + (t.take(idx - 1) + seq![(k, v)] + t.skip(idx - 1)) =~= s.take(idx)
                + seq![(k, v)] + s.skip(idx));
        }
    }
}

/// Inserts a (path, digest) pair into a key-sorted list, keeping it
/// sorted; an existing key's value is replaced.
pub fn insert_sorted(entries: &mut Vec<(String, String)>, k: String, v: String)
    ensures
        final(entries).deep_view() == sorted_insert(old(entries).deep_view(), k@, v@),
{
    let ghost s = entries.deep_view();
    let mut idx: usize = 0;
    while idx < entries.len()
        invariant
            s == entries.deep_view(),
            s == old(entries).deep_view(),
            idx <= entries@.len(),
            s.len() == entries@.len(),
            forall|j: int| 0 <= j < idx ==> lex_lt(#[trigger] s[j].0, k@),
        decreases entries@.len() - idx,
    {
        proof {
            assert(s[idx as int] == (entries@[idx as int].0@, entries@[idx as int].1@));
        }
        let le = str_le(entries[idx].0.as_str(), k.as_str());
        let eq = str_eq(entries[idx].0.as_str(), k.as_str());
        if !(le && !eq) {
            // entries[idx].0 is not strictly below k
            proof {
                lemma_lex_le_total(s[idx as int].0, k@);
                lemma_sorted_insert_splice(s, k@, v@, idx as int);
            }
            if eq {
                entries.set(idx, (k, v));
                proof {
                    assert(entries.deep_view() =~= s.take(idx as int) + seq![(k@, v@)] + s.skip(
                        idx + 1,
                    ));
                }
            } else {
                entries.insert(idx, (k, v));
                proof {
                    assert(entries.deep_view() =~= s.take(idx as int) + seq![(k@, v@)] + s.skip(
                        idx as int,
                    ));
                }
            }
            return ;
        }
        idx = idx + 1;
    }
    proof {
        lemma_sorted_insert_splice(s, k@, v@, s.len() as int);
    }
    entries.push((k, v));
    proof {
        assert(entries.deep_view() =~= s.take(s.len() as int) + seq![(k@, v@)] + s.skip(
            s.len() as int,
        ));
    }
}

/// The normalized relative paths of the files that are copied, in input
/// order.
pub open spec fn kept_of(rels: Seq<Seq<char>>) -> Seq<Seq<char>>
    decreases rels.len(),
{
    if rels.len() == 0 {
        Seq::empty()
    } else {
        kept_of(rels.drop_last()) + (if excluded_file(rels.last()) {
            Seq::<Seq<char>>::empty()
        } else {
            seq![normalize_sep(rels.last())]
        })
    }
}

/// The key-sorted (normalized path, content digest) pairs recorded for a
/// package given its file listing and the files' contents.
pub open spec fn vendored_pairs(rels: Seq<Seq<char>>, contents: Seq<Seq<u8>>) -> Seq<
    (Seq<char>, Seq<char>),
>
    decreases rels.len(),
{
    if rels.len() == 0 {
        Seq::empty()
    } else {
        let rest = vendored_pairs(rels.drop_last(), contents.drop_last());
        if excluded_file(rels.last()) {
            rest
        } else {
            sorted_insert(rest, normalize_sep(rels.last()), content_digest_of(contents.last()))
        }
    }
}

/// The recorded file map's keys are strictly sorted, whatever order the
/// files were listed in.
pub proof fn lemma_vendored_pairs_sorted(rels: Seq<Seq<char>>, contents: Seq<Seq<u8>>)
    ensures
        key_sorted(vendored_pairs(rels, contents)),
    decreases rels.len(),
{
    if rels.len() > 0 {
        lemma_vendored_pairs_sorted(rels.drop_last(), contents.drop_last());
        if !excluded_file(rels.last()) {
            lemma_sorted_insert_wf(
                vendored_pairs(rels.drop_last(), contents.drop_last()),
                normalize_sep(rels.last()),
                content_digest_of(contents.last()),
            );
        }
    }
}

/// The JSON escape of one character, as a JSON string serializer writes it.
pub open spec fn esc_char(c: char) -> Seq<char> {
    if c == '"' {
        seq!['\\', '"']
    } else if c == '\\' {
        seq!['\\', '\\']
    } else if c == '\u{8}' {
        seq!['\\', 'b']
    } else if c == '\t' {
        seq!['\\', 't']
    } else if c == '\n' {
        seq!['\\', 'n']
    } else if c == '\u{c}' {
        seq!['\\', 'f']
    } else if c == '\r' {
        seq!['\\', 'r']
    } else if (c as u32) < 0x20 {
        seq!['\\', 'u', '0', '0', hex_digit((c as u32 / 16) as u8), hex_digit((c as u32 % 16) as u8)]
    } else {
        seq![c]
    }
}

pub open spec fn json_escaped(s: Seq<char>) -> Seq<char>
    decreases s.len(),
{
    if s.len() == 0 {
        Seq::empty()
    } else {
        json_escaped(s.drop_last()) + esc_char(s.last())
    }
}

/// A JSON string: quotes around the escaped characters.
pub open spec fn json_string_of(s: Seq<char>) -> Seq<char> {
    seq!['"'] + json_escaped(s) + seq!['"']
}

/// Appends the JSON string rendering of `raw` to `out`.
pub fn push_json_string(out: &mut String, raw: &str)
    ensures
        final(out)@ == old(out)@ + json_string_of(raw@),
{
    let n = raw.unicode_len();
    push_char(out, '"');
    let mut i: usize = 0;
    while i < n
        invariant
            n == raw@.len(),
            i <= n,
            out@ == old(out)@ + seq!['"'] + json_escaped(raw@.take(i as int)),
        decreases n - i,
    {
        let c = raw.get_char(i);
        if c == '"' {
            push_char(out, '\\');
            push_char(out, '"');
        } else if c == '\\' {
            push_char(out, '\\');
            push_char(out, '\\');
        } else if c == '\u{8}' {
            push_char(out, '\\');
            push_char(out, 'b');
        } else if c == '\t' {
            push_char(out, '\\');
            push_char(out, 't');
        } else if c == '\n' {
            push_char(out, '\\');
            push_char(out, 'n');
        } else if c == '\u{c}' {
            push_char(out, '\\');
            push_char(out, 'f');
        } else if c == '\r' {
            push_char(out, '\\');
            push_char(out, 'r');
        } else if (c as u32) < 0x20 {
            push_char(out, '\\');
            push_char(out, 'u');
            push_char(out, '0');
            push_char(out, '0');
            let u = c as u32;
            push_char(out, hex_digit_char((u / 16) as u8));
            push_char(out, hex_digit_char((u % 16) as u8));
        } else {
            push_char(out, c);
        }
        i = i + 1;
        proof {
            let p = raw@.take(i as int);
            assert(p.drop_last() =~= raw@.take(i - 1));
            assert(p.last() == raw@[i - 1]);
            assert(out@ =~= old(out)@ + seq!['"'] + json_escaped(p));
        }
    }
    push_char(out, '"');
    proof {
        assert(raw@.take(n as int) =~= raw@);
        assert(out@ =~= old(out)@ + json_string_of(raw@));
    }
}

/// The JSON rendering of the `files` object: one `"path":"digest"` member
/// per pair, in list order.
pub open spec fn files_json_of(files: Seq<(Seq<char>, Seq<char>)>) -> Seq<char>
    decreases files.len(),
{
    if files.len() == 0 {
        Seq::empty()
    } else if files.len() == 1 {
        json_string_of(files[0].0) + seq![':'] + json_string_of(files[0].1)
    } else {
        files_json_of(files.drop_last()) + seq![','] + json_string_of(files.last().0) + seq![':']
            + json_string_of(files.last().1)
    }
}

/// The whole checksum manifest: the `files` object and the origin
/// checksum under `package` (JSON `null` when the origin has none), with
/// the keys in sorted order as a map serializer writes them.
pub open spec fn manifest_json_of(
    pkg: Option<Seq<char>>,
    files: Seq<(Seq<char>, Seq<char>)>,
) -> Seq<char> {
    "{\"files\":{"@ + files_json_of(files) + "},\"package\":"@ + (match pkg {
        Option::None => "null"@,
        Option::Some(c) => json_string_of(c),
    }) + "}"@
}

/// Renders the checksum manifest for a package: its origin checksum (if
/// any) and the sorted (path, digest) pairs.
pub fn manifest_json(pkg_checksum: &Option<String>, files: &Vec<(String, String)>) -> (r: String)
    ensures
        r@ == manifest_json_of(pkg_checksum.deep_view(), files.deep_view()),
{
    let mut out = String::new();
    out.append("{\"files\":{");
    let mut i: usize = 0;
    while i < files.len()
        invariant
            i <= files@.len(),
            files.deep_view().len() == files@.len(),
            out@ == "{\"files\":{"@ + files_json_of(files.deep_view().take(i as int)),
        decreases files@.len() - i,
    {
        if i > 0 {
            push_char(&mut out, ',');
        }
        proof {
            assert(files.deep_view()[i as int] == (files@[i as int].0@, files@[i as int].1@));
        }
        push_json_string(&mut out, files[i].0.as_str());
        push_char(&mut out, ':');
        push_json_string(&mut out, files[i].1.as_str());
        i = i + 1;
        proof {
            let p = files.deep_view().take(i as int);
            assert(p.drop_last() =~= files.deep_view().take(i - 1));
            assert(p.last() == files.deep_view()[i - 1]);
            assert(out@ =~= "{\"files\":{"@ + files_json_of(p));
        }
    }
    proof {
        assert(files.deep_view().take(files.deep_view().len() as int) =~= files.deep_view());
    }
    out.append("},\"package\":");
    match pkg_checksum {
        Option::None => {
            out.append("null");
        },
        Option::Some(c) => {
            push_json_string(&mut out, c.as_str());
        },
    }
    out.append("}");
    proof {
        assert(out@ =~= manifest_json_of(pkg_checksum.deep_view(), files.deep_view()));
    }
    out
}

/// Selects, normalizes and hashes a package's files: returns the
/// normalized relative paths to copy (in input order) and the rendered
/// checksum manifest. `rels` and `contents` pair up index-by-index.
pub fn cp_sources(
    rels: &Vec<String>,
    contents: &Vec<Vec<u8>>,
    pkg_checksum: &Option<String>,
) -> (r: (Vec<String>, String))
    requires
        rels@.len() == contents@.len(),
    ensures
        r.0.deep_view() == kept_of(rels.deep_view()),
        r.1@ == manifest_json_of(
            pkg_checksum.deep_view(),
            vendored_pairs(rels.deep_view(), contents.deep_view()),
        ),
{
    let mut kept: Vec<String> = Vec::new();
    let mut map: Vec<(String, String)> = Vec::new();
    let mut i: usize = 0;
    while i < rels.len()
        invariant
            rels@.len() == contents@.len(),
            rels.deep_view().len() == rels@.len(),
            contents.deep_view().len() == contents@.len(),
            i <= rels@.len(),
            kept.deep_view() == kept_of(rels.deep_view().take(i as int)),
            map.deep_view() == vendored_pairs(
                rels.deep_view().take(i as int),
                contents.deep_view().take(i as int),
            ),
        decreases rels@.len() - i,
    {
        proof {
            assert(rels.deep_view()[i as int] == rels@[i as int]@);
            assert(contents.deep_view()[i as int] == contents@[i as int]@);
        }
        if keep_file(rels[i].as_str()) {
            let norm = normalize_separators(rels[i].as_str());
            let digest = sha256(contents[i].as_slice());
            kept.push(norm.clone());
            insert_sorted(&mut map, norm, digest);
        }
        i = i + 1;
        proof {
            let pr = rels.deep_view().take(i as int);
            let pc = contents.deep_view().take(i as int);
            assert(pr.drop_last() =~= rels.deep_view().take(i - 1));
            assert(pc.drop_last() =~= contents.deep_view().take(i - 1));
            assert(pr.last() == rels.deep_view()[i - 1]);
            assert(pc.last() == contents.deep_view()[i - 1]);
            assert(kept.deep_view() =~= kept_of(pr));
            assert(map.deep_view() =~= vendored_pairs(pr, pc));
        }
    }
    proof {
        assert(rels.deep_view().take(rels@.len() as int) =~= rels.deep_view());
        assert(contents.deep_view().take(contents@.len() as int) =~= contents.deep_view());
    }
    let manifest = manifest_json(pkg_checksum, &map);
    (kept, manifest)
}

} // verus!
