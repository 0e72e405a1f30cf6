//! Semantic versions: precedence ordering (which ignores build metadata),
//! identity equality (which does not), and decimal rendering.

use vstd::prelude::*;

use crate::text::{
    lex_le, lex_lt, lemma_lex_le_antisymmetric, lemma_lex_le_total, lemma_lex_le_transitive,
    dec_of, push_char, push_decimal, str_eq, str_le,
};

verus! {

/// One dot-separated identifier in a pre-release or build-metadata list.
#[derive(Debug)]
pub enum VersionIdent {
    Num(u64),
    Alpha(String),
}

/// A semantic version. Two versions are the *same identity* only when all
/// five fields agree ([`version_eq`]); precedence comparison ignores the
/// build metadata ([`spec_version_lt`]).
#[derive(Debug)]
pub struct Version {
    pub major: u64,
    pub minor: u64,
    pub patch: u64,
    pub pre: Vec<VersionIdent>,
    pub build: Vec<VersionIdent>,
}

/// Equality of identifiers: numeric ones by value, alphanumeric ones by
/// their characters. A numeric and an alphanumeric identifier never match.
pub open spec fn ident_eq(a: VersionIdent, b: VersionIdent) -> bool {
    match (a, b) {
        (VersionIdent::Num(x), VersionIdent::Num(y)) => x == y,
        (VersionIdent::Alpha(x), VersionIdent::Alpha(y)) => x@ == y@,
        _ => false,
    }
}

/// Precedence of identifiers: numeric below alphanumeric; numeric ones by
/// value; alphanumeric ones lexicographically.
pub open spec fn ident_lt(a: VersionIdent, b: VersionIdent) -> bool {
    match (a, b) {
        (VersionIdent::Num(x), VersionIdent::Num(y)) => x < y,
        (VersionIdent::Num(_), VersionIdent::Alpha(_)) => true,
        (VersionIdent::Alpha(_), VersionIdent::Num(_)) => false,
        (VersionIdent::Alpha(x), VersionIdent::Alpha(y)) => lex_lt(x@, y@),
    }
}

/// Element-wise equality of identifier lists.
pub open spec fn idents_eq(a: Seq<VersionIdent>, b: Seq<VersionIdent>) -> bool {
    a.len() == b.len() && forall|i: int| 0 <= i < a.len() ==> ident_eq(#[trigger] a[i], b[i])
}

/// Precedence of non-empty pre-release lists: the first differing
/// identifier decides; a strict prefix comes first.
pub open spec fn pre_list_lt(a: Seq<VersionIdent>, b: Seq<VersionIdent>) -> bool
    decreases a.len(),
{
    if a.len() == 0 {
        b.len() > 0
    } else if b.len() == 0 {
        false
    } else if ident_eq(a[0], b[0]) {
        pre_list_lt(a.drop_first(), b.drop_first())
    } else {
        ident_lt(a[0], b[0])
    }
}

/// Version precedence: major, minor, patch numerically; a version with a
/// pre-release list comes before the same release without one; pre-release
/// lists by [`pre_list_lt`]. Build metadata is ignored.
pub open spec fn spec_version_lt(a: Version, b: Version) -> bool {
    if a.major != b.major {
        a.major < b.major
    } else if a.minor != b.minor {
        a.minor < b.minor
    } else if a.patch != b.patch {
        a.patch < b.patch
    } else if a.pre@.len() == 0 {
        false
    } else if b.pre@.len() == 0 {
        true
    } else {
        pre_list_lt(a.pre@, b.pre@)
    }
}

/// Equal precedence: equal release numbers and equal pre-release lists.
/// Build metadata is ignored, so `1.0.0+a` and `1.0.0+b` tie.
pub open spec fn version_prec_eq(a: Version, b: Version) -> bool {
    a.major == b.major && a.minor == b.minor && a.patch == b.patch && idents_eq(a.pre@, b.pre@)
}

/// Precedence at-most: strictly below or tied.
pub open spec fn spec_version_le(a: Version, b: Version) -> bool {
    spec_version_lt(a, b) || version_prec_eq(a, b)
}

/// Identity equality: equal precedence and equal build metadata.
pub open spec fn version_eq(a: Version, b: Version) -> bool {
    version_prec_eq(a, b) && idents_eq(a.build@, b.build@)
}

pub proof fn lemma_ident_lt_asymmetric(a: VersionIdent, b: VersionIdent)
    requires
        ident_lt(a, b),
    ensures
        !ident_lt(b, a),
        !ident_eq(a, b),
{
    match (a, b) {
        (VersionIdent::Alpha(x), VersionIdent::Alpha(y)) => {
            if lex_lt(y@, x@) {
                lemma_lex_le_antisymmetric(x@, y@);
            }
        },
        _ => {},
    }
}

pub proof fn lemma_ident_connex(a: VersionIdent, b: VersionIdent)
    requires
        !ident_lt(a, b),
        !ident_lt(b, a),
    ensures
        ident_eq(a, b),
{
    match (a, b) {
        (VersionIdent::Alpha(x), VersionIdent::Alpha(y)) => {
            lemma_lex_le_total(x@, y@);
        },
        _ => {},
    }
}

pub proof fn lemma_ident_lt_transitive(a: VersionIdent, b: VersionIdent, c: VersionIdent)
    requires
        ident_lt(a, b),
        ident_lt(b, c),
    ensures
        ident_lt(a, c),
{
    match (a, b, c) {
        (VersionIdent::Alpha(x), VersionIdent::Alpha(y), VersionIdent::Alpha(z)) => {
            lemma_lex_le_transitive(x@, y@, z@);
            if x@ == z@ {
                lemma_lex_le_antisymmetric(x@, y@);
            }
        },
        _ => {},
    }
}

pub proof fn lemma_pre_list_connex(a: Seq<VersionIdent>, b: Seq<VersionIdent>)
    requires
        !pre_list_lt(a, b),
        !pre_list_lt(b, a),
    ensures
        idents_eq(a, b),
    decreases a.len(),
{
    if a.len() == 0 {
        assert(b.len() == 0);
    } else if b.len() == 0 {
    } else {
        if !ident_eq(a[0], b[0]) {
            if ident_eq(b[0], a[0]) {
                assert(ident_eq(a[0], b[0]));
            } else {
                lemma_ident_connex(a[0], b[0]);
            }
        }
        lemma_pre_list_connex(a.drop_first(), b.drop_first());
        assert forall|i: int| 0 <= i < a.len() implies ident_eq(#[trigger] a[i], b[i]) by {
            if i > 0 {
                assert(ident_eq(a.drop_first()[i - 1], b.drop_first()[i - 1]));
            }
        }
    }
}

pub proof fn lemma_pre_list_asymmetric(a: Seq<VersionIdent>, b: Seq<VersionIdent>)
    requires
        pre_list_lt(a, b),
    ensures
        !pre_list_lt(b, a),
        !idents_eq(a, b),
    decreases a.len(),
{
    if a.len() == 0 {
    } else if b.len() == 0 {
    } else if ident_eq(a[0], b[0]) {
        assert(ident_eq(b[0], a[0]));
        lemma_pre_list_asymmetric(a.drop_first(), b.drop_first());
        if idents_eq(a, b) {
            assert forall|i: int| 0 <= i < a.drop_first().len() implies ident_eq(
                #[trigger] a.drop_first()[i],
                b.drop_first()[i],
            ) by {
                assert(ident_eq(a[i + 1], b[i + 1]));
            }
        }
    } else {
        lemma_ident_lt_asymmetric(a[0], b[0]);
        if ident_eq(b[0], a[0]) {
            assert(ident_eq(a[0], b[0]));
        }
    }
}

/// Replacing the head of either list by an equal identifier does not
/// change the comparison.
pub proof fn lemma_ident_eq_congruent(a: VersionIdent, b: VersionIdent, c: VersionIdent)
    requires
        ident_eq(a, b),
    ensures
        ident_lt(a, c) == ident_lt(b, c),
        ident_lt(c, a) == ident_lt(c, b),
        ident_eq(a, c) == ident_eq(b, c),
{
}

pub proof fn lemma_pre_list_lt_transitive(
    a: Seq<VersionIdent>,
    b: Seq<VersionIdent>,
    c: Seq<VersionIdent>,
)
    requires
        pre_list_lt(a, b),
        pre_list_lt(b, c),
    ensures
        pre_list_lt(a, c),
    decreases a.len() + b.len() + c.len(),
{
    if a.len() == 0 {
        if b.len() == 0 {
        } else {
            assert(c.len() > 0);
        }
    } else if b.len() == 0 {
    } else if c.len() == 0 {
    } else {
        let ea = ident_eq(a[0], b[0]);
        let eb = ident_eq(b[0], c[0]);
        if ea && eb {
            lemma_pre_list_lt_transitive(a.drop_first(), b.drop_first(), c.drop_first());
            lemma_ident_eq_congruent(a[0], b[0], c[0]);
        } else if ea {
            // heads of a and b equal, b[0] < c[0]
            lemma_ident_eq_congruent(a[0], b[0], c[0]);
        } else if eb {
            // a[0] < b[0], heads of b and c equal
            lemma_ident_eq_congruent(b[0], c[0], a[0]);
        } else {
            lemma_ident_lt_transitive(a[0], b[0], c[0]);
            if ident_eq(a[0], c[0]) {
                lemma_ident_eq_congruent(a[0], c[0], b[0]);
                lemma_ident_lt_asymmetric(c[0], b[0]);
            }
        }
    }
}

pub proof fn lemma_version_le_total(a: Version, b: Version)
    ensures
        spec_version_le(a, b) || spec_version_le(b, a),
{
    if a.major == b.major && a.minor == b.minor && a.patch == b.patch {
        if a.pre@.len() > 0 && b.pre@.len() > 0 {
            if !pre_list_lt(a.pre@, b.pre@) && !pre_list_lt(b.pre@, a.pre@) {
                lemma_pre_list_connex(a.pre@, b.pre@);
            }
        }
    }
}

pub proof fn lemma_version_le_antisymmetric(a: Version, b: Version)
    requires
        spec_version_le(a, b),
        spec_version_le(b, a),
    ensures
        version_prec_eq(a, b),
{
    if spec_version_lt(a, b) {
        if spec_version_lt(b, a) {
            if a.pre@.len() > 0 && b.pre@.len() > 0 {
                lemma_pre_list_asymmetric(a.pre@, b.pre@);
            }
        } else {
            // version_prec_eq(b, a) holds; show it contradicts strictness
            if a.pre@.len() > 0 && b.pre@.len() > 0 {
                lemma_pre_list_asymmetric(a.pre@, b.pre@);
                assert forall|i: int| 0 <= i < a.pre@.len() implies ident_eq(
                    #[trigger] a.pre@[i],
                    b.pre@[i],
                ) by {
                    lemma_ident_eq_congruent(b.pre@[i], a.pre@[i], b.pre@[i]);
                    assert(ident_eq(a.pre@[i], b.pre@[i]));
                }
            }
        }
    }
}

pub proof fn lemma_version_le_transitive(a: Version, b: Version, c: Version)
    requires
        spec_version_le(a, b),
        spec_version_le(b, c),
    ensures
        spec_version_le(a, c),
{
    let rel = a.major == b.major && a.minor == b.minor && a.patch == b.patch && b.major == c.major
        && b.minor == c.minor && b.patch == c.patch;
    if rel {
        if a.pre@.len() > 0 && b.pre@.len() > 0 && c.pre@.len() > 0 {
            if pre_list_lt(a.pre@, b.pre@) && pre_list_lt(b.pre@, c.pre@) {
                lemma_pre_list_lt_transitive(a.pre@, b.pre@, c.pre@);
            } else if pre_list_lt(a.pre@, b.pre@) {
                // b and c tie on pre-release
                lemma_pre_lt_congruent(a.pre@, b.pre@, c.pre@);
            } else if pre_list_lt(b.pre@, c.pre@) {
                lemma_pre_lt_congruent_left(a.pre@, b.pre@, c.pre@);
            } else {
                lemma_idents_eq_transitive(a.pre@, b.pre@, c.pre@);
            }
        }
    }
}

/// If the pre-release lists of `b` and `c` are element-wise equal, a strict
/// comparison against `b` is also one against `c`.
pub proof fn lemma_pre_lt_congruent(a: Seq<VersionIdent>, b: Seq<VersionIdent>, c: Seq<VersionIdent>)
    requires
        pre_list_lt(a, b),
        idents_eq(b, c),
    ensures
        pre_list_lt(a, c),
    decreases a.len(),
{
    if a.len() == 0 {
    } else if b.len() == 0 {
    } else {
        assert(ident_eq(b[0], c[0]));
        lemma_ident_eq_congruent(b[0], c[0], a[0]);
        if ident_eq(a[0], b[0]) {
            assert(ident_eq(a[0], c[0])) by {
                lemma_ident_eq_congruent(b[0], c[0], a[0]);
            }
            assert(idents_eq(b.drop_first(), c.drop_first())) by {
                assert forall|i: int| 0 <= i < b.drop_first().len() implies ident_eq(
                    #[trigger] b.drop_first()[i],
                    c.drop_first()[i],
                ) by {
                    assert(ident_eq(b[i + 1], c[i + 1]));
                }
            }
            lemma_pre_lt_congruent(a.drop_first(), b.drop_first(), c.drop_first());
        } else {
            if ident_eq(a[0], c[0]) {
                lemma_ident_eq_congruent(a[0], c[0], b[0]);
                assert(ident_eq(b[0], a[0]));
                assert(ident_eq(a[0], b[0]));
            }
        }
    }
}

/// If the pre-release lists of `a` and `b` are element-wise equal, a strict
/// comparison of `b` against `c` also holds of `a`.
pub proof fn lemma_pre_lt_congruent_left(
    a: Seq<VersionIdent>,
    b: Seq<VersionIdent>,
    c: Seq<VersionIdent>,
)
    requires
        idents_eq(a, b),
        pre_list_lt(b, c),
    ensures
        pre_list_lt(a, c),
    decreases a.len(),
{
    if a.len() == 0 {
    } else if c.len() == 0 {
    } else {
        assert(ident_eq(a[0], b[0]));
        if ident_eq(b[0], c[0]) {
            lemma_ident_eq_congruent(a[0], b[0], c[0]);
            assert(idents_eq(a.drop_first(), b.drop_first())) by {
                assert forall|i: int| 0 <= i < a.drop_first().len() implies ident_eq(
                    #[trigger] a.drop_first()[i],
                    b.drop_first()[i],
                ) by {
                    assert(ident_eq(a[i + 1], b[i + 1]));
                }
            }
            lemma_pre_lt_congruent_left(a.drop_first(), b.drop_first(), c.drop_first());
        } else {
            lemma_ident_eq_congruent(a[0], b[0], c[0]);
        }
    }
}

pub proof fn lemma_idents_eq_transitive(
    a: Seq<VersionIdent>,
    b: Seq<VersionIdent>,
    c: Seq<VersionIdent>,
)
    requires
        idents_eq(a, b),
        idents_eq(b, c),
    ensures
        idents_eq(a, c),
{
    assert forall|i: int| 0 <= i < a.len() implies ident_eq(#[trigger] a[i], c[i]) by {
        assert(ident_eq(a[i], b[i]));
        assert(ident_eq(b[i], c[i]));
        lemma_ident_eq_congruent(a[i], b[i], c[i]);
    }
}

pub proof fn lemma_idents_eq_symmetric(a: Seq<VersionIdent>, b: Seq<VersionIdent>)
    requires
        idents_eq(a, b),
    ensures
        idents_eq(b, a),
{
    assert forall|i: int| 0 <= i < b.len() implies ident_eq(#[trigger] b[i], a[i]) by {
        assert(ident_eq(a[i], b[i]));
    }
}

pub proof fn lemma_version_prec_eq_symmetric(a: Version, b: Version)
    requires
        version_prec_eq(a, b),
    ensures
        version_prec_eq(b, a),
{
    lemma_idents_eq_symmetric(a.pre@, b.pre@);
}

pub proof fn lemma_version_lt_asymmetric(a: Version, b: Version)
    requires
        spec_version_lt(a, b),
    ensures
        !spec_version_lt(b, a),
        !version_prec_eq(a, b),
        !version_prec_eq(b, a),
{
    if a.major == b.major && a.minor == b.minor && a.patch == b.patch {
        if a.pre@.len() > 0 && b.pre@.len() > 0 {
            lemma_pre_list_asymmetric(a.pre@, b.pre@);
            if version_prec_eq(b, a) {
                lemma_idents_eq_symmetric(b.pre@, a.pre@);
            }
        }
    }
}

/// A strict precedence step followed by an at-most step stays strict.
pub proof fn lemma_version_lt_le_transitive(a: Version, b: Version, c: Version)
    requires
        spec_version_lt(a, b),
        spec_version_le(b, c),
    ensures
        spec_version_lt(a, c),
{
    lemma_version_le_transitive(a, b, c);
    if version_prec_eq(a, c) {
        lemma_version_prec_eq_symmetric(a, c);
        lemma_version_le_transitive(b, c, a);
        lemma_version_le_antisymmetric(a, b);
        lemma_version_lt_asymmetric(a, b);
    }
}

fn ident_eq_exec(a: &VersionIdent, b: &VersionIdent) -> (r: bool)
    ensures
        r == ident_eq(*a, *b),
{
    match (a, b) {
        (VersionIdent::Num(x), VersionIdent::Num(y)) => *x == *y,
        (VersionIdent::Alpha(x), VersionIdent::Alpha(y)) => str_eq(x.as_str(), y.as_str()),
        _ => false,
    }
}

fn ident_lt_exec(a: &VersionIdent, b: &VersionIdent) -> (r: bool)
    ensures
        r == ident_lt(*a, *b),
{
    match (a, b) {
        (VersionIdent::Num(x), VersionIdent::Num(y)) => *x < *y,
        (VersionIdent::Num(_), VersionIdent::Alpha(_)) => true,
        (VersionIdent::Alpha(_), VersionIdent::Num(_)) => false,
        (VersionIdent::Alpha(x), VersionIdent::Alpha(y)) => {
            let le = str_le(x.as_str(), y.as_str());
            let eq = str_eq(x.as_str(), y.as_str());
            le && !eq
        },
    }
}

fn pre_list_lt_exec(a: &Vec<VersionIdent>, b: &Vec<VersionIdent>) -> (r: bool)
    ensures
        r == pre_list_lt(a@, b@),
{
    let mut i: usize = 0;
    proof {
        assert(a@.skip(0) =~= a@);
        assert(b@.skip(0) =~= b@);
    }
    loop
        invariant
            i <= a@.len(),
            i <= b@.len(),
            pre_list_lt(a@, b@) == pre_list_lt(a@.skip(i as int), b@.skip(i as int)),
        decreases a@.len() - i,
    {
        if i == a.len() {
            return b.len() > i;
        }
        if i == b.len() {
            return false;
        }
        proof {
            assert(a@.skip(i as int)[0] == a@[i as int]);
            assert(b@.skip(i as int)[0] == b@[i as int]);
            assert(a@.skip(i as int).drop_first() =~= a@.skip(i + 1));
            assert(b@.skip(i as int).drop_first() =~= b@.skip(i + 1));
        }
        if !ident_eq_exec(&a[i], &b[i]) {
            return ident_lt_exec(&a[i], &b[i]);
        }
        i = i + 1;
    }
}

fn idents_eq_exec(a: &Vec<VersionIdent>, b: &Vec<VersionIdent>) -> (r: bool)
    ensures
        r == idents_eq(a@, b@),
{
    if a.len() != b.len() {
        return false;
    }
    let mut i: usize = 0;
    while i < a.len()
        invariant
            a@.len() == b@.len(),
            i <= a@.len(),
            forall|j: int| 0 <= j < i ==> ident_eq(#[trigger] a@[j], b@[j]),
        decreases a@.len() - i,
    {
        if !ident_eq_exec(&a[i], &b[i]) {
            return false;
        }
        i = i + 1;
    }
    true
}

/// Strict precedence comparison of two versions.
pub fn version_lt(a: &Version, b: &Version) -> (r: bool)
    ensures
        r == spec_version_lt(*a, *b),
{
    if a.major != b.major {
        a.major < b.major
    } else if a.minor != b.minor {
        a.minor < b.minor
    } else if a.patch != b.patch {
        a.patch < b.patch
    } else if a.pre.len() == 0 {
        false
    } else if b.pre.len() == 0 {
        true
    } else {
        pre_list_lt_exec(&a.pre, &b.pre)
    }
}

/// Equal-precedence test: build metadata is ignored.
pub fn version_tied(a: &Version, b: &Version) -> (r: bool)
    ensures
        r == version_prec_eq(*a, *b),
{
    a.major == b.major && a.minor == b.minor && a.patch == b.patch && idents_eq_exec(
        &a.pre,
        &b.pre,
    )
}

/// Precedence at-most comparison.
pub fn version_le(a: &Version, b: &Version) -> (r: bool)
    ensures
        r == spec_version_le(*a, *b),
{
    if version_lt(a, b) {
        true
    } else {
        version_tied(a, b)
    }
}

/// Identity equality: precedence tie and equal build metadata.
pub fn version_same(a: &Version, b: &Version) -> (r: bool)
    ensures
        r == version_eq(*a, *b),
{
    version_tied(a, b) && idents_eq_exec(&a.build, &b.build)
}

/// The rendering of one identifier.
pub open spec fn ident_str_of(id: VersionIdent) -> Seq<char> {
    match id {
        VersionIdent::Num(n) => dec_of(n as nat),
        VersionIdent::Alpha(s) => s@,
    }
}

/// The rendering of an identifier list, dot-separated.
pub open spec fn idents_str_of(l: Seq<VersionIdent>) -> Seq<char>
    decreases l.len(),
{
    if l.len() == 0 {
        Seq::empty()
    } else if l.len() == 1 {
        ident_str_of(l[0])
    } else {
        idents_str_of(l.drop_last()) + seq!['.'] + ident_str_of(l.last())
    }
}

/// The rendering of a version: `major.minor.patch`, then `-` and the
/// pre-release list when present, then `+` and the build list when present.
pub open spec fn version_str_of(v: Version) -> Seq<char> {
    dec_of(v.major as nat) + seq!['.'] + dec_of(v.minor as nat) + seq!['.'] + dec_of(
        v.patch as nat,
    ) + (if v.pre@.len() == 0 {
        Seq::<char>::empty()
    } else {
        seq!['-'] + idents_str_of(v.pre@)
    }) + (if v.build@.len() == 0 {
        Seq::<char>::empty()
    } else {
        seq!['+'] + idents_str_of(v.build@)
    })
}

fn push_ident(s: &mut String, id: &VersionIdent)
    ensures
        final(s)@ == old(s)@ + ident_str_of(*id),
{
    match id {
        VersionIdent::Num(n) => push_decimal(s, *n),
        VersionIdent::Alpha(a) => {
            s.append(a.as_str());
        },
    }
}

fn push_idents(s: &mut String, l: &Vec<VersionIdent>)
    ensures
        final(s)@ == old(s)@ + idents_str_of(l@),
{
    let mut i: usize = 0;
    while i < l.len()
        invariant
            i <= l@.len(),
            s@ == old(s)@ + idents_str_of(l@.take(i as int)),
        decreases l@.len() - i,
    {
        if i > 0 {
            push_char(s, '.');
        }
        push_ident(s, &l[i]);
        i = i + 1;
        proof {
            let p = l@.take(i as int);
            assert(p.drop_last() =~= l@.take(i - 1));
            assert(p.last() == l@[i - 1]);
            if i == 1 {
                assert(s@ =~= old(s)@ + idents_str_of(p));
            } else {
                assert(s@ =~= old(s)@ + idents_str_of(p));
            }
        }
    }
    proof {
        assert(l@.take(l@.len() as int) =~= l@);
    }
}

/// Appends the rendering of a version to `s`.
pub fn push_version(s: &mut String, v: &Version)
    ensures
        final(s)@ == old(s)@ + version_str_of(*v),
{
    push_decimal(s, v.major);
    push_char(s, '.');
    push_decimal(s, v.minor);
    push_char(s, '.');
    push_decimal(s, v.patch);
    if v.pre.len() > 0 {
        push_char(s, '-');
        push_idents(s, &v.pre);
    }
    if v.build.len() > 0 {
        push_char(s, '+');
        push_idents(s, &v.build);
    }
    proof {
        assert(s@ =~= old(s)@ + version_str_of(*v));
    }
}

/// Renders a version as a string.
pub fn version_to_string(v: &Version) -> (s: String)
    ensures
        s@ == version_str_of(*v),
{
    let mut s = String::new();
    push_version(&mut s, v);
    proof {
        assert(s@ =~= version_str_of(*v));
    }
    s
}

} // verus!
