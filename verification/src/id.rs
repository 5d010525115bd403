//! The identifier normalizer: derives a stable, filesystem- and URL-safe id
//! from a free-text title.
//!
//! The steps, in fixed order: lower the text and expand the German umlauts
//! and sharp s into their recognized two-letter equivalents; apply Unicode
//! compatibility decomposition (NFKD); drop everything that is not a
//! printable ASCII letter, digit, space or hyphen; collapse every run of
//! spacing and hyphens into a single hyphen.

use vstd::prelude::*;
use vstd::string::StrSliceExecFns;
use vstd::utf8::is_ascii_chars;
use unicode_normalization::UnicodeNormalization;
use crate::error::Error;
use crate::text::chars_to_string;
use crate::text::is_space;
use crate::text::is_space_char;

verus! {

/// The characters the normalizer keeps: printable ASCII that is a letter, a
/// digit, a space, or a hyphen.
pub open spec fn keepable(c: char) -> bool {
    let u = c as u32;
    (97 <= u && u <= 122) || (65 <= u && u <= 90) || (48 <= u && u <= 57) || u == 32 || u == 45
}

/// Whether the normalizer drops `c`: everything outside the printable ASCII
/// range, and within it everything that is not alphanumeric, spacing or a
/// hyphen. (Within that range the only spacing character is the space
/// itself.)
pub fn is_not_ok(r: char) -> (b: bool)
    ensures
        b == !keepable(r),
{
    let u = r as u32;
    !((97 <= u && u <= 122) || (65 <= u && u <= 90) || (48 <= u && u <= 57) || u == 32 || u == 45)
}

/// The first character of the Unicode lowercase mapping of a character
/// beyond ASCII. Named only: the full mapping is the Unicode case table.
pub uninterp spec fn lower_char_of(c: char) -> char;

/// The first character of `c`'s Unicode lowercase mapping. On ASCII this is
/// ordinary ASCII lowercasing; beyond ASCII it is [`lower_char_of`].
pub open spec fn lowered_char(c: char) -> char {
    let u = c as u32;
    if 65 <= u && u <= 90 {
        ((u + 32) as u32) as char
    } else if u < 128 {
        c
    } else {
        lower_char_of(c)
    }
}

/// Relies on `char::to_lowercase`: its iterator yields at least one
/// character; the first one depends on `c` alone; and on ASCII the mapping
/// is plain ASCII lowercasing.
#[verifier::external_body]
fn to_lower_first(c: char) -> (r: char)
    ensures
        r == lowered_char(c),
        c as u32 >= 128 ==> r == lower_char_of(c),
{
    c.to_lowercase().next().unwrap()
}

/// A lowered character, or the two-letter expansion it was mapped to.
pub enum Lower {
    One(char),
    Two(char, char),
}

/// What one character contributes after lowering and umlaut expansion: the
/// German umlauts expand to vowel + `e`, the sharp s to `ss`, every other
/// character stays as its lowered self.
pub open spec fn umlaut_expansion(c: char) -> Seq<char> {
    let l = lowered_char(c);
    if l == '\u{e4}' {
        seq!['a', 'e']
    } else if l == '\u{f6}' {
        seq!['o', 'e']
    } else if l == '\u{fc}' {
        seq!['u', 'e']
    } else if l == '\u{df}' {
        seq!['s', 's']
    } else {
        seq![l]
    }
}

/// The whole text after lowering and umlaut expansion.
pub open spec fn umlauts_expanded(s: Seq<char>) -> Seq<char>
    decreases s.len(),
{
    if s.len() == 0 {
        Seq::empty()
    } else {
        umlauts_expanded(s.drop_last()) + umlaut_expansion(s.last())
    }
}

/// Lowers one character and maps the German umlauts and sharp s to their
/// two-letter equivalents.
pub fn map_german_umlauts(r: char) -> (l: Lower)
    ensures
        (match l {
            Lower::One(c) => umlaut_expansion(r) == seq![c],
            Lower::Two(a, b) => umlaut_expansion(r) == seq![a, b],
        }),
{
    let lower = to_lower_first(r);
    if lower == '\u{e4}' {
        Lower::Two('a', 'e')
    } else if lower == '\u{f6}' {
        Lower::Two('o', 'e')
    } else if lower == '\u{fc}' {
        Lower::Two('u', 'e')
    } else if lower == '\u{df}' {
        Lower::Two('s', 's')
    } else {
        Lower::One(lower)
    }
}

/// Lowers the text and expands the German umlauts and sharp s.
pub fn replace_german_umlauts(input: &str) -> (r: String)
    ensures
        r@ == umlauts_expanded(input@),
{
    let n = input.unicode_len();
    let mut out: Vec<char> = Vec::new();
    let mut i: usize = 0;
    proof {
        assert(input@.subrange(0, 0) =~= Seq::<char>::empty());
    }
    while i < n
        invariant
            i <= n,
            n == input@.len(),
            out@ == umlauts_expanded(input@.subrange(0, i as int)),
        decreases n - i,
    {
        let ghost prefix = out@;
        let c = input.get_char(i);
        match map_german_umlauts(c) {
            Lower::One(l) => {
                out.push(l);
            },
            Lower::Two(a, b) => {
                out.push(a);
                out.push(b);
            },
        }
        proof {
            assert(out@ =~= prefix + umlaut_expansion(c));
            assert(input@.subrange(0, i as int + 1).drop_last() =~= input@.subrange(0, i as int));
            assert(input@.subrange(0, i as int + 1).last() == c);
        }
        i = i + 1;
    }
    proof {
        assert(input@.subrange(0, n as int) =~= input@);
    }
    chars_to_string(&out)
}

/// The text with every non-keepable character dropped.
pub open spec fn removed_disallowed(s: Seq<char>) -> Seq<char>
    decreases s.len(),
{
    if s.len() == 0 {
        Seq::empty()
    } else {
        removed_disallowed(s.drop_last()) + (if keepable(s.last()) {
            seq![s.last()]
        } else {
            Seq::<char>::empty()
        })
    }
}

/// Drops every character that [`is_not_ok`] flags.
pub fn remove_matches(input: &str) -> (r: String)
    ensures
        r@ == removed_disallowed(input@),
{
    let n = input.unicode_len();
    let mut out: Vec<char> = Vec::new();
    let mut i: usize = 0;
    proof {
        assert(input@.subrange(0, 0) =~= Seq::<char>::empty());
    }
    while i < n
        invariant
            i <= n,
            n == input@.len(),
            out@ == removed_disallowed(input@.subrange(0, i as int)),
        decreases n - i,
    {
        let ghost prefix = out@;
        let c = input.get_char(i);
        if !is_not_ok(c) {
            out.push(c);
        }
        proof {
            assert(out@ =~= prefix + (if keepable(c) {
                seq![c]
            } else {
                Seq::<char>::empty()
            }));
            assert(input@.subrange(0, i as int + 1).drop_last() =~= input@.subrange(0, i as int));
            assert(input@.subrange(0, i as int + 1).last() == c);
        }
        i = i + 1;
    }
    proof {
        assert(input@.subrange(0, n as int) =~= input@);
    }
    chars_to_string(&out)
}

/// Whether `c` is treated as a gap by the collapsing step: spacing, or the
/// replacement character itself.
pub open spec fn space_like(c: char, replacement: char) -> bool {
    is_space_char(c) || c == replacement
}

/// The collapsing step, walking the text from the front. `after_gap` records
/// whether the previous character was part of a gap that already emitted its
/// replacement.
pub open spec fn collapse_rec(s: Seq<char>, replacement: char, after_gap: bool) -> Seq<char>
    decreases s.len(),
{
    if s.len() == 0 {
        Seq::empty()
    } else if space_like(s[0], replacement) {
        (if after_gap {
            Seq::<char>::empty()
        } else {
            seq![replacement]
        }) + collapse_rec(s.drop_first(), replacement, true)
    } else {
        seq![s[0]] + collapse_rec(s.drop_first(), replacement, false)
    }
}

/// The text with every run of spacing and replacement characters collapsed
/// into a single replacement character.
pub open spec fn collapsed(s: Seq<char>, replacement: char) -> Seq<char> {
    collapse_rec(s, replacement, false)
}

/// Collapses every run of spacing and `replacement` characters into a single
/// `replacement`.
pub fn replace_space_and_collapse(input: &str, replacement: char) -> (r: String)
    ensures
        r@ == collapsed(input@, replacement),
{
    let n = input.unicode_len();
    let mut out: Vec<char> = Vec::new();
    let mut last_space = false;
    let mut i: usize = 0;
    proof {
        assert(input@.subrange(0, n as int) =~= input@);
    }
    while i < n
        invariant
            i <= n,
            n == input@.len(),
            collapsed(input@, replacement) == out@ + collapse_rec(
                input@.subrange(i as int, n as int),
                replacement,
                last_space,
            ),
        decreases n - i,
    {
        let ghost rest = input@.subrange(i as int, n as int);
        let c = input.get_char(i);
        proof {
            assert(rest[0] == c);
            assert(rest.drop_first() =~= input@.subrange(i as int + 1, n as int));
        }
        if is_space(c) || c == replacement {
            if !last_space {
                out.push(replacement);
            }
            last_space = true;
        } else {
            out.push(c);
            last_space = false;
        }
        i = i + 1;
    }
    proof {
        assert(input@.subrange(n as int, n as int) =~= Seq::<char>::empty());
        assert(collapsed(input@, replacement) =~= out@);
    }
    chars_to_string(&out)
}

/// The NFKD decomposition of a text beyond ASCII. Named only: the full
/// decomposition is the Unicode data table.
pub uninterp spec fn nfkd_of(s: Seq<char>) -> Seq<char>;

/// The Unicode NFKD decomposition of `s`. ASCII text is unaffected by every
/// Unicode normalization form, so on ASCII input this is the input itself;
/// beyond ASCII it is [`nfkd_of`].
pub open spec fn nfkd_seq(s: Seq<char>) -> Seq<char> {
    if is_ascii_chars(s) {
        s
    } else {
        nfkd_of(s)
    }
}

/// Relies on `unicode_normalization`'s `nfkd`: the decomposition depends on
/// the characters alone, and leaves ASCII text unchanged (Unicode
/// normalization stability; UAX #15).
#[verifier::external_body]
fn nfkd_str(s: &str) -> (r: String)
    ensures
        r@ == nfkd_seq(s@),
        !is_ascii_chars(s@) ==> r@ == nfkd_of(s@),
{
    s.chars().nfkd().collect()
}

/// The normalized id of a title: lower and expand umlauts, decompose,
/// drop what is not a printable ASCII letter, digit, space or hyphen, then
/// collapse spacing and hyphen runs into single hyphens.
pub open spec fn to_id_spec(s: Seq<char>) -> Seq<char> {
    collapsed(removed_disallowed(nfkd_seq(umlauts_expanded(s))), '-')
}

/// Derives the filesystem- and URL-safe id of a free-text title. Total and
/// deterministic; the result may be empty, which callers must reject.
pub fn to_id_string(s: &str) -> (r: String)
    ensures
        r@ == to_id_spec(s@),
{
    let lowered = replace_german_umlauts(s);
    let decomposed = nfkd_str(lowered.as_str());
    let kept = remove_matches(decomposed.as_str());
    replace_space_and_collapse(kept.as_str(), '-')
}

/// Derives the id of a title and rejects titles that normalize to nothing.
pub fn to_checked_id(s: &str) -> (r: Result<String, Error>)
    ensures
        to_id_spec(s@).len() == 0 ==> r == Err::<String, Error>(Error::EmptyId),
        to_id_spec(s@).len() > 0 ==> (r matches Ok(id) && id@ == to_id_spec(s@)),
{
    let id = to_id_string(s);
    if id.as_str().is_empty() {
        Err(Error::EmptyId)
    } else {
        Ok(id)
    }
}

/// A character an id may contain: an ASCII letter, digit or hyphen.
pub open spec fn id_char(c: char) -> bool {
    keepable(c) && c != ' '
}

/// No ASCII uppercase letter occurs in `s`.
pub open spec fn no_uppercase(s: Seq<char>) -> bool {
    forall|i: int| 0 <= i < s.len() ==> !(65 <= #[trigger] (s[i] as u32) && s[i] as u32 <= 90)
}

/// No two adjacent occurrences of `c` in `s`.
pub open spec fn no_adjacent(s: Seq<char>, c: char) -> bool {
    forall|i: int| 0 <= i && i + 1 < s.len() ==> !(#[trigger] s[i] == c && s[i + 1] == c)
}

/// Every character the dropping step keeps is keepable and occurs in its
/// input.
proof fn lemma_removed_chars(s: Seq<char>)
    ensures
        forall|i: int|
            0 <= i < removed_disallowed(s).len() ==> keepable(#[trigger] removed_disallowed(s)[i])
                && (exists|j: int| 0 <= j < s.len() && s[j] == removed_disallowed(s)[i]),
    decreases s.len(),
{
    if s.len() > 0 {
        let t = s.drop_last();
        lemma_removed_chars(t);
        let prev = removed_disallowed(t);
        let out = removed_disallowed(s);
        assert forall|i: int| 0 <= i < out.len() implies keepable(#[trigger] out[i]) && (exists|
            j: int,
        | 0 <= j < s.len() && s[j] == out[i]) by {
            if i < prev.len() {
                assert(out[i] == prev[i]);
                let j = choose|j: int| 0 <= j < t.len() && t[j] == prev[i];
                assert(s[j] == out[i]);
            } else {
                assert(out[i] == s.last());
                assert(s[s.len() - 1] == out[i]);
            }
        }
    }
}

/// Every character the collapsing step emits is the replacement or a
/// non-gap character of its input.
proof fn lemma_collapse_chars(s: Seq<char>, replacement: char, after_gap: bool)
    ensures
        forall|i: int|
            0 <= i < collapse_rec(s, replacement, after_gap).len() ==> (#[trigger] collapse_rec(
                s,
                replacement,
                after_gap,
            )[i] == replacement || (exists|j: int|
                0 <= j < s.len() && s[j] == collapse_rec(s, replacement, after_gap)[i]
                    && !space_like(s[j], replacement))),
    decreases s.len(),
{
    if s.len() > 0 {
        let t = s.drop_first();
        let out = collapse_rec(s, replacement, after_gap);
        if space_like(s[0], replacement) {
            lemma_collapse_chars(t, replacement, true);
            let tail = collapse_rec(t, replacement, true);
            assert forall|i: int| 0 <= i < out.len() implies (#[trigger] out[i] == replacement || (
            exists|j: int|
                0 <= j < s.len() && s[j] == out[i] && !space_like(s[j], replacement))) by {
                let head_len: int = if after_gap {
                    0
                } else {
                    1
                };
                if i >= head_len {
                    assert(out[i] == tail[i - head_len]);
                    if tail[i - head_len] != replacement {
                        let j = choose|j: int|
                            0 <= j < t.len() && t[j] == tail[i - head_len] && !space_like(
                                t[j],
                                replacement,
                            );
                        assert(s[j + 1] == out[i] && !space_like(s[j + 1], replacement));
                    }
                }
            }
        } else {
            lemma_collapse_chars(t, replacement, false);
            let tail = collapse_rec(t, replacement, false);
            assert forall|i: int| 0 <= i < out.len() implies (#[trigger] out[i] == replacement || (
            exists|j: int|
                0 <= j < s.len() && s[j] == out[i] && !space_like(s[j], replacement))) by {
                if i == 0 {
                    assert(s[0] == out[0] && !space_like(s[0], replacement));
                } else {
                    assert(out[i] == tail[i - 1]);
                    if tail[i - 1] != replacement {
                        let j = choose|j: int|
                            0 <= j < t.len() && t[j] == tail[i - 1] && !space_like(
                                t[j],
                                replacement,
                            );
                        assert(s[j + 1] == out[i] && !space_like(s[j + 1], replacement));
                    }
                }
            }
        }
    }
}

/// The collapsing step never emits two adjacent replacement characters, and
/// right after a gap it never starts with one.
proof fn lemma_collapse_no_adjacent(s: Seq<char>, replacement: char, after_gap: bool)
    ensures
        no_adjacent(collapse_rec(s, replacement, after_gap), replacement),
        after_gap && collapse_rec(s, replacement, after_gap).len() > 0 ==> collapse_rec(
            s,
            replacement,
            after_gap,
        )[0] != replacement,
    decreases s.len(),
{
    if s.len() > 0 {
        let t = s.drop_first();
        let out = collapse_rec(s, replacement, after_gap);
        if space_like(s[0], replacement) {
            lemma_collapse_no_adjacent(t, replacement, true);
            let tail = collapse_rec(t, replacement, true);
            if after_gap {
                assert(out =~= tail);
            } else {
                assert forall|i: int|
                    0 <= i && i + 1 < out.len() implies !(#[trigger] out[i] == replacement && out[i
                    + 1] == replacement) by {
                    if i == 0 {
                        assert(out[1] == tail[0]);
                    } else {
                        assert(out[i] == tail[i - 1] && out[i + 1] == tail[i]);
                    }
                }
            }
        } else {
            lemma_collapse_no_adjacent(t, replacement, false);
            let tail = collapse_rec(t, replacement, false);
            assert forall|i: int|
                0 <= i && i + 1 < out.len() implies !(#[trigger] out[i] == replacement && out[i + 1]
                == replacement) by {
                if i > 0 {
                    assert(out[i] == tail[i - 1] && out[i + 1] == tail[i]);
                }
            }
        }
    }
}

/// Lowering and expanding an ASCII text yields ASCII with no uppercase
/// letters left.
proof fn lemma_umlauts_ascii(s: Seq<char>)
    requires
        is_ascii_chars(s),
    ensures
        is_ascii_chars(umlauts_expanded(s)),
        no_uppercase(umlauts_expanded(s)),
    decreases s.len(),
{
    if s.len() > 0 {
        let t = s.drop_last();
        assert(is_ascii_chars(t));
        lemma_umlauts_ascii(t);
        let c = s.last();
        assert((c as u32) < 128);
        let e = umlaut_expansion(c);
        assert(forall|i: int|
            0 <= i < e.len() ==> (#[trigger] (e[i] as u32) < 128 && !(65 <= e[i] as u32 && e[i]
                as u32 <= 90)));
        assert forall|i: int|
            0 <= i < umlauts_expanded(s).len() implies '\u{0}' <= #[trigger] umlauts_expanded(
            s,
        )[i] <= '\u{7f}' && !(65 <= umlauts_expanded(s)[i] as u32 && umlauts_expanded(s)[i] as u32
            <= 90) by {
            if i < umlauts_expanded(t).len() {
                assert(umlauts_expanded(s)[i] == umlauts_expanded(t)[i]);
            } else {
                assert(umlauts_expanded(s)[i] == e[i - umlauts_expanded(t).len()]);
            }
        }
    }
}

/// Lowering and expanding leaves a text of non-uppercase ASCII characters
/// unchanged.
proof fn lemma_umlauts_identity(s: Seq<char>)
    requires
        is_ascii_chars(s),
        no_uppercase(s),
    ensures
        umlauts_expanded(s) == s,
    decreases s.len(),
{
    if s.len() > 0 {
        let t = s.drop_last();
        assert(is_ascii_chars(t) && no_uppercase(t));
        lemma_umlauts_identity(t);
        let c = s.last();
        assert((c as u32) < 128 && !(65 <= c as u32 && c as u32 <= 90));
        assert(umlaut_expansion(c) =~= seq![c]);
        assert(umlauts_expanded(s) =~= s);
    }
}

/// Dropping leaves a text of keepable characters unchanged.
proof fn lemma_removed_identity(s: Seq<char>)
    requires
        forall|i: int| 0 <= i < s.len() ==> keepable(#[trigger] s[i]),
    ensures
        removed_disallowed(s) == s,
    decreases s.len(),
{
    if s.len() > 0 {
        lemma_removed_identity(s.drop_last());
        assert(removed_disallowed(s) =~= s);
    }
}

/// Collapsing leaves a text unchanged when it has no spacing and no two
/// adjacent replacement characters (and, right after a gap, does not start
/// with one).
proof fn lemma_collapse_identity(s: Seq<char>, replacement: char, after_gap: bool)
    requires
        forall|i: int| 0 <= i < s.len() ==> !is_space_char(#[trigger] s[i]),
        no_adjacent(s, replacement),
        after_gap && s.len() > 0 ==> s[0] != replacement,
    ensures
        collapse_rec(s, replacement, after_gap) == s,
    decreases s.len(),
{
    if s.len() > 0 {
        let t = s.drop_first();
        assert(forall|i: int| 0 <= i < t.len() ==> !is_space_char(#[trigger] t[i]));
        assert forall|i: int|
            0 <= i && i + 1 < t.len() implies !(#[trigger] t[i] == replacement && t[i + 1]
            == replacement) by {
            assert(t[i] == s[i + 1] && t[i + 1] == s[i + 2]);
        }
        if s[0] == replacement {
            if t.len() > 0 {
                assert(t[0] == s[1]);
                assert(!(s[0] == replacement && s[1] == replacement));
            }
            lemma_collapse_identity(t, replacement, true);
            assert(collapse_rec(s, replacement, after_gap) =~= s);
        } else {
            assert(!space_like(s[0], replacement));
            lemma_collapse_identity(t, replacement, false);
            assert(collapse_rec(s, replacement, after_gap) =~= s);
        }
    }
}

/// Every id the normalizer produces is made of ASCII letters, digits and
/// hyphens, with no two hyphens adjacent.
pub proof fn lemma_to_id_shape(s: Seq<char>)
    ensures
        forall|i: int| 0 <= i < to_id_spec(s).len() ==> id_char(#[trigger] to_id_spec(s)[i]),
        no_adjacent(to_id_spec(s), '-'),
{
    let b = nfkd_seq(umlauts_expanded(s));
    let kept = removed_disallowed(b);
    lemma_removed_chars(b);
    lemma_collapse_chars(kept, '-', false);
    lemma_collapse_no_adjacent(kept, '-', false);
    assert forall|i: int| 0 <= i < to_id_spec(s).len() implies id_char(
        #[trigger] to_id_spec(s)[i],
    ) by {
        let c = to_id_spec(s)[i];
        if c == '-' {
            assert(c as u32 == 45);
        } else {
            let j = choose|j: int| 0 <= j < kept.len() && kept[j] == c && !space_like(kept[j], '-');
            assert(keepable(kept[j]));
            assert(!is_space_char(c));
            assert(c as u32 != 32);
        }
    }
}

/// Normalizing is idempotent on every title whose id carries no uppercase
/// letter; uppercase can reach an id only through the compatibility
/// decomposition of a character beyond ASCII.
pub proof fn lemma_to_id_idempotent(s: Seq<char>)
    requires
        no_uppercase(to_id_spec(s)),
    ensures
        to_id_spec(to_id_spec(s)) == to_id_spec(s),
{
    let y = to_id_spec(s);
    lemma_to_id_shape(s);
    assert forall|i: int| 0 <= i < y.len() implies '\u{0}' <= #[trigger] y[i] <= '\u{7f}' by {
        assert(id_char(to_id_spec(s)[i]));
        vstd::utf8::char_u32_cast(y[i], y[i] as u32);
        vstd::utf8::char_u32_cast(' ', 32);
        assert(45 <= y[i] as u32 && y[i] as u32 <= 122);
    }
    assert(is_ascii_chars(y));
    lemma_umlauts_identity(y);
    assert(nfkd_seq(umlauts_expanded(y)) == y);
    assert(forall|i: int| 0 <= i < y.len() ==> keepable(#[trigger] y[i]));
    lemma_removed_identity(y);
    assert forall|i: int| 0 <= i < y.len() implies !is_space_char(#[trigger] y[i]) by {
        assert(id_char(y[i]));
        assert(y[i] as u32 != 32);
    }
    lemma_collapse_identity(y, '-', false);
}

/// The id of an ASCII title carries no uppercase letter, so on ASCII titles
/// normalizing is idempotent outright.
pub proof fn lemma_ascii_to_id_idempotent(s: Seq<char>)
    requires
        is_ascii_chars(s),
    ensures
        no_uppercase(to_id_spec(s)),
        to_id_spec(to_id_spec(s)) == to_id_spec(s),
{
    lemma_umlauts_ascii(s);
    let a = umlauts_expanded(s);
    assert(nfkd_seq(a) == a);
    let kept = removed_disallowed(a);
    lemma_removed_chars(a);
    assert forall|i: int| 0 <= i < kept.len() implies !(65 <= #[trigger] (kept[i] as u32) && kept[i]
        as u32 <= 90) by {
        let j = choose|j: int| 0 <= j < a.len() && a[j] == kept[i];
        assert(!(65 <= a[j] as u32 && a[j] as u32 <= 90));
    }
    let y = to_id_spec(s);
    lemma_collapse_chars(kept, '-', false);
    assert forall|i: int| 0 <= i < y.len() implies !(65 <= #[trigger] (y[i] as u32) && y[i] as u32
        <= 90) by {
        if y[i] == '-' {
            assert(y[i] as u32 == 45);
        } else {
            let j = choose|j: int| 0 <= j < kept.len() && kept[j] == y[i] && !space_like(kept[j], '-');
            assert(!(65 <= kept[j] as u32 && kept[j] as u32 <= 90));
        }
    }
    lemma_to_id_idempotent(s);
}

} // verus!
