//! Folder-name slugs derived from a project name.

use vstd::prelude::*;
use crate::text::{is_white_space, string_from_chars, trim_chars, trim_end_spec, trim_spec, trim_start_spec};

verus! {

/// Whether `c` is an ASCII letter or digit.
pub open spec fn is_ascii_alphanumeric(c: char) -> bool {
    ||| ('0' <= c && c <= '9')
    ||| ('a' <= c && c <= 'z')
    ||| ('A' <= c && c <= 'Z')
}

/// The Unicode `Alphabetic` or `Numeric` property of a character outside ASCII.
pub uninterp spec fn unicode_alphanumeric(c: char) -> bool;

/// `char::is_alphanumeric`: within ASCII exactly the letters and digits.
pub open spec fn is_alphanumeric(c: char) -> bool {
    if (c as u32) <= 0x7F {
        is_ascii_alphanumeric(c)
    } else {
        unicode_alphanumeric(c)
    }
}

/// `char::is_alphanumeric`. The documentation defines it as the Unicode
/// `Alphabetic` or `Numeric` property; within ASCII these are the letters
/// and the digits. Outside ASCII the result is the named table lookup.
#[verifier::external_body]
pub(crate) fn char_is_alphanumeric(c: char) -> (b: bool)
    ensures
        (c as u32) <= 0x7F ==> b == is_ascii_alphanumeric(c),
        (c as u32) > 0x7F ==> b == unicode_alphanumeric(c),
{
    c.is_alphanumeric()
}

/// The lowercase mapping of a character outside ASCII (`UnicodeData.txt` and
/// `SpecialCasing.txt`).
pub uninterp spec fn unicode_lowercase(c: char) -> Seq<char>;

/// `char::to_lowercase`: within ASCII, `A`..`Z` map to `a`..`z` and every
/// other character maps to itself.
pub open spec fn lowercase(c: char) -> Seq<char> {
    if (c as u32) <= 0x7F {
        if 'A' <= c && c <= 'Z' {
            seq![((c as u32) + 32) as char]
        } else {
            seq![c]
        }
    } else {
        unicode_lowercase(c)
    }
}

/// `char::to_lowercase`, collected. The documentation promises one or more
/// characters; within ASCII it is the letter case mapping. Outside ASCII the
/// result is the named table lookup.
#[verifier::external_body]
pub(crate) fn char_to_lowercase(c: char) -> (v: Vec<char>)
    ensures
        (c as u32) <= 0x7F ==> v@ == lowercase(c),
        (c as u32) > 0x7F ==> v@ == unicode_lowercase(c),
        v@.len() >= 1,
{
    c.to_lowercase().collect()
}

/// The lowercase mappings of all characters of `s`, concatenated.
pub open spec fn lowercase_all(s: Seq<char>) -> Seq<char>
    decreases s.len(),
{
    if s.len() == 0 {
        Seq::empty()
    } else {
        lowercase_all(s.drop_last()) + lowercase(s.last())
    }
}

/// The slug built so far from `cs` and whether a separator is pending: runs of
/// alphanumeric characters are kept, everything between them becomes one `-`.
pub open spec fn slug_state(cs: Seq<char>) -> (Seq<char>, bool)
    decreases cs.len(),
{
    if cs.len() == 0 {
        (Seq::empty(), false)
    } else {
        let prev = slug_state(cs.drop_last());
        let c = cs.last();
        if is_alphanumeric(c) {
            let base = if prev.1 && prev.0.len() > 0 {
                prev.0.push('-')
            } else {
                prev.0
            };
            (base.push(c), false)
        } else {
            (prev.0, true)
        }
    }
}

/// The slug used when a name holds no alphanumeric character.
pub open spec fn default_slug() -> Seq<char> {
    seq!['l', 'a', 't', 'e', 'x', '-', 'p', 'r', 'o', 'j', 'e', 'c', 't']
}

/// The slug of a project name: the trimmed name in lowercase, with every run
/// of non-alphanumeric characters between words replaced by one `-`.
pub open spec fn slugify_spec(value: Seq<char>) -> Seq<char> {
    let slug = slug_state(lowercase_all(trim_spec(value))).0;
    if slug.len() == 0 {
        default_slug()
    } else {
        slug
    }
}

/// Whether `s` is a well-formed slug: not empty, made of alphanumeric
/// characters and single hyphens between them.
pub open spec fn is_slug(s: Seq<char>) -> bool {
    &&& s.len() > 0
    &&& s[0] != '-'
    &&& s.last() != '-'
    &&& forall|i: int| 0 <= i < s.len() ==> s[i] == '-' || is_alphanumeric(#[trigger] s[i])
    &&& forall|i: int| 0 <= i < s.len() - 1 ==> !(#[trigger] s[i] == '-' && s[i + 1] == '-')
}

proof fn lemma_lowercase_all_push(s: Seq<char>, c: char)
    ensures
        lowercase_all(s.push(c)) == lowercase_all(s) + lowercase(c),
{
    assert(s.push(c).drop_last() =~= s);
}

/// The folder-name slug of a project name (see [`slugify_spec`]).
pub fn slugify(value: &str) -> (slug: String)
    ensures
        slug@ == slugify_spec(value@),
{
    let trimmed = trim_chars(value);
    let mut slug: Vec<char> = Vec::new();
    let mut separator = false;
    let mut i: usize = 0;
    proof {
        assert(trimmed@.take(0) =~= Seq::<char>::empty());
    }
    while i < trimmed.len()
        invariant
            i <= trimmed@.len(),
            trimmed@ == trim_spec(value@),
            (slug@, separator) == slug_state(lowercase_all(trimmed@.take(i as int))),
        decreases trimmed@.len() - i,
    {
        let lower = char_to_lowercase(trimmed[i]);
        let ghost before = lowercase_all(trimmed@.take(i as int));
        let mut j: usize = 0;
        proof {
            assert(before + lower@.take(0) =~= before);
        }
        while j < lower.len()
            invariant
                j <= lower@.len(),
                (slug@, separator) == slug_state(before + lower@.take(j as int)),
            decreases lower@.len() - j,
        {
            let character = lower[j];
            let ghost prefix = before + lower@.take(j as int);
            proof {
                assert((before + lower@.take(j + 1)) =~= prefix.push(character));
                assert(prefix.push(character).drop_last() =~= prefix);
            }
            if char_is_alphanumeric(character) {
                if separator && slug.len() > 0 {
                    slug.push('-');
                }
                slug.push(character);
                separator = false;
            } else {
                separator = true;
            }
            j += 1;
        }
        proof {
            assert(lower@.take(lower@.len() as int) =~= lower@);
            assert(trimmed@.take(i + 1) =~= trimmed@.take(i as int).push(trimmed@[i as int]));
            lemma_lowercase_all_push(trimmed@.take(i as int), trimmed@[i as int]);
        }
        i += 1;
    }
    proof {
        assert(trimmed@.take(trimmed@.len() as int) =~= trimmed@);
    }
    if slug.len() == 0 {
        let fallback = vec!['l', 'a', 't', 'e', 'x', '-', 'p', 'r', 'o', 'j', 'e', 'c', 't'];
        proof {
            assert(fallback@ =~= default_slug());
        }
        string_from_chars(fallback.as_slice())
    } else {
        string_from_chars(slug.as_slice())
    }
}

/// Every non-empty slug state is a well-formed slug.
proof fn lemma_slug_state_is_slug(cs: Seq<char>)
    ensures
        slug_state(cs).0.len() > 0 ==> is_slug(slug_state(cs).0),
    decreases cs.len(),
{
    if cs.len() > 0 {
        lemma_slug_state_is_slug(cs.drop_last());
        let prev = slug_state(cs.drop_last());
        let c = cs.last();
        if is_alphanumeric(c) {
            let base = if prev.1 && prev.0.len() > 0 {
                prev.0.push('-')
            } else {
                prev.0
            };
            let s = base.push(c);
            assert(!is_alphanumeric('-'));
            assert(c != '-');
            assert forall|i: int| 0 <= i < s.len() implies s[i] == '-' || is_alphanumeric(
                #[trigger] s[i],
            ) by {
                if i < prev.0.len() {
                    assert(s[i] == prev.0[i]);
                }
            }
            assert forall|i: int| 0 <= i < s.len() - 1 implies !(#[trigger] s[i] == '-' && s[i
                + 1] == '-') by {
                if i + 1 < prev.0.len() {
                    assert(s[i] == prev.0[i] && s[i + 1] == prev.0[i + 1]);
                } else if i + 1 == prev.0.len() {
                    assert(s[i] == prev.0.last());
                }
            }
        }
    }
}

/// Every slug produced from a project name is a well-formed slug: it is not
/// empty, does not start or end with a hyphen, has no two hyphens in a row,
/// and holds only alphanumeric characters and hyphens.
pub proof fn slugify_is_slug(value: Seq<char>)
    ensures
        is_slug(slugify_spec(value)),
{
    lemma_slug_state_is_slug(lowercase_all(trim_spec(value)));
    let d = default_slug();
    assert(is_alphanumeric('l') && is_alphanumeric('a') && is_alphanumeric('t'));
    assert(is_alphanumeric('e') && is_alphanumeric('x') && is_alphanumeric('p'));
    assert(is_alphanumeric('r') && is_alphanumeric('o') && is_alphanumeric('j'));
    assert(is_alphanumeric('c'));
    assert forall|i: int| 0 <= i < d.len() implies d[i] == '-' || is_alphanumeric(#[trigger] d[i]) by {
    }
    assert forall|i: int| 0 <= i < d.len() - 1 implies !(#[trigger] d[i] == '-' && d[i + 1] == '-') by {
    }
}


/// Whether `c` is a lowercase ASCII letter, an ASCII digit or a hyphen.
pub open spec fn is_ascii_slug_char(c: char) -> bool {
    ||| ('a' <= c && c <= 'z')
    ||| ('0' <= c && c <= '9')
    ||| c == '-'
}

proof fn lemma_lowercase_all_fixed(s: Seq<char>)
    requires
        forall|i: int| 0 <= i < s.len() ==> lowercase(#[trigger] s[i]) == seq![s[i]],
    ensures
        lowercase_all(s) == s,
    decreases s.len(),
{
    if s.len() > 0 {
        lemma_lowercase_all_fixed(s.drop_last());
        assert(lowercase(s[s.len() - 1]) == seq![s[s.len() - 1]]);
        assert(s =~= s.drop_last() + seq![s.last()]);
    }
}

/// The slug state of a text that has the shape of a slug, except that it may
/// end with a hyphen: the text without that hyphen, which is then pending.
proof fn lemma_slug_state_of_slug_prefix(t: Seq<char>)
    requires
        forall|i: int| 0 <= i < t.len() ==> #[trigger] t[i] == '-' || is_alphanumeric(t[i]),
        t.len() > 0 ==> t[0] != '-',
        forall|i: int| 0 <= i < t.len() - 1 ==> !(#[trigger] t[i] == '-' && t[i + 1] == '-'),
    ensures
        slug_state(t) == (if t.len() > 0 && t.last() == '-' {
            (t.drop_last(), true)
        } else {
            (t, false)
        }),
    decreases t.len(),
{
    if t.len() > 0 {
        let p = t.drop_last();
        let c = t.last();
        assert forall|i: int| 0 <= i < p.len() - 1 implies !(#[trigger] p[i] == '-' && p[i + 1]
            == '-') by {
            assert(p[i] == t[i] && p[i + 1] == t[i + 1]);
        }
        assert forall|i: int| 0 <= i < p.len() implies #[trigger] p[i] == '-' || is_alphanumeric(
            p[i],
        ) by {
            assert(p[i] == t[i]);
        }
        lemma_slug_state_of_slug_prefix(p);
        assert(t[t.len() - 1] == '-' || is_alphanumeric(t[t.len() - 1]));
        if c == '-' {
            assert(!is_alphanumeric(c));
            if p.len() > 0 {
                assert(t[p.len() - 1] == p.last());
                assert(!(t[p.len() - 1] == '-' && t[p.len() as int] == '-'));
            }
        } else {
            assert(is_alphanumeric(c));
            if p.len() > 0 && p.last() == '-' {
                assert(p.len() >= 2);
                assert(p.drop_last().push('-') =~= p);
            }
            assert(p.push(c) =~= t);
        }
    }
}

/// A slug whose characters are each their own lowercase form, and that does
/// not start or end with whitespace, is its own slug.
pub proof fn slug_is_fixed(s: Seq<char>)
    requires
        is_slug(s),
        forall|i: int| 0 <= i < s.len() ==> lowercase(#[trigger] s[i]) == seq![s[i]],
        !is_white_space(s[0]),
        !is_white_space(s.last()),
    ensures
        slugify_spec(s) == s,
{
    assert(trim_start_spec(s) == s);
    assert(trim_end_spec(s) == s);
    lemma_lowercase_all_fixed(s);
    lemma_slug_state_of_slug_prefix(s);
}

/// A slug written with lowercase ASCII letters, digits and hyphens is its own
/// slug.
pub proof fn ascii_slug_is_fixed(s: Seq<char>)
    requires
        is_slug(s),
        forall|i: int| 0 <= i < s.len() ==> is_ascii_slug_char(#[trigger] s[i]),
    ensures
        slugify_spec(s) == s,
{
    assert(is_ascii_slug_char(s[0]));
    assert(is_ascii_slug_char(s[s.len() - 1]));
    assert forall|i: int| 0 <= i < s.len() implies lowercase(#[trigger] s[i]) == seq![s[i]] by {
        assert(is_ascii_slug_char(s[i]));
    }
    slug_is_fixed(s);
}

/// Slugifying a slug again gives the same slug, when the slug's characters
/// are each their own lowercase form and it does not start or end with
/// whitespace. (Beyond ASCII the case mapping and which characters are
/// alphanumeric are named, not stated; within ASCII both conditions always
/// hold.)
pub proof fn slugify_is_idempotent(value: Seq<char>)
    requires
        forall|i: int|
            0 <= i < slugify_spec(value).len() ==> lowercase(#[trigger] slugify_spec(value)[i])
                == seq![slugify_spec(value)[i]],
        !is_white_space(slugify_spec(value)[0]),
        !is_white_space(slugify_spec(value).last()),
    ensures
        slugify_spec(slugify_spec(value)) == slugify_spec(value),
{
    slugify_is_slug(value);
    slug_is_fixed(slugify_spec(value));
}

} // verus!
