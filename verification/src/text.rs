//! Trimming and blank-ness of text fields.

use vstd::prelude::*;
use vstd::std_specs::iter::IteratorSpec;

verus! {

/// Whether `c` is white space in the sense of `char::is_whitespace`: it has
/// the Unicode property White_Space.
pub uninterp spec fn is_white_space(c: char) -> bool;

/// `char::is_whitespace` decides the property that `is_white_space` names.
/// Nothing is claimed about which characters have it.
pub assume_specification[ char::is_whitespace ](c: char) -> (b: bool)
    ensures
        b == is_white_space(c),
;

/// `s` without its leading white space.
pub open spec fn trimmed_start(s: Seq<char>) -> Seq<char>
    decreases s.len(),
{
    if s.len() > 0 && is_white_space(s.first()) {
        trimmed_start(s.drop_first())
    } else {
        s
    }
}

/// `s` without its trailing white space.
pub open spec fn trimmed_end(s: Seq<char>) -> Seq<char>
    decreases s.len(),
{
    if s.len() > 0 && is_white_space(s.last()) {
        trimmed_end(s.drop_last())
    } else {
        s
    }
}

/// `s` without leading and trailing white space.
pub open spec fn trimmed(s: Seq<char>) -> Seq<char> {
    trimmed_end(trimmed_start(s))
}

/// A field that is present and not blank, trimmed; a missing or blank field
/// is absent.
pub open spec fn present(field: Option<Seq<char>>) -> Option<Seq<char>> {
    match field {
        Some(s) => if trimmed(s).len() > 0 {
            Some(trimmed(s))
        } else {
            None
        },
        None => None,
    }
}

/// The fields that are present, trimmed, in order.
pub open spec fn present_all(fields: Seq<Option<Seq<char>>>) -> Seq<Seq<char>> {
    fields.filter_map(|f: Option<Seq<char>>| present(f))
}

/// Dropping `a` leading white-space characters that are followed by the end
/// of `s` or by a character that is not white space trims the start.
pub proof fn lemma_trimmed_start(s: Seq<char>, a: int)
    requires
        0 <= a <= s.len(),
        forall|k: int| 0 <= k < a ==> is_white_space(#[trigger] s[k]),
        a < s.len() ==> !is_white_space(s[a]),
    ensures
        trimmed_start(s) == s.skip(a),
    decreases a,
{
    if a == 0 {
        assert(s.skip(0) =~= s);
    } else {
        let rest = s.drop_first();
        assert(is_white_space(s[0]));
        assert forall|k: int| 0 <= k < a - 1 implies is_white_space(#[trigger] rest[k]) by {
            assert(rest[k] == s[k + 1]);
        }
        lemma_trimmed_start(rest, a - 1);
        assert(rest.skip(a - 1) =~= s.skip(a));
    }
}

/// Keeping the first `b` characters, where only white space follows them and
/// the last of them, if any, is not white space, trims the end.
pub proof fn lemma_trimmed_end(s: Seq<char>, b: int)
    requires
        0 <= b <= s.len(),
        forall|k: int| b <= k < s.len() ==> is_white_space(#[trigger] s[k]),
        0 < b ==> !is_white_space(s[b - 1]),
    ensures
        trimmed_end(s) == s.take(b),
    decreases s.len() - b,
{
    if b == s.len() {
        assert(s.take(b) =~= s);
    } else {
        let rest = s.drop_last();
        assert(is_white_space(s[s.len() - 1]));
        lemma_trimmed_end(rest, b);
        assert(rest.take(b) =~= s.take(b));
    }
}

/// The trimmed text is the stretch between the leading and the trailing
/// white space.
pub proof fn lemma_trimmed_is_subrange(s: Seq<char>, a: int, b: int)
    requires
        0 <= a <= b <= s.len(),
        forall|k: int| 0 <= k < a ==> is_white_space(#[trigger] s[k]),
        forall|k: int| b <= k < s.len() ==> is_white_space(#[trigger] s[k]),
        a < b ==> !is_white_space(s[a]) && !is_white_space(s[b - 1]),
        a == b ==> a == s.len(),
    ensures
        trimmed(s) == s.subrange(a, b),
{
    lemma_trimmed_start(s, a);
    let t = s.skip(a);
    assert forall|k: int| b - a <= k < t.len() implies is_white_space(#[trigger] t[k]) by {
        assert(t[k] == s[k + a]);
    }
    lemma_trimmed_end(t, b - a);
    assert(t.take(b - a) =~= s.subrange(a, b));
}

/// What is left of a text without leading white space is a tail of it that
/// does not start with white space.
pub proof fn lemma_trimmed_start_shape(s: Seq<char>)
    ensures
        trimmed_start(s).len() <= s.len(),
        trimmed_start(s) == s.skip(s.len() - trimmed_start(s).len()),
        trimmed_start(s).len() > 0 ==> !is_white_space(trimmed_start(s).first()),
    decreases s.len(),
{
    if s.len() > 0 && is_white_space(s.first()) {
        let rest = s.drop_first();
        lemma_trimmed_start_shape(rest);
        assert(rest.skip(rest.len() - trimmed_start(rest).len()) =~= s.skip(
            s.len() - trimmed_start(rest).len(),
        ));
    } else {
        assert(s.skip(0) =~= s);
    }
}

/// What is left of a text without trailing white space is a head of it that
/// does not end with white space.
pub proof fn lemma_trimmed_end_shape(s: Seq<char>)
    ensures
        trimmed_end(s).len() <= s.len(),
        trimmed_end(s) == s.take(trimmed_end(s).len() as int),
        trimmed_end(s).len() > 0 ==> !is_white_space(trimmed_end(s).last()),
    decreases s.len(),
{
    if s.len() > 0 && is_white_space(s.last()) {
        let rest = s.drop_last();
        lemma_trimmed_end_shape(rest);
        assert(rest.take(trimmed_end(rest).len() as int) =~= s.take(
            trimmed_end(rest).len() as int,
        ));
    } else {
        assert(s.take(s.len() as int) =~= s);
    }
}

/// A trimmed text neither starts nor ends with white space, and trimming it
/// again changes nothing.
pub proof fn lemma_trimmed_stays(s: Seq<char>)
    ensures
        trimmed(s).len() > 0 ==> !is_white_space(trimmed(s).first()) && !is_white_space(
            trimmed(s).last(),
        ),
        trimmed(trimmed(s)) == trimmed(s),
{
    let t = trimmed_start(s);
    let u = trimmed_end(t);
    lemma_trimmed_start_shape(s);
    lemma_trimmed_end_shape(t);
    if u.len() > 0 {
        assert(u.first() == t.first());
    }
}

/// The slice of `s` that is left when leading and trailing white space is
/// removed.
pub fn trim(s: &str) -> (r: &str)
    ensures
        r@ == trimmed(s@),
{
    let n = s.unicode_len();
    let mut rest = s.chars();
    let mut i: usize = 0;
    let mut start: usize = 0;
    let mut end: usize = 0;
    while i < n
        invariant
            n == s@.len(),
            i <= n,
            rest.obeys_prophetic_iter_laws(),
            rest.remaining() == s@.skip(i as int),
            start <= end <= i,
            start == end ==> start == i,
            forall|k: int| 0 <= k < start ==> is_white_space(#[trigger] s@[k]),
            forall|k: int| end <= k < i ==> is_white_space(#[trigger] s@[k]),
            start < end ==> !is_white_space(s@[start as int]) && !is_white_space(s@[end - 1]),
        decreases n - i,
    {
        let next = rest.next();
        if let Some(c) = next {
            assert(c == s@[i as int]);
            if c.is_whitespace() {
                if start == end {
                    start = i + 1;
                    end = i + 1;
                }
            } else {
                if start == end {
                    start = i;
                }
                end = i + 1;
            }
        }
        i = i + 1;
    }
    proof {
        lemma_trimmed_is_subrange(s@, start as int, end as int);
    }
    s.substring_char(start, end)
}

/// The trimmed text of a field, unless the field is missing or blank.
pub fn present_text(field: &Option<String>) -> (r: Option<String>)
    ensures
        r.deep_view() == present(field.deep_view()),
{
    match field {
        Some(s) => {
            let t = trim(s.as_str());
            if t.is_empty() {
                None
            } else {
                Some(t.to_owned())
            }
        },
        None => None,
    }
}

/// A copy of an optional text.
pub fn copy_text(field: &Option<String>) -> (r: Option<String>)
    ensures
        r.deep_view() == field.deep_view(),
{
    match field {
        Some(s) => Some(s.clone()),
        None => None,
    }
}

} // verus!
