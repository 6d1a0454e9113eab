//! Moving between strings and their characters.

use vstd::prelude::*;

verus! {

/// Appends one character to a string.
///
/// Stands for `String::push` of the standard library, which is documented to
/// append the given `char` to the end of the string.
#[verifier::external_body]
pub(crate) fn push_char(s: &mut String, c: char)
    ensures
        final(s)@ == old(s)@.push(c),
{
    s.push(c)
}

/// The characters of a string, in order.
pub fn to_chars(s: &str) -> (v: Vec<char>)
    ensures
        v@ == s@,
{
    let mut v: Vec<char> = Vec::new();
    for c in it: s.chars()
        invariant
            it.seq() == s@,
            v@ == s@.take(it.index() as int),
    {
        v.push(c);
    }
    v
}

/// The string made of the characters `v[from..to]`.
pub(crate) fn from_chars(v: &Vec<char>, from: usize, to: usize) -> (s: String)
    requires
        from <= to <= v.len(),
    ensures
        s@ == v@.subrange(from as int, to as int),
{
    let mut s = String::new();
    let mut i: usize = from;
    while i < to
        invariant
            from <= i <= to <= v.len(),
            s@ == v@.subrange(from as int, i as int),
        decreases to - i,
    {
        push_char(&mut s, v[i]);
        i += 1;
    }
    s
}

/// Whether `v[at..]` begins with the characters of `pattern`.
pub(crate) fn matches_at(v: &Vec<char>, at: usize, pattern: &Vec<char>) -> (r: bool)
    requires
        at <= v.len(),
    ensures
        r == pattern@.is_prefix_of(v@.skip(at as int)),
{
    if pattern.len() > v.len() - at {
        return false;
    }
    let mut i: usize = 0;
    while i < pattern.len()
        invariant
            at <= v.len(),
            i <= pattern.len() <= v.len() - at,
            forall|k: int| 0 <= k < i ==> pattern@[k] == v@[at + k],
        decreases pattern.len() - i,
    {
        if pattern[i] != v[at + i] {
            assert(v@.skip(at as int)[i as int] == v@[at + i]);
            return false;
        }
        i += 1;
    }
    assert(pattern@ =~= v@.skip(at as int).subrange(0, pattern@.len() as int));
    true
}


/// The view of an optional string slice.
pub open spec fn opt_str(s: Option<&str>) -> Option<Seq<char>> {
    match s {
        Some(t) => Some(t@),
        None => None,
    }
}

/// The view of an optional string.
pub open spec fn opt_text(s: Option<String>) -> Option<Seq<char>> {
    match s {
        Some(t) => Some(t@),
        None => None,
    }
}

/// The views of a sequence of strings.
pub open spec fn texts(strings: Seq<String>) -> Seq<Seq<char>> {
    Seq::new(strings.len(), |i: int| strings[i]@)
}

/// The items whose flag is set, in order. An item without a flag is left out.
pub open spec fn kept<T>(items: Seq<T>, present: Seq<bool>) -> Seq<T>
    decreases items.len(),
{
    if items.len() == 0 {
        Seq::empty()
    } else {
        let front = kept(items.drop_last(), present);
        if items.len() <= present.len() && present[items.len() - 1] {
            front.push(items.last())
        } else {
            front
        }
    }
}

/// `text` with every occurrence of `marker` replaced by `with`. Occurrences
/// are found from the left and do not overlap; an empty marker occurs nowhere.
pub open spec fn replaced(text: Seq<char>, marker: Seq<char>, with: Seq<char>) -> Seq<char>
    decreases text.len(),
{
    if text.len() == 0 {
        Seq::empty()
    } else if marker.len() > 0 && marker.is_prefix_of(text) {
        with + replaced(text.skip(marker.len() as int), marker, with)
    } else {
        seq![text[0]] + replaced(text.skip(1), marker, with)
    }
}

/// Replaces every occurrence of `marker` in `text` by `with`.
pub fn replace_all(text: &str, marker: &str, with: &str) -> (r: String)
    ensures
        r@ == replaced(text@, marker@, with@),
{
    let chars = to_chars(text);
    let pattern = to_chars(marker);
    let mut r = String::new();
    let mut i: usize = 0;
    assert(chars@.skip(0) =~= chars@);
    while i < chars.len()
        invariant
            i <= chars.len(),
            chars@ == text@,
            pattern@ == marker@,
            r@ + replaced(chars@.skip(i as int), marker@, with@) == replaced(
                text@,
                marker@,
                with@,
            ),
        decreases chars.len() - i,
    {
        let ghost rest = chars@.skip(i as int);
        if pattern.len() > 0 && matches_at(&chars, i, &pattern) {
            r.append(with);
            assert(rest.skip(pattern@.len() as int) =~= chars@.skip(i + pattern@.len()));
            i += pattern.len();
        } else {
            push_char(&mut r, chars[i]);
            assert(rest.skip(1) =~= chars@.skip(i + 1));
            i += 1;
        }
        assert(r@ + replaced(chars@.skip(i as int), marker@, with@) =~= replaced(
            text@,
            marker@,
            with@,
        ));
    }
    assert(r@ + Seq::<char>::empty() =~= r@);
    r
}

} // verus!
