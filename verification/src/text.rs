//! Character-level string helpers over the `Seq<char>` view of strings.

use vstd::prelude::*;

verus! {

/// The character sequences of a list of strings.
pub open spec fn string_views(s: Seq<String>) -> Seq<Seq<char>> {
    s.map_values(|p: String| p@)
}

/// The part of `s` before its first `.`, or all of `s` when it has none.
pub open spec fn until_dot(s: Seq<char>) -> Seq<char>
    decreases s.len(),
{
    if s.len() == 0 {
        s
    } else if s[0] == '.' {
        Seq::empty()
    } else {
        seq![s[0]] + until_dot(s.drop_first())
    }
}

/// Whether `s` holds no `.`.
pub open spec fn dot_free(s: Seq<char>) -> bool {
    forall|i: int| 0 <= i < s.len() ==> #[trigger] s[i] != '.'
}

/// A dot-free string followed by something that starts with a dot is cut back
/// to the dot-free string.
pub proof fn lemma_until_dot_stops_at_dot(a: Seq<char>, b: Seq<char>)
    requires
        dot_free(a),
        b.len() > 0,
        b[0] == '.',
    ensures
        until_dot(a + b) == a,
    decreases a.len(),
{
    if a.len() == 0 {
        assert(a + b =~= b);
        assert(until_dot(b) =~= a);
    } else {
        let rest = a.drop_first();
        assert((a + b).drop_first() =~= rest + b);
        assert(dot_free(rest)) by {
            assert forall|i: int| 0 <= i < rest.len() implies #[trigger] rest[i] != '.' by {
                assert(rest[i] == a[i + 1]);
            }
        }
        lemma_until_dot_stops_at_dot(rest, b);
        assert((a + b)[0] == a[0]);
        assert(seq![a[0]] + rest =~= a);
    }
}

/// Whether `s` starts with `prefix` (`str::starts_with`).
pub fn starts_with(s: &str, prefix: &str) -> (r: bool)
    ensures
        r == prefix@.is_prefix_of(s@),
{
    let n = s.unicode_len();
    let m = prefix.unicode_len();
    if m > n {
        return false;
    }
    let mut i: usize = 0;
    while i < m
        invariant
            i <= m <= n,
            n == s@.len(),
            m == prefix@.len(),
            forall|j: int| 0 <= j < i ==> s@[j] == prefix@[j],
        decreases m - i,
    {
        if s.get_char(i) != prefix.get_char(i) {
            assert(s@.subrange(0, m as int)[i as int] == s@[i as int]);
            return false;
        }
        i = i + 1;
    }
    assert(prefix@ =~= s@.subrange(0, m as int));
    true
}

/// Whether `s` ends with `suffix` (`str::ends_with`).
pub fn ends_with(s: &str, suffix: &str) -> (r: bool)
    ensures
        r == suffix@.is_suffix_of(s@),
{
    let n = s.unicode_len();
    let m = suffix.unicode_len();
    if m > n {
        return false;
    }
    let off = n - m;
    let mut i: usize = 0;
    while i < m
        invariant
            i <= m <= n,
            off == n - m,
            n == s@.len(),
            m == suffix@.len(),
            forall|j: int| 0 <= j < i ==> s@[off + j] == suffix@[j],
        decreases m - i,
    {
        if s.get_char(off + i) != suffix.get_char(i) {
            assert(s@.subrange(off as int, n as int)[i as int] == s@[off + i]);
            return false;
        }
        i = i + 1;
    }
    assert(suffix@ =~= s@.subrange(off as int, n as int));
    true
}

/// The part of `s` after `prefix`, when `s` starts with it (`str::strip_prefix`).
pub fn strip_prefix<'a>(s: &'a str, prefix: &str) -> (r: Option<&'a str>)
    ensures
        match r {
            Some(rest) => prefix@.is_prefix_of(s@) && rest@ == s@.skip(prefix@.len() as int),
            None => !prefix@.is_prefix_of(s@),
        },
{
    if starts_with(s, prefix) {
        let rest = s.substring_char(prefix.unicode_len(), s.unicode_len());
        assert(rest@ =~= s@.skip(prefix@.len() as int));
        Some(rest)
    } else {
        None
    }
}

/// The part of `s` before its first `.` (the first item of `s.split('.')`).
pub fn until_first_dot<'a>(s: &'a str) -> (r: &'a str)
    ensures
        r@ == until_dot(s@),
{
    let n = s.unicode_len();
    let mut i: usize = 0;
    assert(s@.subrange(0, 0) + s@.subrange(0, n as int) =~= s@);
    assert(s@.subrange(0, n as int) =~= s@);
    while i < n
        invariant
            i <= n,
            n == s@.len(),
            until_dot(s@) == s@.subrange(0, i as int) + until_dot(s@.subrange(i as int, n as int)),
        decreases n - i,
    {
        let ghost tail = s@.subrange(i as int, n as int);
        if s.get_char(i) == '.' {
            assert(tail[0] == '.');
            assert(until_dot(tail) =~= Seq::<char>::empty());
            assert(s@.subrange(0, i as int) + Seq::<char>::empty() =~= s@.subrange(0, i as int));
            return s.substring_char(0, i);
        }
        assert(tail.drop_first() =~= s@.subrange(i + 1, n as int));
        assert(s@.subrange(0, i + 1) =~= s@.subrange(0, i as int) + seq![tail[0]]);
        assert(s@.subrange(0, i + 1) + until_dot(s@.subrange(i + 1, n as int))
            =~= s@.subrange(0, i as int) + (seq![tail[0]] + until_dot(tail.drop_first())));
        i = i + 1;
    }
    assert(until_dot(s@.subrange(n as int, n as int)) =~= Seq::<char>::empty());
    assert(s@.subrange(0, n as int) + Seq::<char>::empty() =~= s@);
    s
}

} // verus!
