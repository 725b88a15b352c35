//! Verified text primitives: character search, splitting, trimming, and
//! equality, each specified over `Seq<char>`.
//!
//! The annotation grammar works line-wise and token-wise; everything it
//! needs reduces to splitting on a separator character, splitting on the
//! `[INFOSEPARATOR]` marker, dropping blank segments, and trimming
//! whitespace.

use vstd::prelude::*;

verus! {

/// The whitespace characters that trimming removes.
pub open spec fn is_space(c: char) -> bool {
    c == ' ' || c == '\t' || c == '\r' || c == '\n'
}

/// Index of the first occurrence of `sep` in `s`, or `s.len()` if there is
/// none.
pub open spec fn find_char(s: Seq<char>, sep: char) -> int
    decreases s.len(),
{
    if s.len() == 0 {
        0
    } else if s[0] == sep {
        0
    } else {
        1 + find_char(s.drop_first(), sep)
    }
}

/// `find_char` is in bounds, everything before it differs from `sep`, and
/// it points at `sep` whenever it is in range.
pub proof fn lemma_find_char(s: Seq<char>, sep: char)
    ensures
        0 <= find_char(s, sep) <= s.len(),
        forall|j: int| 0 <= j < find_char(s, sep) ==> s[j] != sep,
        find_char(s, sep) < s.len() ==> s[find_char(s, sep)] == sep,
    decreases s.len(),
{
    if s.len() > 0 && s[0] != sep {
        lemma_find_char(s.drop_first(), sep);
        assert forall|j: int| 0 <= j < find_char(s, sep) implies s[j] != sep by {
            if j > 0 {
                assert(s.drop_first()[j - 1] == s[j]);
            }
        }
    }
}

/// `find_char` is pinned down by its characterization: a position whose
/// prefix is free of `sep` and which carries `sep` (or is the end) is it.
pub proof fn lemma_find_char_is(s: Seq<char>, sep: char, i: int)
    requires
        0 <= i <= s.len(),
        forall|j: int| 0 <= j < i ==> s[j] != sep,
        i < s.len() ==> s[i] == sep,
    ensures
        find_char(s, sep) == i,
{
    lemma_find_char(s, sep);
    let f = find_char(s, sep);
    if f < i {
        assert(s[f] != sep);
    }
    if i < f {
        assert(s[i] != sep);
    }
}

/// Split `s` on every occurrence of `sep`, keeping empty segments; the
/// result always has at least one segment.
pub open spec fn split_all(s: Seq<char>, sep: char) -> Seq<Seq<char>>
    decreases s.len(),
{
    let i = find_char(s, sep);
    if 0 <= i < s.len() {
        seq![s.subrange(0, i)] + split_all(s.subrange(i + 1, s.len() as int), sep)
    } else {
        seq![s]
    }
}

pub proof fn lemma_split_all_len(s: Seq<char>, sep: char)
    ensures
        split_all(s, sep).len() >= 1,
    decreases s.len(),
{
    let i = find_char(s, sep);
    if 0 <= i < s.len() {
        lemma_split_all_len(s.subrange(i + 1, s.len() as int), sep);
    }
}

/// Unfolding of `split_all` at an explicit first separator position.
pub proof fn lemma_split_all_at(s: Seq<char>, sep: char, i: int)
    requires
        0 <= i < s.len(),
        forall|j: int| 0 <= j < i ==> s[j] != sep,
        s[i] == sep,
    ensures
        split_all(s, sep) == seq![s.subrange(0, i)] + split_all(
            s.subrange(i + 1, s.len() as int),
            sep,
        ),
{
    lemma_find_char_is(s, sep, i);
}

/// A string without the separator is a single segment.
pub proof fn lemma_split_all_none(s: Seq<char>, sep: char)
    requires
        forall|j: int| 0 <= j < s.len() ==> s[j] != sep,
    ensures
        split_all(s, sep) == seq![s],
{
    lemma_find_char_is(s, sep, s.len() as int);
}

/// Whether the marker `m` occurs in `s` at position `i`.
pub open spec fn has_marker_at(s: Seq<char>, m: Seq<char>, i: int) -> bool {
    0 <= i && i + m.len() <= s.len() && s.subrange(i, i + m.len() as int) == m
}

/// Index of the first occurrence of the marker `m` in `s`, or `s.len()`
/// if there is none.
pub open spec fn find_marker(s: Seq<char>, m: Seq<char>) -> int
    decreases s.len(),
{
    if m.len() <= s.len() && s.subrange(0, m.len() as int) == m {
        0
    } else if s.len() == 0 {
        0
    } else {
        1 + find_marker(s.drop_first(), m)
    }
}

/// Occurrences shift by one when the first character is dropped.
pub proof fn lemma_marker_shift(s: Seq<char>, m: Seq<char>, j: int)
    requires
        s.len() > 0,
        1 <= j,
    ensures
        has_marker_at(s, m, j) == has_marker_at(s.drop_first(), m, j - 1),
{
    if 0 <= j - 1 && j - 1 + m.len() <= s.drop_first().len() {
        assert(s.drop_first().subrange(j - 1, j - 1 + m.len() as int) =~= s.subrange(
            j,
            j + m.len() as int,
        ));
    }
}

/// `find_marker` is in bounds, everything before it is no occurrence, and
/// it is an occurrence whenever it is in range.
pub proof fn lemma_find_marker(s: Seq<char>, m: Seq<char>)
    requires
        m.len() > 0,
    ensures
        0 <= find_marker(s, m) <= s.len(),
        forall|j: int| 0 <= j < find_marker(s, m) ==> !has_marker_at(s, m, j),
        find_marker(s, m) < s.len() ==> has_marker_at(s, m, find_marker(s, m)),
    decreases s.len(),
{
    if m.len() <= s.len() && s.subrange(0, m.len() as int) == m {
    } else if s.len() == 0 {
    } else {
        lemma_find_marker(s.drop_first(), m);
        let f = find_marker(s, m);
        assert forall|j: int| 0 <= j < f implies !has_marker_at(s, m, j) by {
            if j == 0 {
                if has_marker_at(s, m, 0) {
                    assert(s.subrange(0, m.len() as int) == m);
                }
            } else {
                lemma_marker_shift(s, m, j);
            }
        }
        if f < s.len() {
            lemma_marker_shift(s, m, f);
        }
    }
}

/// `find_marker` is pinned down by its characterization.
pub proof fn lemma_find_marker_is(s: Seq<char>, m: Seq<char>, i: int)
    requires
        m.len() > 0,
        0 <= i <= s.len(),
        forall|j: int| 0 <= j < i ==> !has_marker_at(s, m, j),
        i < s.len() ==> has_marker_at(s, m, i),
    ensures
        find_marker(s, m) == i,
{
    lemma_find_marker(s, m);
    let f = find_marker(s, m);
    if f < i {
        assert(!has_marker_at(s, m, f));
    }
    if i < f {
        assert(!has_marker_at(s, m, i));
    }
}

/// Split `s` on every occurrence of the marker `m`; with no occurrence
/// the whole of `s` is the one segment.
pub open spec fn marker_split(s: Seq<char>, m: Seq<char>) -> Seq<Seq<char>>
    decreases s.len(),
{
    let i = find_marker(s, m);
    if m.len() > 0 && 0 <= i && i + m.len() <= s.len() {
        seq![s.subrange(0, i)] + marker_split(s.subrange(i + m.len() as int, s.len() as int), m)
    } else {
        seq![s]
    }
}

/// Unfolding of `marker_split` when the marker occurs.
pub proof fn lemma_marker_split_found(s: Seq<char>, m: Seq<char>)
    requires
        m.len() > 0,
        has_marker_at(s, m, find_marker(s, m)),
    ensures
        marker_split(s, m) == seq![s.subrange(0, find_marker(s, m))] + marker_split(
            s.subrange(find_marker(s, m) + m.len() as int, s.len() as int),
            m,
        ),
{
}

/// Unfolding of `marker_split` when the marker does not occur.
pub proof fn lemma_marker_split_none(s: Seq<char>, m: Seq<char>)
    requires
        m.len() > 0,
        find_marker(s, m) == s.len(),
    ensures
        marker_split(s, m) == seq![s],
{
}

pub proof fn lemma_marker_split_len(s: Seq<char>, m: Seq<char>)
    ensures
        marker_split(s, m).len() >= 1,
    decreases s.len(),
{
    let i = find_marker(s, m);
    if m.len() > 0 && 0 <= i && i + m.len() <= s.len() {
        lemma_marker_split_len(s.subrange(i + m.len() as int, s.len() as int), m);
    }
}

/// Find the first occurrence of the marker `m` in `s`, or `s`'s length if
/// there is none.
pub fn find_marker_str(s: &str, m: &str) -> (r: usize)
    requires
        m@.len() > 0,
    ensures
        r == find_marker(s@, m@),
        r == s@.len() || has_marker_at(s@, m@, r as int),
{
    let n = s.unicode_len();
    let ml = m.unicode_len();
    if ml > n {
        proof {
            assert forall|j: int| 0 <= j < n implies !has_marker_at(s@, m@, j) by {
                assert(j + m@.len() > n);
            }
            lemma_find_marker_is(s@, m@, n as int);
        }
        return n;
    }
    let mut i: usize = 0;
    while i <= n - ml
        invariant
            n == s@.len(),
            ml == m@.len(),
            0 < ml <= n,
            0 <= i <= n,
            forall|j: int| 0 <= j < i ==> !has_marker_at(s@, m@, j),
        decreases n - i,
    {
        let mut k: usize = 0;
        let mut matches_here = true;
        while k < ml
            invariant
                n == s@.len(),
                ml == m@.len(),
                0 <= i,
                i + ml <= n,
                0 <= k <= ml,
                matches_here ==> forall|t: int| 0 <= t < k ==> s@[i + t] == m@[t],
                !matches_here ==> !has_marker_at(s@, m@, i as int),
            decreases ml - k,
        {
            if s.get_char(i + k) != m.get_char(k) {
                proof {
                    if has_marker_at(s@, m@, i as int) {
                        assert(s@.subrange(i as int, i + ml) == m@);
                        assert(s@.subrange(i as int, i + ml)[k as int] == s@[i + k]);
                    }
                }
                matches_here = false;
            }
            k += 1;
        }
        if matches_here {
            proof {
                assert(s@.subrange(i as int, i + ml) =~= m@);
                lemma_find_marker_is(s@, m@, i as int);
            }
            return i;
        }
        i += 1;
    }
    proof {
        assert forall|j: int| 0 <= j < n implies !has_marker_at(s@, m@, j) by {
            if j >= i {
                assert(j + m@.len() > n);
            }
        }
        lemma_find_marker_is(s@, m@, n as int);
    }
    n
}

/// `s` with leading whitespace removed.
pub open spec fn trim_start_of(s: Seq<char>) -> Seq<char>
    decreases s.len(),
{
    if s.len() > 0 && is_space(s[0]) {
        trim_start_of(s.drop_first())
    } else {
        s
    }
}

/// `s` with trailing whitespace removed.
pub open spec fn trim_end_of(s: Seq<char>) -> Seq<char>
    decreases s.len(),
{
    if s.len() > 0 && is_space(s.last()) {
        trim_end_of(s.drop_last())
    } else {
        s
    }
}

/// `s` with leading and trailing whitespace removed.
pub open spec fn trim_of(s: Seq<char>) -> Seq<char> {
    trim_end_of(trim_start_of(s))
}

/// Skipping a whitespace prefix is what `trim_start_of` does.
pub proof fn lemma_trim_start_skip(s: Seq<char>, a: int)
    requires
        0 <= a <= s.len(),
        forall|j: int| 0 <= j < a ==> is_space(s[j]),
        a < s.len() ==> !is_space(s[a]),
    ensures
        trim_start_of(s) == s.subrange(a, s.len() as int),
    decreases s.len(),
{
    if s.len() == 0 {
        assert(s.subrange(0, 0) =~= s);
    } else if a == 0 {
        if !is_space(s[0]) {
            assert(s.subrange(0, s.len() as int) =~= s);
        } else {
            assert(s.subrange(0, s.len() as int) =~= s);
        }
    } else {
        lemma_trim_start_skip(s.drop_first(), a - 1);
        assert(s.drop_first().subrange(a - 1, s.drop_first().len() as int) =~= s.subrange(
            a,
            s.len() as int,
        ));
    }
}

/// Dropping a whitespace suffix is what `trim_end_of` does.
pub proof fn lemma_trim_end_skip(s: Seq<char>, b: int)
    requires
        0 <= b <= s.len(),
        forall|j: int| b <= j < s.len() ==> is_space(s[j]),
        b > 0 ==> !is_space(s[b - 1]),
    ensures
        trim_end_of(s) == s.subrange(0, b),
    decreases s.len(),
{
    if b == s.len() {
        if s.len() > 0 && is_space(s.last()) {
            assert(!is_space(s[b - 1]));
            assert(false);
        }
        assert(s.subrange(0, s.len() as int) =~= s);
    } else {
        assert(is_space(s.last()));
        lemma_trim_end_skip(s.drop_last(), b);
        assert(s.drop_last().subrange(0, b) =~= s.subrange(0, b));
    }
}

/// Drop the empty segments of a segment sequence, preserving order.
pub open spec fn drop_blank(parts: Seq<Seq<char>>) -> Seq<Seq<char>>
    decreases parts.len(),
{
    if parts.len() == 0 {
        Seq::empty()
    } else if parts[0].len() == 0 {
        drop_blank(parts.drop_first())
    } else {
        seq![parts[0]] + drop_blank(parts.drop_first())
    }
}

/// `drop_blank` distributes over concatenation.
pub proof fn lemma_drop_blank_add(a: Seq<Seq<char>>, b: Seq<Seq<char>>)
    ensures
        drop_blank(a + b) == drop_blank(a) + drop_blank(b),
    decreases a.len(),
{
    if a.len() == 0 {
        assert(a + b =~= b);
        assert(drop_blank(a) + drop_blank(b) =~= drop_blank(b));
    } else {
        lemma_drop_blank_add(a.drop_first(), b);
        assert((a + b).drop_first() =~= a.drop_first() + b);
        if a[0].len() == 0 {
            assert(drop_blank(a + b) == drop_blank(a.drop_first() + b));
        } else {
            assert(drop_blank(a) + drop_blank(b) =~= seq![a[0]] + (drop_blank(a.drop_first())
                + drop_blank(b)));
        }
    }
}

/// Exact length of `s`, in characters.
pub fn char_len(s: &str) -> (n: usize)
    ensures
        n == s@.len(),
{
    s.unicode_len()
}

/// Character-for-character string equality.
pub fn str_eq(a: &str, b: &str) -> (r: bool)
    ensures
        r == (a@ == b@),
{
    let n = a.unicode_len();
    let m = b.unicode_len();
    if n != m {
        return false;
    }
    let mut i: usize = 0;
    while i < n
        invariant
            n == a@.len(),
            n == b@.len(),
            0 <= i <= n,
            forall|j: int| 0 <= j < i ==> a@[j] == b@[j],
        decreases n - i,
    {
        if a.get_char(i) != b.get_char(i) {
            return false;
        }
        i += 1;
    }
    proof {
        assert(a@ =~= b@);
    }
    true
}

/// Split `s` on every occurrence of `sep`, keeping empty segments.
pub fn split_str(s: &str, sep: char) -> (parts: Vec<String>)
    ensures
        parts.deep_view() == split_all(s@, sep),
{
    let n = s.unicode_len();
    let mut parts: Vec<String> = Vec::new();
    let mut start: usize = 0;
    let mut i: usize = 0;
    proof {
        assert(s@.subrange(0, n as int) =~= s@);
        assert(parts.deep_view() =~= Seq::<Seq<char>>::empty());
        assert(Seq::<Seq<char>>::empty() + split_all(s@, sep) =~= split_all(s@, sep));
    }
    while i < n
        invariant
            n == s@.len(),
            0 <= start <= i <= n,
            forall|j: int| start <= j < i ==> s@[j] != sep,
            split_all(s@, sep) == parts.deep_view() + split_all(
                s@.subrange(start as int, n as int),
                sep,
            ),
        decreases n - i,
    {
        if s.get_char(i) == sep {
            let piece = s.substring_char(start, i);
            let ghost pre = parts.deep_view();
            let owned = piece.to_owned();
            parts.push(owned);
            proof {
                let tail = s@.subrange(start as int, n as int);
                lemma_split_all_at(tail, sep, i - start);
                assert(tail.subrange(0, i - start) =~= piece@);
                assert(tail.subrange(i - start + 1, tail.len() as int) =~= s@.subrange(
                    i + 1,
                    n as int,
                ));
                assert(parts.deep_view() =~= pre + seq![piece@]);
                assert((pre + seq![piece@]) + split_all(s@.subrange(i + 1, n as int), sep)
                    =~= pre + (seq![piece@] + split_all(s@.subrange(i + 1, n as int), sep)));
            }
            start = i + 1;
        }
        i += 1;
    }
    let piece = s.substring_char(start, n);
    let ghost pre = parts.deep_view();
    let owned = piece.to_owned();
    parts.push(owned);
    proof {
        let tail = s@.subrange(start as int, n as int);
        lemma_split_all_none(tail, sep);
        assert(tail =~= piece@);
        assert(parts.deep_view() =~= pre + seq![piece@]);
    }
    parts
}

/// Remove leading and trailing whitespace.
pub fn trim_str(s: &str) -> (r: String)
    ensures
        r@ == trim_of(s@),
{
    let n = s.unicode_len();
    let mut a: usize = 0;
    while a < n && is_space_char(s.get_char(a))
        invariant
            n == s@.len(),
            0 <= a <= n,
            forall|j: int| 0 <= j < a ==> is_space(s@[j]),
        decreases n - a,
    {
        a += 1;
    }
    proof {
        lemma_trim_start_skip(s@, a as int);
    }
    let mut b: usize = n;
    while b > a && is_space_char(s.get_char(b - 1))
        invariant
            n == s@.len(),
            0 <= a <= b <= n,
            forall|j: int| 0 <= j < a ==> is_space(s@[j]),
            forall|j: int| b <= j < n ==> is_space(s@[j]),
        decreases b,
    {
        b -= 1;
    }
    proof {
        let head = s@.subrange(a as int, n as int);
        lemma_trim_end_skip(head, b - a);
        assert(head.subrange(0, b - a) =~= s@.subrange(a as int, b as int));
    }
    let piece = s.substring_char(a, b);
    piece.to_owned()
}

/// Whether `c` is one of the whitespace characters trimming removes.
pub fn is_space_char(c: char) -> (r: bool)
    ensures
        r == is_space(c),
{
    c == ' ' || c == '\t' || c == '\r' || c == '\n'
}

/// Drop the empty strings out of `parts`, preserving order.
pub fn drop_blank_vec(parts: Vec<String>) -> (r: Vec<String>)
    ensures
        r.deep_view() == drop_blank(parts.deep_view()),
{
    let mut out: Vec<String> = Vec::new();
    let mut i: usize = 0;
    while i < parts.len()
        invariant
            0 <= i <= parts.len(),
            out.deep_view() == drop_blank(parts.deep_view().subrange(0, i as int)),
        decreases parts.len() - i,
    {
        let ghost prefix = parts.deep_view().subrange(0, i as int);
        let ghost step = parts.deep_view().subrange(i as int, i + 1);
        proof {
            assert(parts.deep_view().subrange(0, i + 1) =~= prefix + step);
            lemma_drop_blank_add(prefix, step);
            assert(step.drop_first() =~= Seq::<Seq<char>>::empty());
            assert(drop_blank(Seq::<Seq<char>>::empty()) == Seq::<Seq<char>>::empty());
            assert(step[0] == parts@[i as int]@);
        }
        if parts[i].as_str().unicode_len() > 0 {
            let ghost pre = out.deep_view();
            let piece = parts[i].as_str().to_owned();
            out.push(piece);
            proof {
                assert(drop_blank(step) == seq![step[0]] + drop_blank(step.drop_first()));
                assert(out.deep_view() =~= pre + (seq![step[0]]
                    + Seq::<Seq<char>>::empty()));
            }
        } else {
            proof {
                assert(step[0].len() == 0);
                assert(drop_blank(step) == drop_blank(step.drop_first()));
                assert(drop_blank(prefix) + drop_blank(step) =~= drop_blank(prefix));
            }
        }
        i += 1;
    }
    proof {
        assert(parts.deep_view().subrange(0, parts.deep_view().len() as int) =~= parts.deep_view());
    }
    out
}

} // verus!
