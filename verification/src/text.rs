//! Character-level string helpers shared by the models, services and loaders.
//!
//! Strings are reasoned about through their views, `Seq<char>`.
use vstd::prelude::*;

verus! {

/// The characters with the Unicode `White_Space` property, which is what
/// `char::is_whitespace`, `str::trim` and `str::split_whitespace` test for.
pub open spec fn is_white_space(c: char) -> bool {
    let u = c as u32;
    ||| 0x09 <= u <= 0x0D
    ||| u == 0x20
    ||| u == 0x85
    ||| u == 0xA0
    ||| u == 0x1680
    ||| 0x2000 <= u <= 0x200A
    ||| u == 0x2028
    ||| u == 0x2029
    ||| u == 0x202F
    ||| u == 0x205F
    ||| u == 0x3000
}

/// Whether `c` is a white-space character.
pub fn white_space(c: char) -> (r: bool)
    ensures
        r == is_white_space(c),
{
    let u = c as u32;
    (0x09 <= u && u <= 0x0D) || u == 0x20 || u == 0x85 || u == 0xA0 || u == 0x1680 || (0x2000
        <= u && u <= 0x200A) || u == 0x2028 || u == 0x2029 || u == 0x202F || u == 0x205F || u
        == 0x3000
}

/// The characters of `s`, in order.
pub fn chars_of(s: &str) -> (r: Vec<char>)
    ensures
        r@ == s@,
{
    let mut r: Vec<char> = Vec::new();
    for c in it: s.chars()
        invariant
            r@ == it.seq().take(it.index() as int),
    {
        r.push(c);
    }
    r
}

/// Appends one character to a string (`String::push`).
#[verifier::external_body]
pub(crate) fn push_char(s: &mut String, c: char)
    ensures
        final(s)@ == old(s)@.push(c),
{
    s.push(c);
}

/// A string holding exactly the given characters.
pub fn string_from_chars(v: &Vec<char>) -> (r: String)
    ensures
        r@ == v@,
{
    let mut r = String::new();
    let mut i: usize = 0;
    while i < v.len()
        invariant
            i <= v.len(),
            r@ == v@.take(i as int),
        decreases v.len() - i,
    {
        push_char(&mut r, v[i]);
        assert(v@.take(i + 1) == v@.take(i as int).push(v@[i as int]));
        i = i + 1;
    }
    assert(v@.take(v.len() as int) == v@);
    r
}

/// Whether two strings hold the same characters.
pub fn str_eq(a: &str, b: &str) -> (r: bool)
    ensures
        r == (a@ == b@),
{
    let va = chars_of(a);
    let vb = chars_of(b);
    chars_eq(&va, &vb)
}

/// Whether two character vectors are equal.
pub fn chars_eq(a: &Vec<char>, b: &Vec<char>) -> (r: bool)
    ensures
        r == (a@ == b@),
{
    if a.len() != b.len() {
        return false;
    }
    let mut i: usize = 0;
    while i < a.len()
        invariant
            a.len() == b.len(),
            i <= a.len(),
            forall|k: int| 0 <= k < i ==> a@[k] == b@[k],
        decreases a.len() - i,
    {
        if a[i] != b[i] {
            return false;
        }
        i = i + 1;
    }
    assert(a@ =~= b@);
    true
}

/// Lexicographic order on character sequences, comparing characters by
/// code point; this is the order of `String`'s `Ord` (UTF-8 byte order
/// agrees with code-point order).
pub open spec fn seq_lt(a: Seq<char>, b: Seq<char>) -> bool
    decreases a.len(),
{
    if a.len() == 0 {
        b.len() > 0
    } else if b.len() == 0 {
        false
    } else if a[0] != b[0] {
        (a[0] as int) < (b[0] as int)
    } else {
        seq_lt(a.drop_first(), b.drop_first())
    }
}

/// `a < b` in the order of `seq_lt`.
pub fn chars_lt(a: &Vec<char>, b: &Vec<char>) -> (r: bool)
    ensures
        r == seq_lt(a@, b@),
{
    let mut i: usize = 0;
    assert(a@.subrange(0, a@.len() as int) == a@);
    assert(b@.subrange(0, b@.len() as int) == b@);
    while i < a.len() && i < b.len() && a[i] == b[i]
        invariant
            i <= a.len(),
            i <= b.len(),
            a@.subrange(0, i as int) == b@.subrange(0, i as int),
            seq_lt(a@, b@) == seq_lt(a@.subrange(i as int, a@.len() as int), b@.subrange(
                i as int,
                b@.len() as int,
            )),
        decreases a.len() - i,
    {
        let ghost sa = a@.subrange(i as int, a@.len() as int);
        let ghost sb = b@.subrange(i as int, b@.len() as int);
        assert(sa.drop_first() == a@.subrange(i + 1, a@.len() as int));
        assert(sb.drop_first() == b@.subrange(i + 1, b@.len() as int));
        assert(a@.subrange(0, i + 1) == a@.subrange(0, i as int).push(a@[i as int]));
        assert(b@.subrange(0, i + 1) == b@.subrange(0, i as int).push(b@[i as int]));
        i = i + 1;
    }
    if i == a.len() {
        i < b.len()
    } else if i == b.len() {
        false
    } else {
        a[i] < b[i]
    }
}

/// `a < b` on strings, in the order of `seq_lt`.
pub fn str_lt(a: &str, b: &str) -> (r: bool)
    ensures
        r == seq_lt(a@, b@),
{
    let va = chars_of(a);
    let vb = chars_of(b);
    chars_lt(&va, &vb)
}

/// `seq_lt` is irreflexive.
pub proof fn lemma_seq_lt_irreflexive(a: Seq<char>)
    ensures
        !seq_lt(a, a),
    decreases a.len(),
{
    if a.len() > 0 {
        lemma_seq_lt_irreflexive(a.drop_first());
    }
}

/// `seq_lt` is transitive.
pub proof fn lemma_seq_lt_transitive(a: Seq<char>, b: Seq<char>, c: Seq<char>)
    requires
        seq_lt(a, b),
        seq_lt(b, c),
    ensures
        seq_lt(a, c),
    decreases a.len(),
{
    if a.len() > 0 && b.len() > 0 && c.len() > 0 && a[0] == b[0] && b[0] == c[0] {
        lemma_seq_lt_transitive(a.drop_first(), b.drop_first(), c.drop_first());
    }
}

/// `seq_lt` is total on distinct sequences.
pub proof fn lemma_seq_lt_total(a: Seq<char>, b: Seq<char>)
    requires
        a != b,
    ensures
        seq_lt(a, b) || seq_lt(b, a),
    decreases a.len(),
{
    if a.len() > 0 && b.len() > 0 && a[0] == b[0] {
        if a.drop_first() == b.drop_first() {
            assert(a =~= seq![a[0]] + a.drop_first());
            assert(b =~= seq![b[0]] + b.drop_first());
        }
        lemma_seq_lt_total(a.drop_first(), b.drop_first());
    } else if a.len() > 0 && b.len() > 0 {
        assert((a[0] as int) != (b[0] as int));
    } else if a.len() == 0 && b.len() == 0 {
        assert(a =~= b);
    }
}

/// The index of the first character of `s` at or after `i` that is not
/// white space, or `s.len()` if there is none.
pub open spec fn skip_white_space(s: Seq<char>, i: int) -> int
    recommends
        0 <= i <= s.len(),
    decreases s.len() - i,
{
    if i < 0 || i >= s.len() {
        s.len() as int
    } else if is_white_space(s[i]) {
        skip_white_space(s, i + 1)
    } else {
        i
    }
}

/// Going down from `j` to `lo`, the end of the last character that is not
/// white space, or `lo` if there is none.
pub open spec fn back_white_space(s: Seq<char>, j: int, lo: int) -> int
    decreases j - lo,
{
    if j <= lo || j > s.len() {
        lo
    } else if is_white_space(s[j - 1]) {
        back_white_space(s, j - 1, lo)
    } else {
        j
    }
}

/// `s` without its leading and trailing white space (`str::trim`).
pub open spec fn trim_spec(s: Seq<char>) -> Seq<char> {
    let start = skip_white_space(s, 0);
    s.subrange(start, back_white_space(s, s.len() as int, start))
}

proof fn lemma_skip_bounds(s: Seq<char>, i: int)
    requires
        0 <= i <= s.len(),
    ensures
        i <= skip_white_space(s, i) <= s.len(),
        skip_white_space(s, i) < s.len() ==> !is_white_space(s[skip_white_space(s, i)]),
        forall|k: int| i <= k < skip_white_space(s, i) ==> is_white_space(#[trigger] s[k]),
    decreases s.len() - i,
{
    if i < s.len() && is_white_space(s[i]) {
        lemma_skip_bounds(s, i + 1);
    }
}

proof fn lemma_back_bounds(s: Seq<char>, j: int, lo: int)
    requires
        0 <= lo <= j <= s.len(),
    ensures
        lo <= back_white_space(s, j, lo) <= j,
        back_white_space(s, j, lo) > lo ==> !is_white_space(s[back_white_space(s, j, lo) - 1]),
        forall|k: int| back_white_space(s, j, lo) <= k < j ==> is_white_space(#[trigger] s[k]),
    decreases j - lo,
{
    if j > lo && is_white_space(s[j - 1]) {
        lemma_back_bounds(s, j - 1, lo);
    }
}

/// Trimmed text is empty exactly when every character is white space.
pub proof fn law_trim_empty_iff_all_white_space(s: Seq<char>)
    ensures
        trim_spec(s).len() == 0 <==> forall|k: int| 0 <= k < s.len() ==> is_white_space(
            #[trigger] s[k],
        ),
{
    lemma_skip_bounds(s, 0);
    let start = skip_white_space(s, 0);
    lemma_back_bounds(s, s.len() as int, start);
    if start < s.len() {
        assert(!is_white_space(s[start]));
        assert(back_white_space(s, s.len() as int, start) > start) by {
            if back_white_space(s, s.len() as int, start) == start {
                assert(is_white_space(s[start]));
            }
        }
    }
}

/// The part of `s` between its leading and trailing white space.
pub fn trim(s: &str) -> (r: &str)
    ensures
        r@ == trim_spec(s@),
{
    let v = chars_of(s);
    let n = v.len();
    let mut i: usize = 0;
    while i < n && white_space(v[i])
        invariant
            n == v.len(),
            v@ == s@,
            i <= n,
            skip_white_space(s@, 0) == skip_white_space(s@, i as int),
        decreases n - i,
    {
        i = i + 1;
    }
    let mut j: usize = n;
    while j > i && white_space(v[j - 1])
        invariant
            n == v.len(),
            v@ == s@,
            i <= j <= n,
            back_white_space(s@, n as int, i as int) == back_white_space(s@, j as int, i as int),
        decreases j,
    {
        j = j - 1;
    }
    s.substring_char(i, j)
}

/// Whether `s` holds nothing but white space (`s.trim().is_empty()`).
pub fn is_blank(s: &str) -> (r: bool)
    ensures
        r == (trim_spec(s@).len() == 0),
{
    let t = trim(s);
    t.unicode_len() == 0
}

/// Unicode upper-case mapping of a whole string, as `str::to_uppercase`
/// computes it.
pub uninterp spec fn uppercase(s: Seq<char>) -> Seq<char>;

/// Unicode lower-case mapping of a whole string, as `str::to_lowercase`
/// computes it.
pub uninterp spec fn lowercase(s: Seq<char>) -> Seq<char>;

/// `str::to_uppercase`: the result is `uppercase` of the argument. The
/// Unicode case tables behind it are not restated here.
#[verifier::external_body]
pub(crate) fn to_uppercase(s: &str) -> (r: String)
    ensures
        r@ == uppercase(s@),
{
    s.to_uppercase()
}

/// `str::to_lowercase`: the result is `lowercase` of the argument. The
/// Unicode case tables behind it are not restated here.
#[verifier::external_body]
pub(crate) fn to_lowercase(s: &str) -> (r: String)
    ensures
        r@ == lowercase(s@),
{
    s.to_lowercase()
}

/// Whether `suffix` is a suffix of `s`.
pub open spec fn ends_with_spec(s: Seq<char>, suffix: Seq<char>) -> bool {
    suffix.len() <= s.len() && s.subrange(s.len() - suffix.len(), s.len() as int) == suffix
}

/// Whether `s` ends with `suffix` (`str::ends_with`).
pub fn ends_with(s: &str, suffix: &str) -> (r: bool)
    ensures
        r == ends_with_spec(s@, suffix@),
{
    let vs = chars_of(s);
    let vx = chars_of(suffix);
    if vx.len() > vs.len() {
        return false;
    }
    let off = vs.len() - vx.len();
    let mut i: usize = 0;
    while i < vx.len()
        invariant
            vs@ == s@,
            vx@ == suffix@,
            off == vs.len() - vx.len(),
            i <= vx.len(),
            forall|k: int| 0 <= k < i ==> vs@[off + k] == vx@[k],
        decreases vx.len() - i,
    {
        if vs[off + i] != vx[i] {
            assert(s@.subrange(off as int, s@.len() as int)[i as int] != suffix@[i as int]);
            return false;
        }
        i = i + 1;
    }
    assert(s@.subrange(off as int, s@.len() as int) =~= suffix@);
    true
}

/// The index of the first occurrence of `c` in `s` at or after `i`, if any.
pub open spec fn find_char_from(s: Seq<char>, c: char, i: int) -> Option<int>
    decreases s.len() - i,
{
    if i < 0 || i >= s.len() {
        None
    } else if s[i] == c {
        Some(i)
    } else {
        find_char_from(s, c, i + 1)
    }
}

/// The index of the first occurrence of `c` in `s` (`str::find` with a
/// `char`, counted in characters).
pub open spec fn find_char(s: Seq<char>, c: char) -> Option<int> {
    find_char_from(s, c, 0)
}

proof fn lemma_find_char_from(s: Seq<char>, c: char, i: int)
    requires
        0 <= i <= s.len(),
    ensures
        match find_char_from(s, c, i) {
            Some(k) => i <= k < s.len() && s[k] == c && forall|j: int|
                i <= j < k ==> s[j] != c,
            None => forall|j: int| i <= j < s.len() ==> s[j] != c,
        },
    decreases s.len() - i,
{
    if i < s.len() && s[i] != c {
        lemma_find_char_from(s, c, i + 1);
    }
}

/// What `find_char` returns.
pub proof fn lemma_find_char(s: Seq<char>, c: char)
    ensures
        match find_char(s, c) {
            Some(k) => 0 <= k < s.len() && s[k] == c && forall|j: int| 0 <= j < k ==> s[j] != c,
            None => forall|j: int| 0 <= j < s.len() ==> s[j] != c,
        },
{
    lemma_find_char_from(s, c, 0);
}

/// The first index of `c` in `v`, if any.
pub fn find_char_in(v: &Vec<char>, c: char) -> (r: Option<usize>)
    ensures
        match r {
            Some(k) => find_char(v@, c) == Some(k as int),
            None => find_char(v@, c) is None,
        },
{
    let mut i: usize = 0;
    while i < v.len()
        invariant
            i <= v.len(),
            find_char(v@, c) == find_char_from(v@, c, i as int),
        decreases v.len() - i,
    {
        if v[i] == c {
            return Some(i);
        }
        i = i + 1;
    }
    None
}

} // verus!

verus! {

/// The characters of each string of a sequence.
pub open spec fn strings_view(v: Seq<String>) -> Seq<Seq<char>> {
    v.map_values(|s: String| s@)
}

/// Every element is below the next ones in the order of `seq_lt`; in
/// particular no element occurs twice.
pub open spec fn strictly_sorted(s: Seq<Seq<char>>) -> bool {
    forall|i: int, j: int| 0 <= i < j < s.len() ==> seq_lt(s[i], s[j])
}

/// Two strictly sorted sequences with the same elements are equal.
pub proof fn law_strictly_sorted_unique(a: Seq<Seq<char>>, b: Seq<Seq<char>>)
    requires
        strictly_sorted(a),
        strictly_sorted(b),
        a.to_set() == b.to_set(),
    ensures
        a == b,
    decreases a.len() + b.len(),
{
    if a.len() == 0 {
        if b.len() > 0 {
            assert(b.to_set().contains(b[0]));
        }
        assert(a =~= b);
    } else if b.len() == 0 {
        assert(a.to_set().contains(a[0]));
    } else {
        let x = a.last();
        let y = b.last();
        assert(a.to_set().contains(x));
        assert(b.to_set().contains(y));
        let i = choose|i: int| 0 <= i < b.len() && b[i] == x;
        let j = choose|j: int| 0 <= j < a.len() && a[j] == y;
        if x != y {
            lemma_seq_lt_total(x, y);
            if seq_lt(x, y) {
                if j < a.len() - 1 {
                    lemma_seq_lt_transitive(x, y, x);
                }
                lemma_seq_lt_irreflexive(x);
            } else {
                if i < b.len() - 1 {
                    lemma_seq_lt_transitive(y, x, y);
                }
                lemma_seq_lt_irreflexive(y);
            }
        }
        assert(a.drop_last().to_set() == a.to_set().remove(x)) by {
            assert forall|z| a.drop_last().to_set().contains(z) implies z != x by {
                let k = choose|k: int| 0 <= k < a.len() - 1 && a[k] == z;
                assert(seq_lt(a[k], a[a.len() - 1]));
                lemma_seq_lt_irreflexive(x);
            }
            assert forall|z| a.to_set().contains(z) && z != x implies a.drop_last().contains(z) by {
                let k = choose|k: int| 0 <= k < a.len() && a[k] == z;
                assert(a.drop_last()[k] == z);
            }
            assert(a.drop_last().to_set() =~= a.to_set().remove(x));
        }
        assert(b.drop_last().to_set() == b.to_set().remove(y)) by {
            assert forall|z| b.drop_last().to_set().contains(z) implies z != y by {
                let k = choose|k: int| 0 <= k < b.len() - 1 && b[k] == z;
                assert(seq_lt(b[k], b[b.len() - 1]));
                lemma_seq_lt_irreflexive(y);
            }
            assert forall|z| b.to_set().contains(z) && z != y implies b.drop_last().contains(z) by {
                let k = choose|k: int| 0 <= k < b.len() && b[k] == z;
                assert(b.drop_last()[k] == z);
            }
            assert(b.drop_last().to_set() =~= b.to_set().remove(y));
        }
        law_strictly_sorted_unique(a.drop_last(), b.drop_last());
        assert(a =~= a.drop_last().push(x));
        assert(b =~= b.drop_last().push(y));
    }
}

/// Adds `s` to a strictly sorted vector of strings unless it is there
/// already; the vector stays strictly sorted.
pub fn insert_sorted_unique(v: &mut Vec<String>, s: String)
    requires
        strictly_sorted(strings_view(old(v)@)),
    ensures
        strictly_sorted(strings_view(final(v)@)),
        strings_view(final(v)@).to_set() == strings_view(old(v)@).to_set().insert(s@),
{
    let ghost old_view = strings_view(v@);
    let mut i: usize = 0;
    while i < v.len() && str_lt(v[i].as_str(), s.as_str())
        invariant
            i <= v@.len(),
            v@ == old(v)@,
            old_view == strings_view(v@),
            forall|k: int| 0 <= k < i ==> seq_lt(old_view[k], s@),
        decreases v@.len() - i,
    {
        i = i + 1;
    }
    if i < v.len() && str_eq(v[i].as_str(), s.as_str()) {
        assert(old_view.to_set().insert(s@) =~= old_view.to_set()) by {
            assert(old_view[i as int] == s@);
        }
        return;
    }
    proof {
        if i < v@.len() {
            lemma_seq_lt_total(old_view[i as int], s@);
        }
    }
    v.insert(i, s);
    proof {
        let nv = strings_view(v@);
        assert(nv =~= old_view.insert(i as int, s@));
        assert forall|a: int, b: int| 0 <= a < b < nv.len() implies seq_lt(nv[a], nv[b]) by {
            if b < i {
            } else if a < i && b == i {
            } else if a < i {
                assert(nv[b] == old_view[b - 1]);
                if b - 1 > i {
                    lemma_seq_lt_transitive(s@, old_view[i as int], old_view[b - 1]);
                }
                lemma_seq_lt_transitive(old_view[a], s@, old_view[b - 1]);
            } else if a == i {
                assert(nv[b] == old_view[b - 1]);
                if b - 1 > i {
                    lemma_seq_lt_transitive(s@, old_view[i as int], old_view[b - 1]);
                }
            } else {
                assert(nv[a] == old_view[a - 1]);
                assert(nv[b] == old_view[b - 1]);
            }
        }
        assert(nv.to_set() =~= old_view.to_set().insert(s@)) by {
            assert forall|z| nv.to_set().contains(z) implies old_view.to_set().insert(s@).contains(
                z,
            ) by {
                let k = choose|k: int| 0 <= k < nv.len() && nv[k] == z;
                if k < i {
                    assert(old_view[k] == z);
                } else if k > i {
                    assert(old_view[k - 1] == z);
                }
            }
            assert forall|z| old_view.to_set().insert(s@).contains(z) implies nv.to_set().contains(
                z,
            ) by {
                if z == s@ {
                    assert(nv[i as int] == z);
                } else {
                    let k = choose|k: int| 0 <= k < old_view.len() && old_view[k] == z;
                    if k < i {
                        assert(nv[k] == z);
                    } else {
                        assert(nv[k + 1] == z);
                    }
                }
            }
        }
    }
}

} // verus!

verus! {

/// The maximal runs of characters that are not white space, in order
/// (`str::split_whitespace`).
pub open spec fn split_white_space(s: Seq<char>) -> Seq<Seq<char>>
    decreases s.len(),
{
    if s.len() == 0 {
        Seq::empty()
    } else {
        let words = split_white_space(s.drop_last());
        let c = s.last();
        if is_white_space(c) {
            words
        } else if s.len() >= 2 && !is_white_space(s[s.len() - 2]) && words.len() > 0 {
            words.update(words.len() - 1, words.last().push(c))
        } else {
            words.push(seq![c])
        }
    }
}

/// The words joined by `sep` (`[..].join(sep)`).
pub open spec fn join_with(words: Seq<Seq<char>>, sep: Seq<char>) -> Seq<char>
    decreases words.len(),
{
    if words.len() == 0 {
        Seq::empty()
    } else if words.len() == 1 {
        words[0]
    } else {
        join_with(words.drop_last(), sep) + sep + words.last()
    }
}

proof fn lemma_join_push(words: Seq<Seq<char>>, w: Seq<char>, sep: Seq<char>)
    requires
        words.len() > 0,
    ensures
        join_with(words.push(w), sep) == join_with(words, sep) + sep + w,
{
    assert(words.push(w).drop_last() == words);
}

proof fn lemma_join_extend_last(words: Seq<Seq<char>>, c: char, sep: Seq<char>)
    requires
        words.len() > 0,
    ensures
        join_with(words.update(words.len() - 1, words.last().push(c)), sep) == join_with(
            words,
            sep,
        ).push(c),
{
    let nw = words.update(words.len() - 1, words.last().push(c));
    if words.len() > 1 {
        assert(nw.drop_last() == words.drop_last());
        assert(nw.last() == words.last().push(c));
        assert(join_with(nw, sep) == join_with(words.drop_last(), sep) + sep + words.last().push(
            c,
        ));
        assert((join_with(words.drop_last(), sep) + sep + words.last()).push(c) =~= join_with(
            words.drop_last(),
            sep,
        ) + sep + words.last().push(c));
    }
}

/// The words of `s` joined by single spaces: white space is collapsed and
/// removed from both ends.
pub open spec fn collapse_white_space(s: Seq<char>) -> Seq<char> {
    join_with(split_white_space(s), seq![' '])
}

/// `s.split_whitespace().collect::<Vec<_>>().join(" ")`, on characters.
pub fn collapse_white_space_chars(v: &Vec<char>) -> (r: Vec<char>)
    ensures
        r@ == collapse_white_space(v@),
{
    let mut out: Vec<char> = Vec::new();
    let mut in_word = false;
    let mut any_word = false;
    let mut i: usize = 0;
    while i < v.len()
        invariant
            i <= v.len(),
            out@ == collapse_white_space(v@.take(i as int)),
            in_word == (i > 0 && !is_white_space(v@[i - 1])),
            any_word == (split_white_space(v@.take(i as int)).len() > 0),
            in_word ==> any_word,
        decreases v.len() - i,
    {
        let c = v[i];
        let ghost prefix = v@.take(i as int);
        let ghost next = v@.take(i + 1);
        assert(next.drop_last() == prefix);
        assert(next.last() == c);
        let ws = white_space(c);
        if ws {
            in_word = false;
        } else if in_word {
            assert(next[next.len() - 2] == v@[i - 1]);
            proof {
                lemma_join_extend_last(split_white_space(prefix), c, seq![' ']);
            }
            out.push(c);
        } else {
            if any_word {
                proof {
                    lemma_join_push(split_white_space(prefix), seq![c], seq![' ']);
                }
                out.push(' ');
                assert(out@.push(c) == collapse_white_space(prefix) + seq![' '] + seq![c]);
            } else {
                assert(split_white_space(prefix).push(seq![c]) == seq![seq![c]]);
            }
            out.push(c);
            in_word = true;
            any_word = true;
        }
        i = i + 1;
    }
    assert(v@.take(v.len() as int) == v@);
    out
}

/// A word: non-empty, without white space.
pub open spec fn is_word(w: Seq<char>) -> bool {
    w.len() > 0 && forall|k: int| 0 <= k < w.len() ==> !is_white_space(#[trigger] w[k])
}

/// Every piece that `split_white_space` cuts out is a word.
pub proof fn lemma_split_words(s: Seq<char>)
    ensures
        forall|i: int|
            0 <= i < split_white_space(s).len() ==> is_word(#[trigger] split_white_space(s)[i]),
    decreases s.len(),
{
    if s.len() > 0 {
        lemma_split_words(s.drop_last());
        let words = split_white_space(s.drop_last());
        let c = s.last();
        if !is_white_space(c) {
            if s.len() >= 2 && !is_white_space(s[s.len() - 2]) && words.len() > 0 {
                let nw = words.update(words.len() - 1, words.last().push(c));
                assert forall|i: int| 0 <= i < nw.len() implies is_word(#[trigger] nw[i]) by {
                    if i == words.len() - 1 {
                        assert(is_word(words[i]));
                        assert forall|k: int| 0 <= k < nw[i].len() implies !is_white_space(
                            #[trigger] nw[i][k],
                        ) by {
                            if k < words[i].len() {
                                assert(nw[i][k] == words[i][k]);
                            }
                        }
                    }
                }
            } else {
                let nw = words.push(seq![c]);
                assert forall|i: int| 0 <= i < nw.len() implies is_word(#[trigger] nw[i]) by {
                    if i < words.len() {
                        assert(nw[i] == words[i]);
                    }
                }
            }
        }
    }
}

proof fn lemma_split_push_space(x: Seq<char>)
    ensures
        split_white_space(x.push(' ')) == split_white_space(x),
{
    assert(x.push(' ').drop_last() =~= x);
    assert(is_white_space(' '));
}

/// Appending a word after white space (or to nothing) adds it as one more
/// word.
proof fn lemma_split_push_word(y: Seq<char>, w: Seq<char>)
    requires
        y.len() == 0 || is_white_space(y.last()),
        is_word(w),
    ensures
        split_white_space(y + w) == split_white_space(y).push(w),
    decreases w.len(),
{
    let s = y + w;
    if w.len() == 1 {
        assert(s.drop_last() =~= y);
        assert(s.last() == w[0]);
        assert(seq![w[0]] =~= w);
        if s.len() >= 2 {
            assert(s[s.len() - 2] == y.last());
        }
    } else {
        let w0 = w.drop_last();
        assert(is_word(w0)) by {
            assert forall|k: int| 0 <= k < w0.len() implies !is_white_space(#[trigger] w0[k]) by {
                assert(w0[k] == w[k]);
            }
        }
        lemma_split_push_word(y, w0);
        assert(s.drop_last() =~= y + w0);
        assert(s.last() == w.last());
        assert(!is_white_space(w[w.len() - 1]));
        assert(s[s.len() - 2] == w0.last());
        assert(!is_white_space(w0[w0.len() - 1]));
        let words = split_white_space(y + w0);
        assert(words.last() == w0);
        assert(words.update(words.len() - 1, words.last().push(w.last())) =~= split_white_space(
            y,
        ).push(w)) by {
            assert(w0.push(w.last()) =~= w);
        }
    }
}

/// Words joined by single spaces split back into the same words.
pub proof fn lemma_split_join(ws: Seq<Seq<char>>)
    requires
        forall|i: int| 0 <= i < ws.len() ==> is_word(#[trigger] ws[i]),
    ensures
        split_white_space(join_with(ws, seq![' '])) == ws,
    decreases ws.len(),
{
    if ws.len() == 0 {
    } else if ws.len() == 1 {
        lemma_split_push_word(Seq::empty(), ws[0]);
        assert(Seq::<char>::empty() + ws[0] =~= ws[0]);
        assert(Seq::<Seq<char>>::empty().push(ws[0]) =~= ws);
    } else {
        let rest = ws.drop_last();
        lemma_split_join(rest);
        let x = join_with(rest, seq![' ']);
        let y = x + seq![' '];
        assert(y =~= x.push(' '));
        lemma_split_push_space(x);
        assert(is_word(ws[ws.len() - 1]));
        lemma_split_push_word(y, ws.last());
        assert(rest.push(ws.last()) =~= ws);
    }
}

/// Collapsing white space a second time changes nothing.
pub proof fn lemma_collapse_idempotent(s: Seq<char>)
    ensures
        collapse_white_space(collapse_white_space(s)) == collapse_white_space(s),
{
    lemma_split_words(s);
    lemma_split_join(split_white_space(s));
}

/// Words joined by single spaces: every character is a space or belongs
/// to a word; the text starts with the first word and ends with the last.
pub proof fn lemma_join_chars(ws: Seq<Seq<char>>)
    requires
        forall|i: int| 0 <= i < ws.len() ==> is_word(#[trigger] ws[i]),
    ensures
        forall|k: int|
            0 <= k < join_with(ws, seq![' ']).len() ==> #[trigger] join_with(ws, seq![' '])[k]
                == ' ' || !is_white_space(join_with(ws, seq![' '])[k]),
        ws.len() > 0 ==> join_with(ws, seq![' ']).len() > 0 && join_with(ws, seq![' '])[0]
            == ws[0][0] && join_with(ws, seq![' ']).last() == ws.last().last(),
    decreases ws.len(),
{
    let j = join_with(ws, seq![' ']);
    if ws.len() == 1 {
        assert(is_word(ws[0]));
    } else if ws.len() > 1 {
        let rest = ws.drop_last();
        lemma_join_chars(rest);
        let x = join_with(rest, seq![' ']);
        let w = ws.last();
        assert(is_word(ws[ws.len() - 1]));
        assert(rest[0] == ws[0]);
        assert forall|k: int| 0 <= k < j.len() implies #[trigger] j[k] == ' ' || !is_white_space(
            j[k],
        ) by {
            if k < x.len() {
                assert(j[k] == x[k]);
            } else if k > x.len() {
                assert(j[k] == w[k - x.len() - 1]);
            }
        }
        assert(j[0] == x[0]);
    }
}

} // verus!
