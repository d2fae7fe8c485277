//! Character-level text utilities used by the extractor.
//!
//! All algorithms work on sequences of `char`; a `String` is converted to a
//! `Vec<char>` at the boundary, so every contract is stated over `Seq<char>`.

use vstd::prelude::*;

verus! {

/// The characters Rust's `char::is_whitespace` accepts (the Unicode
/// `White_Space` property).
pub open spec fn is_space_char(c: char) -> bool {
    ||| c == ' '
    ||| c == '\t'
    ||| c == '\n'
    ||| c == '\u{b}'
    ||| c == '\u{c}'
    ||| c == '\r'
    ||| c == '\u{85}'
    ||| c == '\u{a0}'
    ||| c == '\u{1680}'
    ||| ('\u{2000}' <= c && c <= '\u{200a}')
    ||| c == '\u{2028}'
    ||| c == '\u{2029}'
    ||| c == '\u{202f}'
    ||| c == '\u{205f}'
    ||| c == '\u{3000}'
}

/// Executable test for [`is_space_char`].
pub fn is_space(c: char) -> (r: bool)
    ensures
        r == is_space_char(c),
{
    c == ' ' || c == '\t' || c == '\n' || c == '\u{b}' || c == '\u{c}' || c == '\r'
        || c == '\u{85}' || c == '\u{a0}' || c == '\u{1680}'
        || ('\u{2000}' <= c && c <= '\u{200a}') || c == '\u{2028}' || c == '\u{2029}'
        || c == '\u{202f}' || c == '\u{205f}' || c == '\u{3000}'
}

/// `needle` occurs in `hay` starting at position `i`.
pub open spec fn contains_at(hay: Seq<char>, needle: Seq<char>, i: int) -> bool {
    &&& 0 <= i
    &&& i + needle.len() <= hay.len()
    &&& hay.subrange(i, i + needle.len()) == needle
}

/// `needle` occurs somewhere in `hay` (every sequence contains the empty one).
pub open spec fn has_sub(hay: Seq<char>, needle: Seq<char>) -> bool {
    exists|i: int| contains_at(hay, needle, i)
}

/// Position of the first occurrence of `needle` in `hay`, if any.
pub open spec fn spec_find(hay: Seq<char>, needle: Seq<char>) -> Option<int>
    decreases hay.len(),
{
    if needle.len() > hay.len() {
        None
    } else if hay.subrange(0, needle.len() as int) == needle {
        Some(0)
    } else if hay.len() == 0 {
        None
    } else {
        match spec_find(hay.subrange(1, hay.len() as int), needle) {
            Some(i) => Some(i + 1),
            None => None,
        }
    }
}

/// Shifting the haystack by one shifts every occurrence by one.
proof fn lemma_contains_at_shift(hay: Seq<char>, needle: Seq<char>, j: int)
    requires
        hay.len() >= 1,
        0 <= j,
    ensures
        contains_at(hay, needle, j + 1) == contains_at(
            hay.subrange(1, hay.len() as int),
            needle,
            j,
        ),
{
    let tail = hay.subrange(1, hay.len() as int);
    if j + 1 + needle.len() <= hay.len() {
        assert(tail.subrange(j, j + needle.len()) =~= hay.subrange(j + 1, j + 1 + needle.len()));
    }
}

/// [`spec_find`] returns exactly the first occurrence of `needle` in `hay`.
pub proof fn lemma_find_first(hay: Seq<char>, needle: Seq<char>)
    ensures
        match spec_find(hay, needle) {
            Some(i) => contains_at(hay, needle, i) && (forall|j: int|
                0 <= j < i ==> !contains_at(hay, needle, j)),
            None => forall|j: int| !contains_at(hay, needle, j),
        },
    decreases hay.len(),
{
    if needle.len() > hay.len() {
        assert(forall|j: int| !contains_at(hay, needle, j));
    } else if hay.subrange(0, needle.len() as int) == needle {
        assert(contains_at(hay, needle, 0));
    } else if hay.len() == 0 {
        assert(hay.subrange(0, needle.len() as int) =~= needle);
    } else {
        assert(!contains_at(hay, needle, 0));
        let tail = hay.subrange(1, hay.len() as int);
        lemma_find_first(tail, needle);
        assert forall|j: int| 0 <= j implies contains_at(hay, needle, j + 1) == contains_at(
            tail,
            needle,
            j,
        ) by {
            lemma_contains_at_shift(hay, needle, j);
        }
        match spec_find(tail, needle) {
            Some(i) => {
                assert(contains_at(hay, needle, i + 1));
                assert forall|j: int| 0 <= j < i + 1 implies !contains_at(hay, needle, j) by {
                    if j > 0 {
                        assert(!contains_at(tail, needle, j - 1));
                    }
                }
            },
            None => {
                assert forall|j: int| !contains_at(hay, needle, j) by {
                    if j > 0 {
                        assert(!contains_at(tail, needle, j - 1));
                    }
                }
            },
        }
    }
}

/// A first occurrence characterizes [`spec_find`].
pub proof fn lemma_find_unique(hay: Seq<char>, needle: Seq<char>, i: int)
    requires
        contains_at(hay, needle, i),
        forall|j: int| 0 <= j < i ==> !contains_at(hay, needle, j),
    ensures
        spec_find(hay, needle) == Some(i),
{
    lemma_find_first(hay, needle);
    match spec_find(hay, needle) {
        Some(k) => {
            if k < i {
                assert(!contains_at(hay, needle, k));
            } else if i < k {
                assert(!contains_at(hay, needle, i));
            }
        },
        None => {
            assert(!contains_at(hay, needle, i));
        },
    }
}

/// Does `needle` occur in `hay` at position `i`?
pub fn match_at(hay: &[char], needle: &[char], i: usize) -> (r: bool)
    requires
        i + needle@.len() <= hay@.len(),
    ensures
        r == contains_at(hay@, needle@, i as int),
{
    let n = needle.len();
    let h = hay.len();
    let mut k: usize = 0;
    while k < n
        invariant
            n == needle@.len(),
            h == hay@.len(),
            i + n <= h,
            k <= n,
            forall|m: int| 0 <= m < k ==> hay@[i + m] == needle@[m],
        decreases n - k,
    {
        if hay[i + k] != needle[k] {
            proof {
                assert(hay@.subrange(i as int, i + needle@.len())[k as int] == hay@[i + k]);
            }
            return false;
        }
        k += 1;
    }
    proof {
        assert(hay@.subrange(i as int, i + needle@.len()) =~= needle@);
    }
    true
}

/// Position of the first occurrence of `needle` in `hay`, if any.
pub fn find_sub(hay: &[char], needle: &[char]) -> (r: Option<usize>)
    ensures
        match r {
            Some(i) => spec_find(hay@, needle@) == Some(i as int),
            None => spec_find(hay@, needle@) is None,
        },
{
    let n = needle.len();
    let h = hay.len();
    if n > h {
        proof {
            lemma_find_first(hay@, needle@);
            if spec_find(hay@, needle@) is Some {
                let i = spec_find(hay@, needle@)->Some_0;
                assert(contains_at(hay@, needle@, i));
            }
        }
        return None;
    }
    if n == 0 {
        proof {
            assert(needle@ =~= hay@.subrange(0, 0));
            lemma_find_unique(hay@, needle@, 0);
        }
        return Some(0);
    }
    let bound = h - n + 1;
    let mut i: usize = 0;
    while i < bound
        invariant
            n == needle@.len(),
            h == hay@.len(),
            1 <= n <= h,
            bound == h - n + 1,
            i <= bound,
            forall|j: int| 0 <= j < i ==> !contains_at(hay@, needle@, j),
        decreases bound - i,
    {
        if match_at(hay, needle, i) {
            proof {
                lemma_find_unique(hay@, needle@, i as int);
            }
            return Some(i);
        }
        i += 1;
    }
    proof {
        lemma_find_first(hay@, needle@);
        if spec_find(hay@, needle@) is Some {
            let k = spec_find(hay@, needle@)->Some_0;
            assert(contains_at(hay@, needle@, k));
        }
    }
    None
}

/// Does `needle` occur anywhere in `hay`?
pub fn contains_sub(hay: &[char], needle: &[char]) -> (r: bool)
    ensures
        r == has_sub(hay@, needle@),
{
    let found = find_sub(hay, needle);
    proof {
        lemma_find_first(hay@, needle@);
        if found is Some {
            assert(contains_at(hay@, needle@, found->Some_0 as int));
        }
    }
    found.is_some()
}

/// An occurrence of an equally long needle is the whole haystack.
pub proof fn lemma_sub_same_len(hay: Seq<char>, needle: Seq<char>)
    requires
        has_sub(hay, needle),
        hay.len() == needle.len(),
    ensures
        hay == needle,
{
    let i = choose|i: int| contains_at(hay, needle, i);
    assert(hay.subrange(i, i + needle.len()) =~= hay);
}

/// Equality of two character slices.
pub fn chars_eq(a: &[char], b: &[char]) -> (r: bool)
    ensures
        r == (a@ == b@),
{
    if a.len() != b.len() {
        return false;
    }
    let n = a.len();
    let mut k: usize = 0;
    while k < n
        invariant
            n == a@.len(),
            n == b@.len(),
            k <= n,
            forall|m: int| 0 <= m < k ==> a@[m] == b@[m],
        decreases n - k,
    {
        if a[k] != b[k] {
            return false;
        }
        k += 1;
    }
    proof {
        assert(a@ =~= b@);
    }
    true
}

/// The characters of `s`, in order.
pub fn str_chars(s: &str) -> (r: Vec<char>)
    ensures
        r@ == s@,
{
    let n = s.unicode_len();
    let mut r: Vec<char> = Vec::new();
    let mut i: usize = 0;
    while i < n
        invariant
            n == s@.len(),
            i <= n,
            r@ == s@.subrange(0, i as int),
        decreases n - i,
    {
        let c = s.get_char(i);
        r.push(c);
        proof {
            assert(r@ =~= s@.subrange(0, i + 1));
        }
        i += 1;
    }
    proof {
        assert(r@ =~= s@);
    }
    r
}

/// An occurrence of a single character is that character.
pub proof fn lemma_contains_at_singleton(s: Seq<char>, c: char, i: int)
    ensures
        contains_at(s, seq![c], i) <==> (0 <= i < s.len() && s[i] == c),
{
    if 0 <= i < s.len() {
        assert(s.subrange(i, i + 1) =~= seq![s[i]]);
        if s[i] == c {
            assert(contains_at(s, seq![c], i));
        } else if contains_at(s, seq![c], i) {
            assert(s.subrange(i, i + 1)[0] == seq![c][0]);
        }
    }
}

/// Position of the first occurrence of the character `c` in `s`, if any.
pub fn find_char(s: &[char], c: char) -> (r: Option<usize>)
    ensures
        match r {
            Some(i) => spec_find(s@, seq![c]) == Some(i as int),
            None => spec_find(s@, seq![c]) is None,
        },
{
    let n = s.len();
    let mut i: usize = 0;
    while i < n
        invariant
            n == s@.len(),
            i <= n,
            forall|j: int| 0 <= j < i ==> s@[j] != c,
        decreases n - i,
    {
        if s[i] == c {
            proof {
                lemma_contains_at_singleton(s@, c, i as int);
                assert forall|j: int| 0 <= j < i implies !contains_at(s@, seq![c], j) by {
                    lemma_contains_at_singleton(s@, c, j);
                }
                lemma_find_unique(s@, seq![c], i as int);
            }
            return Some(i);
        }
        i += 1;
    }
    proof {
        lemma_find_first(s@, seq![c]);
        if spec_find(s@, seq![c]) is Some {
            let k = spec_find(s@, seq![c])->Some_0;
            lemma_contains_at_singleton(s@, c, k);
        }
    }
    None
}

/// The pieces of `s` between occurrences of the separator `c`; there is
/// always at least one piece, and an empty input gives one empty piece.
pub open spec fn spec_split(s: Seq<char>, c: char) -> Seq<Seq<char>>
    decreases s.len(),
{
    match spec_find(s, seq![c]) {
        // A found index always lies inside `s`; the guard keeps the
        // recursion well-founded.
        Some(i) => if 0 <= i < s.len() {
            seq![s.subrange(0, i)] + spec_split(s.subrange(i + 1, s.len() as int), c)
        } else {
            seq![s]
        },
        None => seq![s],
    }
}

/// Splitting never yields an empty piece list.
pub proof fn lemma_split_nonempty(s: Seq<char>, c: char)
    ensures
        spec_split(s, c).len() >= 1,
{
}

/// The pieces of `s` between occurrences of `c`, as vectors.
pub fn split_chars(s: &[char], c: char) -> (r: Vec<Vec<char>>)
    ensures
        r@.len() == spec_split(s@, c).len(),
        forall|k: int| 0 <= k < r@.len() ==> r@[k]@ == spec_split(s@, c)[k],
    decreases s@.len(),
{
    match find_char(s, c) {
        Some(i) => {
            proof {
                lemma_find_first(s@, seq![c]);
                assert(contains_at(s@, seq![c], i as int));
                assert(i + 1 <= s@.len());
            }
            let n = s.len();
            let head = vstd::slice::slice_to_vec(vstd::slice::slice_subrange(s, 0, i));
            let tail = vstd::slice::slice_subrange(s, i + 1, n);
            let mut rest = split_chars(tail, c);
            let mut r: Vec<Vec<char>> = Vec::new();
            r.push(head);
            r.append(&mut rest);
            r
        },
        None => {
            let mut r: Vec<Vec<char>> = Vec::new();
            r.push(vstd::slice::slice_to_vec(s));
            r
        },
    }
}

/// The lines of `s`: pieces between `'\n'`, a trailing line break adding no
/// final empty line.
pub open spec fn spec_lines(s: Seq<char>) -> Seq<Seq<char>> {
    let parts = spec_split(s, '\n');
    if parts.len() > 0 && parts.last().len() == 0 {
        parts.drop_last()
    } else {
        parts
    }
}

/// The lines of `s`, as vectors.
pub fn lines_chars(s: &[char]) -> (r: Vec<Vec<char>>)
    ensures
        r@.len() == spec_lines(s@).len(),
        forall|k: int| 0 <= k < r@.len() ==> r@[k]@ == spec_lines(s@)[k],
{
    let mut parts = split_chars(s, '\n');
    proof {
        lemma_split_nonempty(s@, '\n');
    }
    if parts[parts.len() - 1].len() == 0 {
        parts.pop();
    }
    parts
}

/// `s` without leading white space.
pub open spec fn trim_front(s: Seq<char>) -> Seq<char>
    decreases s.len(),
{
    if s.len() > 0 && is_space_char(s[0]) {
        trim_front(s.subrange(1, s.len() as int))
    } else {
        s
    }
}

/// `s` without trailing white space.
pub open spec fn trim_back(s: Seq<char>) -> Seq<char>
    decreases s.len(),
{
    if s.len() > 0 && is_space_char(s.last()) {
        trim_back(s.drop_last())
    } else {
        s
    }
}

/// `s` without leading and trailing white space.
pub open spec fn spec_trim(s: Seq<char>) -> Seq<char> {
    trim_back(trim_front(s))
}

/// `s` without leading and trailing white space, as a vector.
pub fn trim_chars(s: &[char]) -> (r: Vec<char>)
    ensures
        r@ == spec_trim(s@),
{
    let n = s.len();
    proof {
        assert(s@.subrange(0, n as int) =~= s@);
    }
    let mut lo: usize = 0;
    while lo < n && is_space(s[lo])
        invariant
            n == s@.len(),
            lo <= n,
            trim_front(s@) == trim_front(s@.subrange(lo as int, n as int)),
        decreases n - lo,
    {
        proof {
            assert(s@.subrange(lo as int, n as int).subrange(1, (n - lo) as int) =~= s@.subrange(
                lo + 1,
                n as int,
            ));
        }
        lo += 1;
    }
    proof {
        assert(trim_front(s@) =~= s@.subrange(lo as int, n as int));
    }
    let mut hi: usize = n;
    while hi > lo && is_space(s[hi - 1])
        invariant
            n == s@.len(),
            lo <= hi <= n,
            trim_back(s@.subrange(lo as int, n as int)) == trim_back(
                s@.subrange(lo as int, hi as int),
            ),
        decreases hi,
    {
        proof {
            assert(s@.subrange(lo as int, hi as int).drop_last() =~= s@.subrange(
                lo as int,
                hi - 1,
            ));
        }
        hi -= 1;
    }
    proof {
        assert(trim_back(s@.subrange(lo as int, hi as int)) =~= s@.subrange(
            lo as int,
            hi as int,
        ));
    }
    vstd::slice::slice_to_vec(vstd::slice::slice_subrange(s, lo, hi))
}

/// Length of the white-space-free token at the front of `s`.
pub open spec fn token_len(s: Seq<char>) -> int
    decreases s.len(),
{
    if s.len() == 0 || is_space_char(s[0]) {
        0
    } else {
        1 + token_len(s.subrange(1, s.len() as int))
    }
}

/// The token length is within `s`, and positive where a token starts.
pub proof fn lemma_token_len(s: Seq<char>)
    ensures
        0 <= token_len(s) <= s.len(),
        s.len() > 0 && !is_space_char(s[0]) ==> token_len(s) >= 1,
    decreases s.len(),
{
    if s.len() > 0 && !is_space_char(s[0]) {
        lemma_token_len(s.subrange(1, s.len() as int));
    }
}

/// The white-space-separated tokens of `s`, in order, none empty.
pub open spec fn spec_ws_tokens(s: Seq<char>) -> Seq<Seq<char>>
    decreases s.len(),
    via spec_ws_tokens_dec
{
    if s.len() == 0 {
        Seq::empty()
    } else if is_space_char(s[0]) {
        spec_ws_tokens(s.subrange(1, s.len() as int))
    } else {
        seq![s.subrange(0, token_len(s))] + spec_ws_tokens(
            s.subrange(token_len(s), s.len() as int),
        )
    }
}

#[via_fn]
proof fn spec_ws_tokens_dec(s: Seq<char>) {
    lemma_token_len(s);
}

/// The white-space-separated tokens of `s`, as vectors.
pub fn ws_tokens(s: &[char]) -> (r: Vec<Vec<char>>)
    ensures
        r@.len() == spec_ws_tokens(s@).len(),
        forall|k: int| 0 <= k < r@.len() ==> r@[k]@ == spec_ws_tokens(s@)[k],
    decreases s@.len(),
{
    let n = s.len();
    if n == 0 {
        Vec::new()
    } else if is_space(s[0]) {
        let r = ws_tokens(vstd::slice::slice_subrange(s, 1, n));
        r
    } else {
        let mut k: usize = 1;
        while k < n && !is_space(s[k])
            invariant
                n == s@.len(),
                n > 0,
                !is_space_char(s@[0]),
                1 <= k <= n,
                token_len(s@) == k + token_len(s@.subrange(k as int, n as int)),
            decreases n - k,
        {
            proof {
                lemma_token_len_step(s@, k as int);
            }
            k += 1;
        }
        proof {
            if k < n {
                assert(token_len(s@.subrange(k as int, n as int)) == 0);
            }
            assert(token_len(s@) == k);
        }
        let head = vstd::slice::slice_to_vec(vstd::slice::slice_subrange(s, 0, k));
        let tail = vstd::slice::slice_subrange(s, k, n);
        let mut rest = ws_tokens(tail);
        let mut r: Vec<Vec<char>> = Vec::new();
        r.push(head);
        r.append(&mut rest);
        r
    }
}

/// Unfolding [`token_len`] from position `k` inside the token.
proof fn lemma_token_len_step(s: Seq<char>, k: int)
    requires
        0 <= k < s.len(),
        !is_space_char(s[k]),
    ensures
        token_len(s.subrange(k, s.len() as int)) == 1 + token_len(
            s.subrange(k + 1, s.len() as int),
        ),
{
    let sub = s.subrange(k, s.len() as int);
    assert(sub.subrange(1, sub.len() as int) =~= s.subrange(k + 1, s.len() as int));
}

/// `s` left-padded with `'0'` up to `w` characters; longer inputs unchanged.
pub open spec fn spec_zero_pad(s: Seq<char>, w: int) -> Seq<char> {
    if s.len() >= w {
        s
    } else {
        Seq::new((w - s.len()) as nat, |i: int| '0') + s
    }
}

/// `s` left-padded with `'0'` up to `w` characters.
pub fn zero_pad(s: &[char], w: usize) -> (r: Vec<char>)
    ensures
        r@ == spec_zero_pad(s@, w as int),
{
    let n = s.len();
    let mut r: Vec<char> = Vec::new();
    let mut k: usize = n;
    while k < w
        invariant
            n == s@.len(),
            n <= k,
            k <= w || k == n,
            r@ =~= Seq::new((k - n) as nat, |i: int| '0'),
        decreases w - k,
    {
        r.push('0');
        k += 1;
    }
    push_all(&mut r, s);
    proof {
        if n < w {
            assert(r@ =~= spec_zero_pad(s@, w as int));
        } else {
            assert(r@ =~= s@);
        }
    }
    r
}

/// Appends every character of `s` to `r`, in order.
pub fn push_all(r: &mut Vec<char>, s: &[char])
    ensures
        final(r)@ == old(r)@ + s@,
{
    let n = s.len();
    proof {
        assert(r@ =~= r@ + s@.subrange(0, 0));
    }
    let mut j: usize = 0;
    while j < n
        invariant
            n == s@.len(),
            j <= n,
            r@ == old(r)@ + s@.subrange(0, j as int),
        decreases n - j,
    {
        r.push(s[j]);
        proof {
            assert(old(r)@ + s@.subrange(0, j + 1) =~= (old(r)@ + s@.subrange(0, j as int)).push(
                s@[j as int],
            ));
        }
        j += 1;
    }
    proof {
        assert(old(r)@ + s@.subrange(0, n as int) =~= old(r)@ + s@);
    }
}

/// `s` without leading and trailing white space, as a `String`.
pub fn trim_string(s: &str) -> (r: String)
    ensures
        r@ == spec_trim(s@),
{
    let cs = str_chars(s);
    let t = trim_chars(cs.as_slice());
    chars_to_string(t.as_slice())
}

/// The character for the decimal digit `d`.
pub open spec fn digit_char(d: int) -> char {
    if d == 0 {
        '0'
    } else if d == 1 {
        '1'
    } else if d == 2 {
        '2'
    } else if d == 3 {
        '3'
    } else if d == 4 {
        '4'
    } else if d == 5 {
        '5'
    } else if d == 6 {
        '6'
    } else if d == 7 {
        '7'
    } else if d == 8 {
        '8'
    } else {
        '9'
    }
}

/// The decimal digits of `n`, most significant first, no leading zero.
pub open spec fn spec_dec(n: int) -> Seq<char>
    recommends
        n >= 0,
    decreases n,
{
    if n < 10 {
        seq![digit_char(n)]
    } else {
        spec_dec(n / 10).push(digit_char(n % 10))
    }
}

/// The character for a decimal digit.
fn digit_of(d: u64) -> (r: char)
    requires
        d < 10,
    ensures
        r == digit_char(d as int),
{
    match d {
        0 => '0',
        1 => '1',
        2 => '2',
        3 => '3',
        4 => '4',
        5 => '5',
        6 => '6',
        7 => '7',
        8 => '8',
        _ => '9',
    }
}

/// The decimal digits of `n`, as a vector of characters.
pub fn dec_chars(n: u64) -> (r: Vec<char>)
    ensures
        r@ == spec_dec(n as int),
    decreases n,
{
    if n < 10 {
        let mut r: Vec<char> = Vec::new();
        r.push(digit_of(n));
        proof {
            assert(r@ =~= spec_dec(n as int));
        }
        r
    } else {
        let mut r = dec_chars(n / 10);
        r.push(digit_of(n % 10));
        r
    }
}

/// Relies on `String::push`: appends the given character to the end of the
/// string.
#[verifier::external_body]
fn push_char(s: &mut String, c: char)
    ensures
        final(s)@ == old(s)@.push(c),
{
    s.push(c);
}

/// A `String` holding exactly the characters of `v`.
pub fn chars_to_string(v: &[char]) -> (r: String)
    ensures
        r@ == v@,
{
    let n = v.len();
    let mut r = String::new();
    let mut i: usize = 0;
    while i < n
        invariant
            n == v@.len(),
            i <= n,
            r@ == v@.subrange(0, i as int),
        decreases n - i,
    {
        push_char(&mut r, v[i]);
        proof {
            assert(r@ =~= v@.subrange(0, i + 1));
        }
        i += 1;
    }
    proof {
        assert(r@ =~= v@);
    }
    r
}

} // verus!
