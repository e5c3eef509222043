//! Character-level text utilities with a mathematical model over `Seq<char>`.

use vstd::prelude::*;

verus! {

/// The characters with the Unicode `White_Space` property (what `char::is_whitespace` tests).
pub open spec fn is_white_space(c: char) -> bool {
    let u = c as u32;
    ||| 0x09 <= u <= 0x0d
    ||| u == 0x20
    ||| u == 0x85
    ||| u == 0xa0
    ||| u == 0x1680
    ||| 0x2000 <= u <= 0x200a
    ||| u == 0x2028
    ||| u == 0x2029
    ||| u == 0x202f
    ||| u == 0x205f
    ||| u == 0x3000
}

/// A set of characters that a trimming operation removes.
pub enum CharClass {
    /// Every character with the `White_Space` property.
    WhiteSpace,
    /// One given character.
    Only(char),
}

/// Whether `c` belongs to the class `k`.
pub open spec fn in_class(k: CharClass, c: char) -> bool {
    match k {
        CharClass::WhiteSpace => is_white_space(c),
        CharClass::Only(d) => c == d,
    }
}

/// `s` without its leading characters of class `k`.
pub open spec fn strip_start(s: Seq<char>, k: CharClass) -> Seq<char>
    decreases s.len(),
{
    if s.len() > 0 && in_class(k, s[0]) {
        strip_start(s.drop_first(), k)
    } else {
        s
    }
}

/// `s` without its trailing characters of class `k`.
pub open spec fn strip_end(s: Seq<char>, k: CharClass) -> Seq<char>
    decreases s.len(),
{
    if s.len() > 0 && in_class(k, s.last()) {
        strip_end(s.drop_last(), k)
    } else {
        s
    }
}

/// `s` without leading and trailing characters of class `k`
/// (what `str::trim_matches` returns for a single character).
pub open spec fn strip(s: Seq<char>, k: CharClass) -> Seq<char> {
    strip_end(strip_start(s, k), k)
}

/// `s` without leading and trailing white space (what `str::trim` returns).
pub open spec fn trim(s: Seq<char>) -> Seq<char> {
    strip(s, CharClass::WhiteSpace)
}

/// Whether `s` begins with `p`.
pub open spec fn has_prefix(s: Seq<char>, p: Seq<char>) -> bool {
    p.len() <= s.len() && s.subrange(0, p.len() as int) == p
}

/// Whether `s` ends with `p`.
pub open spec fn has_suffix(s: Seq<char>, p: Seq<char>) -> bool {
    p.len() <= s.len() && s.subrange(s.len() - p.len(), s.len() as int) == p
}

/// Whether `p` occurs in `s` starting at index `i`.
pub open spec fn occurs_at(s: Seq<char>, p: Seq<char>, i: int) -> bool {
    0 <= i && i + p.len() <= s.len() && s.subrange(i, i + p.len()) == p
}

/// The first index at or after `i` where `p` occurs in `s`.
pub open spec fn find_from(s: Seq<char>, p: Seq<char>, i: int) -> Option<int>
    decreases s.len() + 1 - i,
{
    if i < 0 || i + p.len() > s.len() {
        None
    } else if s.subrange(i, i + p.len()) == p {
        Some(i)
    } else {
        find_from(s, p, i + 1)
    }
}

/// The first index where `p` occurs in `s` (what `str::find` locates).
pub open spec fn find(s: Seq<char>, p: Seq<char>) -> Option<int> {
    find_from(s, p, 0)
}

/// `s` with every non-overlapping occurrence of `p`, scanned from the left,
/// replaced by `r` (what `str::replace` returns for a non-empty pattern).
pub open spec fn replace_all(s: Seq<char>, p: Seq<char>, r: Seq<char>) -> Seq<char>
    decreases s.len(),
{
    if s.len() == 0 || p.len() == 0 {
        s
    } else if has_prefix(s, p) {
        r + replace_all(s.skip(p.len() as int), p, r)
    } else {
        seq![s[0]] + replace_all(s.drop_first(), p, r)
    }
}

/// `s` with every leading copy of `p` removed (what `str::trim_start_matches` returns).
pub open spec fn strip_prefix_all(s: Seq<char>, p: Seq<char>) -> Seq<char>
    decreases s.len(),
{
    if p.len() > 0 && has_prefix(s, p) {
        strip_prefix_all(s.skip(p.len() as int), p)
    } else {
        s
    }
}

/// The index of the first `c` in `s`, or the length of `s` when there is none.
pub open spec fn index_of_char(s: Seq<char>, c: char) -> nat
    decreases s.len(),
{
    if s.len() == 0 {
        0
    } else if s[0] == c {
        0
    } else {
        1 + index_of_char(s.drop_first(), c)
    }
}

/// `l` without one final carriage return.
pub open spec fn strip_cr(l: Seq<char>) -> Seq<char> {
    if l.len() > 0 && l.last() == '\r' {
        l.drop_last()
    } else {
        l
    }
}

/// The lines of `s` as `str::lines` yields them: split at each `\n`, a `\r`
/// right before that `\n` dropped, and no empty line after a final `\n`.
pub open spec fn lines_of(s: Seq<char>) -> Seq<Seq<char>>
    decreases s.len(),
{
    if s.len() == 0 {
        seq![]
    } else {
        let k = index_of_char(s, '\n');
        if k >= s.len() {
            seq![s]
        } else {
            seq![strip_cr(s.subrange(0, k as int))] + lines_of(s.skip(k + 1 as int))
        }
    }
}

/// The views of a sequence of character vectors.
pub open spec fn views(v: Seq<Vec<char>>) -> Seq<Seq<char>> {
    v.map_values(|l: Vec<char>| l@)
}

/// The views of a sequence of strings.
pub open spec fn string_views(v: Seq<String>) -> Seq<Seq<char>> {
    v.map_values(|l: String| l@)
}

/// What is left after stripping a class from the front does not start with it.
pub proof fn lemma_strip_start_head(s: Seq<char>, k: CharClass)
    ensures
        strip_start(s, k).len() > 0 ==> !in_class(k, strip_start(s, k)[0]),
    decreases s.len(),
{
    if s.len() > 0 && in_class(k, s[0]) {
        lemma_strip_start_head(s.drop_first(), k);
    }
}

/// Stripping a class from the back leaves a prefix that does not end with it.
pub proof fn lemma_strip_end_prefix(s: Seq<char>, k: CharClass)
    ensures
        strip_end(s, k).len() <= s.len(),
        strip_end(s, k) == s.take(strip_end(s, k).len() as int),
        strip_end(s, k).len() > 0 ==> !in_class(k, strip_end(s, k).last()),
    decreases s.len(),
{
    if s.len() > 0 && in_class(k, s.last()) {
        lemma_strip_end_prefix(s.drop_last(), k);
        let n = strip_end(s, k).len() as int;
        assert(s.drop_last().take(n) =~= s.take(n));
    } else {
        assert(s.take(s.len() as int) =~= s);
    }
}

/// A stripped text neither starts nor ends with the class, so stripping it
/// again changes nothing.
pub proof fn lemma_strip_idempotent(s: Seq<char>, k: CharClass)
    ensures
        strip(strip(s, k), k) == strip(s, k),
        strip(s, k).len() > 0 ==> !in_class(k, strip(s, k)[0]) && !in_class(k, strip(s, k).last()),
{
    let u = strip_start(s, k);
    let t = strip_end(u, k);
    lemma_strip_start_head(s, k);
    lemma_strip_end_prefix(u, k);
    if t.len() > 0 {
        assert(t[0] == u[0]);
        assert(strip_start(t, k) == t);
        assert(strip_end(t, k) == t);
    } else {
        assert(strip_start(t, k) == t);
        assert(strip_end(t, k) == t);
    }
}

/// Trimming a trimmed text changes nothing.
pub proof fn lemma_trim_idempotent(s: Seq<char>)
    ensures
        trim(trim(s)) == trim(s),
{
    lemma_strip_idempotent(s, CharClass::WhiteSpace);
}

/// Whether `p` occurs nowhere in `s`.
pub open spec fn absent(s: Seq<char>, p: Seq<char>) -> bool {
    forall|j: int| !#[trigger] occurs_at(s, p, j)
}

/// A piece of a text in which `p` does not occur does not hold it either.
pub proof fn lemma_absent_subrange(s: Seq<char>, p: Seq<char>, a: int, b: int)
    requires
        absent(s, p),
        0 <= a <= b <= s.len(),
    ensures
        absent(s.subrange(a, b), p),
{
    let sub = s.subrange(a, b);
    assert forall|j: int| !#[trigger] occurs_at(sub, p, j) by {
        if occurs_at(sub, p, j) {
            assert(sub.subrange(j, j + p.len()) =~= s.subrange(a + j, a + j + p.len()));
            assert(occurs_at(s, p, a + j));
        }
    }
}

/// What a search from `k` finds: a first occurrence at or after `k`, or none at all.
pub proof fn lemma_find_from(s: Seq<char>, p: Seq<char>, k: int)
    requires
        0 <= k,
    ensures
        find_from(s, p, k) matches Some(i) ==> k <= i && occurs_at(s, p, i) && forall|j: int|
            k <= j < i ==> !#[trigger] occurs_at(s, p, j),
        find_from(s, p, k) is None ==> forall|j: int| k <= j ==> !#[trigger] occurs_at(s, p, j),
    decreases s.len() + 1 - k,
{
    if k + p.len() <= s.len() && s.subrange(k, k + p.len()) != p {
        lemma_find_from(s, p, k + 1);
    }
}

/// A search in a text where `p` does not occur finds nothing.
pub proof fn lemma_absent_find(s: Seq<char>, p: Seq<char>, k: int)
    requires
        absent(s, p),
    ensures
        find_from(s, p, k) is None,
    decreases s.len() + 1 - k,
{
    if k >= 0 && k + p.len() <= s.len() {
        assert(!occurs_at(s, p, k));
        lemma_absent_find(s, p, k + 1);
    }
}

/// What stripping a class from the front leaves is a suffix.
pub proof fn lemma_strip_start_suffix(s: Seq<char>, k: CharClass)
    ensures
        strip_start(s, k).len() <= s.len(),
        strip_start(s, k) == s.skip(s.len() - strip_start(s, k).len()),
    decreases s.len(),
{
    if s.len() > 0 && in_class(k, s[0]) {
        lemma_strip_start_suffix(s.drop_first(), k);
        let n = strip_start(s, k).len() as int;
        assert(s.drop_first().skip(s.len() - 1 - n) =~= s.skip(s.len() - n));
    } else {
        assert(s.skip(0) =~= s);
    }
}

/// Trimming a text in which `p` does not occur leaves a text without it.
pub proof fn lemma_trim_absent(s: Seq<char>, p: Seq<char>)
    requires
        absent(s, p),
    ensures
        absent(trim(s), p),
{
    let u = strip_start(s, CharClass::WhiteSpace);
    lemma_strip_start_suffix(s, CharClass::WhiteSpace);
    lemma_strip_end_prefix(u, CharClass::WhiteSpace);
    let a = s.len() - u.len();
    let m = trim(s).len() as int;
    assert(trim(s) =~= s.subrange(a, a + m));
    lemma_absent_subrange(s, p, a, a + m);
}

/// What `index_of_char` finds: no `c` before it, and `c` at it unless it is the end.
pub proof fn lemma_index_of_char_props(s: Seq<char>, c: char)
    ensures
        index_of_char(s, c) <= s.len(),
        forall|j: int| 0 <= j < index_of_char(s, c) ==> s[j] != c,
        index_of_char(s, c) < s.len() ==> s[index_of_char(s, c) as int] == c,
    decreases s.len(),
{
    if s.len() > 0 && s[0] != c {
        lemma_index_of_char_props(s.drop_first(), c);
        assert forall|j: int| 0 <= j < index_of_char(s, c) implies s[j] != c by {
            if j > 0 {
                assert(s[j] == s.drop_first()[j - 1]);
            }
        }
    }
}

/// A text without the character `c` has no occurrence of it as a one-character text.
pub proof fn lemma_no_char_absent(s: Seq<char>, c: char)
    requires
        forall|j: int| 0 <= j < s.len() ==> s[j] != c,
    ensures
        absent(s, seq![c]),
{
    assert forall|j: int| !#[trigger] occurs_at(s, seq![c], j) by {
        if occurs_at(s, seq![c], j) {
            assert(s.subrange(j, j + 1)[0] == s[j]);
        }
    }
}

/// Every line of a text in which `p` does not occur is without `p`, and
/// every line is without a line feed.
pub proof fn lemma_lines_absent(t: Seq<char>, p: Seq<char>)
    ensures
        absent(t, p) ==> forall|i: int| 0 <= i < lines_of(t).len() ==> absent(#[trigger] lines_of(t)[i], p),
        forall|i: int| 0 <= i < lines_of(t).len() ==> absent(#[trigger] lines_of(t)[i], seq!['\n']),
    decreases t.len(),
{
    if t.len() > 0 {
        let k = index_of_char(t, '\n');
        lemma_index_of_char_props(t, '\n');
        if k >= t.len() {
            lemma_no_char_absent(t, '\n');
        } else {
            let first = t.subrange(0, k as int);
            let rest = t.skip(k + 1 as int);
            lemma_lines_absent(rest, p);
            lemma_no_char_absent(first, '\n');
            let line = strip_cr(first);
            let n = line.len() as int;
            assert(line =~= first.subrange(0, n));
            lemma_absent_subrange(first, seq!['\n'], 0, n);
            if absent(t, p) {
                lemma_absent_subrange(t, p, 0, k as int);
                lemma_absent_subrange(first, p, 0, n);
                assert(rest =~= t.subrange(k + 1 as int, t.len() as int));
                lemma_absent_subrange(t, p, k + 1 as int, t.len() as int);
            }
            let ls = lines_of(t);
            assert(ls =~= seq![line] + lines_of(rest));
            assert forall|i: int| 0 <= i < ls.len() implies absent(#[trigger] ls[i], seq!['\n']) by {
                if i > 0 {
                    assert(ls[i] == lines_of(rest)[i - 1]);
                }
            }
            if absent(t, p) {
                assert forall|i: int| 0 <= i < ls.len() implies absent(#[trigger] ls[i], p) by {
                    if i > 0 {
                        assert(ls[i] == lines_of(rest)[i - 1]);
                    }
                }
            }
        }
    }
}

/// A non-empty text without line feeds is one line.
pub proof fn lemma_single_line(l: Seq<char>)
    requires
        l.len() > 0,
        absent(l, seq!['\n']),
    ensures
        lines_of(l) == seq![l],
{
    assert forall|j: int| 0 <= j < l.len() implies l[j] != '\n' by {
        if l[j] == '\n' {
            assert(l.subrange(j, j + 1) =~= seq!['\n']);
            assert(occurs_at(l, seq!['\n'], j));
        }
    }
    lemma_index_of_char(l, '\n', l.len() as int);
}

/// Tests a character for the Unicode `White_Space` property.
pub fn is_white_space_char(c: char) -> (r: bool)
    ensures
        r == is_white_space(c),
{
    let u = c as u32;
    (0x09 <= u && u <= 0x0d) || u == 0x20 || u == 0x85 || u == 0xa0 || u == 0x1680 || (0x2000
        <= u && u <= 0x200a) || u == 0x2028 || u == 0x2029 || u == 0x202f || u == 0x205f || u
        == 0x3000
}

/// The characters of `s`, in order.
pub fn chars_of(s: &str) -> (r: Vec<char>)
    ensures
        r@ == s@,
{
    let mut r: Vec<char> = Vec::new();
    for c in it: s.chars()
        invariant
            r@ == it.seq().take(it.index() as int),
            it.seq() == s@,
    {
        r.push(c);
    }
    r
}

/// Tests a character for membership in a class.
pub fn char_in_class(k: &CharClass, c: char) -> (r: bool)
    ensures
        r == in_class(*k, c),
{
    match k {
        CharClass::WhiteSpace => is_white_space_char(c),
        CharClass::Only(d) => c == *d,
    }
}

/// The characters of `v` from `start` up to `end`.
pub fn slice_chars(v: &Vec<char>, start: usize, end: usize) -> (r: Vec<char>)
    requires
        start <= end <= v.len(),
    ensures
        r@ == v@.subrange(start as int, end as int),
{
    let mut r: Vec<char> = Vec::new();
    let mut i = start;
    while i < end
        invariant
            start <= i <= end <= v.len(),
            r@ == v@.subrange(start as int, i as int),
        decreases end - i,
    {
        r.push(v[i]);
        assert(r@ =~= v@.subrange(start as int, i + 1));
        i += 1;
    }
    r
}

/// Appends the characters of `src` to `dst`.
pub fn extend_chars(dst: &mut Vec<char>, src: &Vec<char>)
    ensures
        final(dst)@ == old(dst)@ + src@,
{
    let mut i: usize = 0;
    while i < src.len()
        invariant
            i <= src.len(),
            dst@ == old(dst)@ + src@.subrange(0, i as int),
        decreases src.len() - i,
    {
        dst.push(src[i]);
        assert(dst@ =~= old(dst)@ + src@.subrange(0, i + 1));
        i += 1;
    }
    assert(src@.subrange(0, src.len() as int) =~= src@);
}

/// The bounds `(i, j)` of what remains of `s` once the characters of class `k`
/// are stripped from both ends.
pub fn strip_bounds(s: &Vec<char>, k: &CharClass) -> (r: (usize, usize))
    ensures
        r.0 <= r.1 <= s.len(),
        s@.subrange(r.0 as int, r.1 as int) == strip(s@, *k),
{
    let len = s.len();
    let mut i: usize = 0;
    assert(s@.subrange(0, len as int) =~= s@);
    while i < len && char_in_class(k, s[i])
        invariant
            i <= len == s.len(),
            strip_start(s@, *k) == strip_start(s@.subrange(i as int, len as int), *k),
        decreases len - i,
    {
        assert(s@.subrange(i as int, len as int).drop_first() =~= s@.subrange(i + 1, len as int));
        i += 1;
    }
    let mut j: usize = len;
    while j > i && char_in_class(k, s[j - 1])
        invariant
            i <= j <= len == s.len(),
            strip_start(s@, *k) == s@.subrange(i as int, len as int),
            strip(s@, *k) == strip_end(s@.subrange(i as int, j as int), *k),
        decreases j - i,
    {
        assert(s@.subrange(i as int, j as int).drop_last() =~= s@.subrange(i as int, j - 1));
        j -= 1;
    }
    (i, j)
}

/// `s` with its leading characters of class `k` removed.
pub fn strip_start_chars(s: &Vec<char>, k: &CharClass) -> (r: Vec<char>)
    ensures
        r@ == strip_start(s@, *k),
{
    let len = s.len();
    let mut i: usize = 0;
    assert(s@.subrange(0, len as int) =~= s@);
    while i < len && char_in_class(k, s[i])
        invariant
            i <= len == s.len(),
            strip_start(s@, *k) == strip_start(s@.subrange(i as int, len as int), *k),
        decreases len - i,
    {
        assert(s@.subrange(i as int, len as int).drop_first() =~= s@.subrange(i + 1, len as int));
        i += 1;
    }
    slice_chars(s, i, len)
}

/// `s` with the characters of class `k` stripped from both ends.
pub fn strip_chars(s: &Vec<char>, k: &CharClass) -> (r: Vec<char>)
    ensures
        r@ == strip(s@, *k),
{
    let (i, j) = strip_bounds(s, k);
    slice_chars(s, i, j)
}

/// `s` without leading and trailing white space.
pub fn trim_chars(s: &Vec<char>) -> (r: Vec<char>)
    ensures
        r@ == trim(s@),
{
    strip_chars(s, &CharClass::WhiteSpace)
}

/// Whether `s` trims to nothing.
pub fn is_blank(s: &Vec<char>) -> (r: bool)
    ensures
        r == (trim(s@).len() == 0),
{
    let (i, j) = strip_bounds(s, &CharClass::WhiteSpace);
    i == j
}

/// Whether `p` occurs in `s` at index `at`.
pub fn occurs_at_index(s: &Vec<char>, p: &Vec<char>, at: usize) -> (r: bool)
    ensures
        r == occurs_at(s@, p@, at as int),
{
    if at > s.len() || p.len() > s.len() - at {
        return false;
    }
    let mut i: usize = 0;
    while i < p.len()
        invariant
            at + p.len() <= s.len(),
            i <= p.len(),
            forall|j: int| 0 <= j < i ==> s@[at + j] == p@[j],
        decreases p.len() - i,
    {
        if s[at + i] != p[i] {
            assert(s@.subrange(at as int, at + p.len())[i as int] != p@[i as int]);
            return false;
        }
        i += 1;
    }
    assert(s@.subrange(at as int, at + p.len()) =~= p@);
    true
}

/// Whether `s` begins with `p`.
pub fn starts_with(s: &Vec<char>, p: &Vec<char>) -> (r: bool)
    ensures
        r == has_prefix(s@, p@),
{
    occurs_at_index(s, p, 0)
}

/// Whether `s` ends with `p`.
pub fn ends_with(s: &Vec<char>, p: &Vec<char>) -> (r: bool)
    ensures
        r == has_suffix(s@, p@),
{
    if p.len() > s.len() {
        return false;
    }
    occurs_at_index(s, p, s.len() - p.len())
}

/// The first index where `p` occurs in `s`.
pub fn find_chars(s: &Vec<char>, p: &Vec<char>) -> (r: Option<usize>)
    ensures
        match r {
            Some(i) => find(s@, p@) == Some(i as int) && i + p.len() <= s.len(),
            None => find(s@, p@) is None,
        },
{
    if p.len() > s.len() {
        return None;
    }
    let last = s.len() - p.len();
    let mut i: usize = 0;
    loop
        invariant
            last == s.len() - p.len(),
            i <= last,
            find(s@, p@) == find_from(s@, p@, i as int),
        decreases last - i,
    {
        if occurs_at_index(s, p, i) {
            return Some(i);
        }
        if i == last {
            assert(find_from(s@, p@, i + 1) is None);
            return None;
        }
        i += 1;
    }
}

/// Whether two character vectors hold the same characters.
pub fn same_chars(a: &Vec<char>, b: &Vec<char>) -> (r: bool)
    ensures
        r == (a@ == b@),
{
    if a.len() != b.len() {
        return false;
    }
    let mut i: usize = 0;
    while i < a.len()
        invariant
            a.len() == b.len(),
            i <= a.len(),
            forall|j: int| 0 <= j < i ==> a@[j] == b@[j],
        decreases a.len() - i,
    {
        if a[i] != b[i] {
            return false;
        }
        i += 1;
    }
    assert(a@ =~= b@);
    true
}

/// `s` with every non-overlapping occurrence of `p` replaced by `r`.
pub fn replace_chars(s: &Vec<char>, p: &Vec<char>, r: &Vec<char>) -> (out: Vec<char>)
    requires
        p.len() > 0,
    ensures
        out@ == replace_all(s@, p@, r@),
{
    let mut out: Vec<char> = Vec::new();
    let mut i: usize = 0;
    assert(s@.skip(0) =~= s@);
    while i < s.len()
        invariant
            p.len() > 0,
            i <= s.len(),
            replace_all(s@, p@, r@) == out@ + replace_all(s@.skip(i as int), p@, r@),
        decreases s.len() - i,
    {
        let ghost rest = s@.skip(i as int);
        if occurs_at_index(s, p, i) {
            assert(rest.subrange(0, p.len() as int) =~= s@.subrange(i as int, i + p.len()));
            assert(rest.skip(p.len() as int) =~= s@.skip(i + p.len()));
            extend_chars(&mut out, r);
            i += p.len();
        } else {
            proof {
                if i + p.len() <= s.len() {
                    assert(rest.subrange(0, p.len() as int) =~= s@.subrange(i as int, i + p.len()));
                }
            }
            assert(rest.drop_first() =~= s@.skip(i + 1));
            out.push(s[i]);
            i += 1;
        }
    }
    assert(s@.skip(i as int) =~= Seq::<char>::empty());
    out
}

/// `s` with every leading copy of `p` removed.
pub fn strip_prefix_repeated(s: &Vec<char>, p: &Vec<char>) -> (out: Vec<char>)
    ensures
        out@ == strip_prefix_all(s@, p@),
{
    let mut i: usize = 0;
    assert(s@.skip(0) =~= s@);
    while p.len() > 0 && occurs_at_index(s, p, i)
        invariant
            i <= s.len(),
            strip_prefix_all(s@, p@) == strip_prefix_all(s@.skip(i as int), p@),
        decreases s.len() - i,
    {
        assert(s@.skip(i as int).subrange(0, p.len() as int) =~= s@.subrange(i as int, i + p.len()));
        assert(s@.skip(i as int).skip(p.len() as int) =~= s@.skip(i + p.len()));
        i += p.len();
    }
    proof {
        if p.len() > 0 {
            if i + p.len() <= s.len() {
                assert(s@.skip(i as int).subrange(0, p.len() as int) =~= s@.subrange(i as int, i + p.len()));
            }
        }
    }
    let out = slice_chars(s, i, s.len());
    assert(out@ =~= s@.skip(i as int));
    out
}

pub proof fn lemma_index_of_char(t: Seq<char>, c: char, m: int)
    requires
        0 <= m <= t.len(),
        forall|j: int| 0 <= j < m ==> t[j] != c,
        m == t.len() || t[m] == c,
    ensures
        index_of_char(t, c) == m,
    decreases m,
{
    if m > 0 {
        lemma_index_of_char(t.drop_first(), c, m - 1);
    }
}

/// The lines of `s`, as `str::lines` yields them.
pub fn split_lines(s: &Vec<char>) -> (r: Vec<Vec<char>>)
    ensures
        views(r@) == lines_of(s@),
{
    let mut r: Vec<Vec<char>> = Vec::new();
    let mut pos: usize = 0;
    assert(s@.skip(0) =~= s@);
    while pos < s.len()
        invariant
            pos <= s.len(),
            lines_of(s@) == views(r@) + lines_of(s@.skip(pos as int)),
        decreases s.len() - pos,
    {
        let ghost rest = s@.skip(pos as int);
        let ghost p0 = pos as int;
        let mut k = pos;
        while k < s.len() && s[k] != '\n'
            invariant
                pos <= k <= s.len(),
                forall|j: int| pos <= j < k ==> s@[j] != '\n',
            decreases s.len() - k,
        {
            k += 1;
        }
        proof {
            lemma_index_of_char(rest, '\n', k - pos);
        }
        let ghost old_r = r@;
        if k == s.len() {
            let line = slice_chars(s, pos, k);
            assert(line@ =~= rest);
            r.push(line);
            pos = k;
            assert(s@.skip(pos as int) =~= Seq::<char>::empty());
        } else {
            let mut line = slice_chars(s, pos, k);
            assert(line@ =~= rest.subrange(0, k - pos));
            if line.len() > 0 && line[line.len() - 1] == '\r' {
                line.pop();
                assert(line@ =~= strip_cr(rest.subrange(0, k - pos)));
            }
            r.push(line);
            pos = k + 1;
            assert(rest.skip(k - p0 + 1) =~= s@.skip(pos as int));
        }
        assert(views(r@) =~= views(old_r).push(r@.last()@));
    }
    assert(s@.skip(pos as int) =~= Seq::<char>::empty());
    assert(views(r@) + Seq::<Seq<char>>::empty() =~= views(r@));
    r
}

/// A string holding the characters of `v`.
///
/// Trusted: collects the characters with `FromIterator<&char> for String`,
/// which by its documentation concatenates them in order.
#[verifier::external_body]
pub(crate) fn string_of(v: &Vec<char>) -> (r: String)
    ensures
        r@ == v@,
{
    v.iter().collect()
}

/// An owned copy of `s`.
pub fn owned(s: &str) -> (r: String)
    ensures
        r@ == s@,
{
    s.to_owned()
}

/// Whether `v` holds a string equal to `s`.
pub fn contains_string(v: &Vec<String>, s: &String) -> (r: bool)
    ensures
        r == string_views(v@).contains(s@),
{
    let mut i: usize = 0;
    while i < v.len()
        invariant
            i <= v.len(),
            forall|j: int| 0 <= j < i ==> v@[j]@ != s@,
        decreases v.len() - i,
    {
        if v[i] == *s {
            assert(string_views(v@)[i as int] == s@);
            return true;
        }
        i += 1;
    }
    proof {
        if string_views(v@).contains(s@) {
            let j = choose|j: int| 0 <= j < string_views(v@).len() && string_views(v@)[j] == s@;
            assert(v@[j]@ == s@);
        }
    }
    false
}

} // verus!
