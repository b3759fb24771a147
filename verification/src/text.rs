//! Character-level helpers on strings: searching, splitting and decimal
//! rendering, each specified over `Seq<char>`.
use vstd::prelude::*;

verus! {

/// `pat` occurs in `s` starting at index `i`.
pub open spec fn occurs_at(s: Seq<char>, pat: Seq<char>, i: int) -> bool {
    0 <= i && i + pat.len() <= s.len() && s.subrange(i, i + pat.len()) == pat
}

/// `s` begins with `p`.
pub open spec fn starts_with(s: Seq<char>, p: Seq<char>) -> bool {
    occurs_at(s, p, 0)
}

/// The leftmost index at or after `i` where `pat` occurs in `s`.
pub open spec fn find_from(s: Seq<char>, pat: Seq<char>, i: int) -> Option<int>
    decreases s.len() + 1 - i,
{
    if i < 0 || i + pat.len() > s.len() {
        None
    } else if occurs_at(s, pat, i) {
        Some(i)
    } else {
        find_from(s, pat, i + 1)
    }
}

/// What `find_from` reports is an occurrence, and the first one from `i`.
pub proof fn lemma_find_from(s: Seq<char>, pat: Seq<char>, i: int)
    ensures
        find_from(s, pat, i) matches Some(j) ==> i <= j && occurs_at(s, pat, j) && forall|k: int|
            i <= k < j ==> !occurs_at(s, pat, k),
        find_from(s, pat, i) is None && 0 <= i ==> forall|k: int| i <= k ==> !occurs_at(s, pat, k),
    decreases s.len() + 1 - i,
{
    if i < 0 || i + pat.len() > s.len() {
        if i >= 0 {
            assert forall|k: int| i <= k implies !occurs_at(s, pat, k) by {}
        }
    } else if !occurs_at(s, pat, i) {
        lemma_find_from(s, pat, i + 1);
    }
}

/// An occurrence at `j` with none between `i` and `j` is what `find_from`
/// reports from `i`.
pub proof fn lemma_find_from_is(s: Seq<char>, pat: Seq<char>, i: int, j: int)
    requires
        0 <= i <= j,
        occurs_at(s, pat, j),
        forall|k: int| i <= k < j ==> !occurs_at(s, pat, k),
    ensures
        find_from(s, pat, i) == Some(j),
    decreases j - i,
{
    if i < j {
        lemma_find_from_is(s, pat, i + 1, j);
    }
}

/// The leftmost index where `pat` occurs in `s`.
pub open spec fn find_first(s: Seq<char>, pat: Seq<char>) -> Option<int> {
    find_from(s, pat, 0)
}

/// The rightmost index at or before `i` where `pat` occurs in `s`.
pub open spec fn find_last_upto(s: Seq<char>, pat: Seq<char>, i: int) -> Option<int>
    decreases i + 1,
{
    if i < 0 {
        None
    } else if occurs_at(s, pat, i) {
        Some(i)
    } else {
        find_last_upto(s, pat, i - 1)
    }
}

/// What `find_last_upto` reports is an occurrence, and the last one up to `i`.
pub proof fn lemma_find_last_upto(s: Seq<char>, pat: Seq<char>, i: int)
    ensures
        find_last_upto(s, pat, i) matches Some(j) ==> j <= i && occurs_at(s, pat, j) && forall|
            k: int,
        | j < k <= i ==> !occurs_at(s, pat, k),
        find_last_upto(s, pat, i) is None ==> forall|k: int| k <= i ==> !occurs_at(s, pat, k),
    decreases i + 1,
{
    if i >= 0 && !occurs_at(s, pat, i) {
        lemma_find_last_upto(s, pat, i - 1);
    }
}

/// The rightmost index where `pat` occurs in `s`.
pub open spec fn find_last(s: Seq<char>, pat: Seq<char>) -> Option<int> {
    find_last_upto(s, pat, s.len() - pat.len())
}

/// The pieces of `s[start..]` between the non-overlapping, leftmost-first
/// occurrences of `sep`, where the search for the next occurrence resumes at `i`.
pub open spec fn split_from(s: Seq<char>, sep: Seq<char>, start: int, i: int) -> Seq<Seq<char>>
    decreases s.len() - i,
{
    if sep.len() == 0 || i < start || start < 0 || i + sep.len() > s.len() {
        seq![s.subrange(start, s.len() as int)]
    } else if occurs_at(s, sep, i) {
        seq![s.subrange(start, i)] + split_from(s, sep, i + sep.len(), i + sep.len())
    } else {
        split_from(s, sep, start, i + 1)
    }
}

/// The pieces of `s` separated by `sep` (as `str::split` yields them).
pub open spec fn split(s: Seq<char>, sep: Seq<char>) -> Seq<Seq<char>> {
    split_from(s, sep, 0, 0)
}

/// Unicode `White_Space`, the property that `char::is_whitespace` tests.
pub open spec fn is_ws(c: char) -> bool {
    ||| c == '\t' || c == '\n' || c == '\u{0B}' || c == '\u{0C}' || c == '\r' || c == ' '
    ||| c == '\u{85}' || c == '\u{A0}' || c == '\u{1680}'
    ||| ('\u{2000}' <= c && c <= '\u{200A}')
    ||| c == '\u{2028}' || c == '\u{2029}' || c == '\u{202F}' || c == '\u{205F}' || c == '\u{3000}'
}

/// Length of the run of non-whitespace characters that `s` begins with.
pub open spec fn word_len(s: Seq<char>) -> nat
    decreases s.len(),
{
    if s.len() == 0 || is_ws(s[0]) {
        0
    } else {
        1 + word_len(s.drop_first())
    }
}

/// The whitespace-separated words of `s` (as `str::split_whitespace` yields them).
pub open spec fn words(s: Seq<char>) -> Seq<Seq<char>>
    decreases s.len(),
{
    if s.len() == 0 {
        seq![]
    } else if is_ws(s[0]) {
        words(s.drop_first())
    } else {
        proof {
            lemma_word_len_bound(s);
        }
        seq![s.take(word_len(s) as int)] + words(s.skip(word_len(s) as int))
    }
}

/// A word is never longer than the text it starts.
pub proof fn lemma_word_len_bound(s: Seq<char>)
    ensures
        word_len(s) <= s.len(),
        s.len() > 0 && !is_ws(s[0]) ==> word_len(s) >= 1,
    decreases s.len(),
{
    if s.len() > 0 && !is_ws(s[0]) {
        lemma_word_len_bound(s.drop_first());
    }
}

/// A printable ASCII character other than space (`char::is_ascii_graphic`).
pub open spec fn is_ascii_graphic(c: char) -> bool {
    '!' <= c && c <= '~'
}

/// The decimal digit for `d < 10`.
pub open spec fn digit_char(d: int) -> char {
    if d == 0 { '0' }
    else if d == 1 { '1' }
    else if d == 2 { '2' }
    else if d == 3 { '3' }
    else if d == 4 { '4' }
    else if d == 5 { '5' }
    else if d == 6 { '6' }
    else if d == 7 { '7' }
    else if d == 8 { '8' }
    else { '9' }
}

/// The decimal rendering of `n`, without leading zeros.
pub open spec fn decimal(n: nat) -> Seq<char>
    decreases n,
{
    if n < 10 {
        seq![digit_char(n as int)]
    } else {
        decimal(n / 10) + seq![digit_char((n % 10) as int)]
    }
}

/// The characters of `s`, in order.
pub fn chars_of(s: &str) -> (v: Vec<char>)
    ensures
        v@ == s@,
{
    let mut v: Vec<char> = Vec::new();
    for c in it: s.chars()
        invariant
            v@ == it.seq().take(it.index() as int),
            it.seq() == s@,
    {
        v.push(c);
    }
    v
}

/// Whether `pat` occurs in `s` at index `i`.
pub fn matches_at(s: &Vec<char>, pat: &Vec<char>, i: usize) -> (r: bool)
    ensures
        r == occurs_at(s@, pat@, i as int),
{
    if i > s.len() || pat.len() > s.len() - i {
        return false;
    }
    let mut k: usize = 0;
    while k < pat.len()
        invariant
            k <= pat.len(),
            i + pat.len() <= s.len(),
            forall|j: int| 0 <= j < k ==> s@[i + j] == pat@[j],
        decreases pat.len() - k,
    {
        if s[i + k] != pat[k] {
            assert(s@.subrange(i as int, i + pat.len())[k as int] != pat@[k as int]);
            return false;
        }
        k = k + 1;
    }
    assert(s@.subrange(i as int, i + pat.len()) =~= pat@);
    true
}

/// The leftmost occurrence of `pat` in `s` at or after `from`.
pub fn find_first_from(s: &Vec<char>, pat: &Vec<char>, from: usize) -> (r: Option<usize>)
    ensures
        match r {
            Some(i) => find_from(s@, pat@, from as int) == Some(i as int),
            None => find_from(s@, pat@, from as int) is None,
        },
{
    if from > s.len() {
        return None;
    }
    let mut i = from;
    while pat.len() <= s.len() - i
        invariant
            from <= i <= s.len(),
            find_from(s@, pat@, from as int) == find_from(s@, pat@, i as int),
        decreases s.len() + 1 - i,
    {
        if matches_at(s, pat, i) {
            return Some(i);
        }
        if i == s.len() {
            assert(find_from(s@, pat@, i + 1) is None);
            return None;
        }
        i = i + 1;
    }
    None
}

/// The leftmost occurrence of `pat` in `s`.
pub fn find_first_in(s: &Vec<char>, pat: &Vec<char>) -> (r: Option<usize>)
    ensures
        match r {
            Some(i) => find_first(s@, pat@) == Some(i as int) && occurs_at(s@, pat@, i as int),
            None => find_first(s@, pat@) is None,
        },
{
    proof {
        lemma_find_from(s@, pat@, 0);
    }
    find_first_from(s, pat, 0)
}

/// The rightmost occurrence of `pat` in `s`.
pub fn find_last_in(s: &Vec<char>, pat: &Vec<char>) -> (r: Option<usize>)
    ensures
        match r {
            Some(i) => find_last(s@, pat@) == Some(i as int) && occurs_at(s@, pat@, i as int),
            None => find_last(s@, pat@) is None,
        },
{
    proof {
        lemma_find_last_upto(s@, pat@, s@.len() - pat@.len());
    }
    if pat.len() > s.len() {
        return None;
    }
    let mut i: usize = s.len() - pat.len();
    loop
        invariant
            i + pat.len() <= s.len(),
            find_last(s@, pat@) == find_last_upto(s@, pat@, i as int),
        decreases i,
    {
        if matches_at(s, pat, i) {
            return Some(i);
        }
        if i == 0 {
            assert(find_last_upto(s@, pat@, -1) is None);
            return None;
        }
        i = i - 1;
    }
}

/// The half-open index ranges of the pieces of `s` separated by `sep`.
pub fn split_ranges(s: &Vec<char>, sep: &Vec<char>) -> (r: Vec<(usize, usize)>)
    requires
        sep.len() > 0,
    ensures
        r@.len() == split(s@, sep@).len(),
        forall|k: int|
            0 <= k < r@.len() ==> r@[k].0 <= r@[k].1 <= s.len() && s@.subrange(
                r@[k].0 as int,
                r@[k].1 as int,
            ) == #[trigger] split(s@, sep@)[k],
{
    let mut r: Vec<(usize, usize)> = Vec::new();
    let mut start: usize = 0;
    let mut i: usize = 0;
    while sep.len() <= s.len() - i
        invariant
            sep.len() > 0,
            start <= i <= s.len(),
            forall|k: int| 0 <= k < r@.len() ==> (#[trigger] r@[k]).0 <= r@[k].1 <= s.len(),
            ranges_text(s@, r@) + split_from(s@, sep@, start as int, i as int) == split(s@, sep@),
        decreases s.len() - i,
    {
        if matches_at(s, sep, i) {
            let ghost old_r = r@;
            r.push((start, i));
            assert(ranges_text(s@, r@) =~= ranges_text(s@, old_r) + seq![
                s@.subrange(start as int, i as int),
            ]);
            i = i + sep.len();
            start = i;
        } else {
            i = i + 1;
        }
    }
    let ghost old_r = r@;
    r.push((start, s.len()));
    assert(ranges_text(s@, r@) =~= ranges_text(s@, old_r) + seq![
        s@.subrange(start as int, s.len() as int),
    ]);
    assert(ranges_text(s@, r@) =~= split(s@, sep@));
    assert forall|k: int| 0 <= k < r@.len() implies r@[k].0 <= r@[k].1 <= s.len() && s@.subrange(
        r@[k].0 as int,
        r@[k].1 as int,
    ) == #[trigger] split(s@, sep@)[k] by {
        assert(ranges_text(s@, r@)[k] == split(s@, sep@)[k]);
    }
    r
}

/// The text of `s` covered by each of `ranges`.
pub open spec fn ranges_text(s: Seq<char>, ranges: Seq<(usize, usize)>) -> Seq<Seq<char>> {
    ranges.map_values(|p: (usize, usize)| s.subrange(p.0 as int, p.1 as int))
}

/// Whether `c` is Unicode whitespace.
pub fn is_whitespace_char(c: char) -> (r: bool)
    ensures
        r == is_ws(c),
{
    c == '\t' || c == '\n' || c == '\u{0B}' || c == '\u{0C}' || c == '\r' || c == ' ' || c
        == '\u{85}' || c == '\u{A0}' || c == '\u{1680}' || ('\u{2000}' <= c && c <= '\u{200A}')
        || c == '\u{2028}' || c == '\u{2029}' || c == '\u{202F}' || c == '\u{205F}' || c
        == '\u{3000}'
}

/// Whitespace at the front of `s[i..]` does not change its words.
pub proof fn lemma_words_skip_ws(s: Seq<char>, i: int, j: int)
    requires
        0 <= i <= j <= s.len(),
        forall|k: int| i <= k < j ==> is_ws(#[trigger] s[k]),
    ensures
        words(s.skip(i)) == words(s.skip(j)),
    decreases j - i,
{
    if i < j {
        assert(s.skip(i)[0] == s[i]);
        assert(s.skip(i).drop_first() =~= s.skip(i + 1));
        lemma_words_skip_ws(s, i + 1, j);
    }
}

/// The word at `s[i..]` ends at the first whitespace (or the end).
pub proof fn lemma_word_len_at(s: Seq<char>, i: int, j: int)
    requires
        0 <= i <= j <= s.len(),
        forall|k: int| i <= k < j ==> !is_ws(#[trigger] s[k]),
        j == s.len() || is_ws(s[j]),
    ensures
        word_len(s.skip(i)) == j - i,
    decreases j - i,
{
    if i < j {
        assert(s.skip(i)[0] == s[i]);
        assert(s.skip(i).drop_first() =~= s.skip(i + 1));
        lemma_word_len_at(s, i + 1, j);
    } else {
        if j < s.len() {
            assert(s.skip(i)[0] == s[j]);
        }
    }
}

/// Index of the first non-whitespace character at or after `i`.
pub fn skip_whitespace(s: &Vec<char>, i: usize) -> (j: usize)
    requires
        i <= s.len(),
    ensures
        i <= j <= s.len(),
        j == s.len() || !is_ws(s@[j as int]),
        words(s@.skip(i as int)) == words(s@.skip(j as int)),
{
    let mut j = i;
    while j < s.len() && is_whitespace_char(s[j])
        invariant
            i <= j <= s.len(),
            forall|k: int| i <= k < j ==> is_ws(#[trigger] s@[k]),
        decreases s.len() - j,
    {
        j = j + 1;
    }
    proof {
        lemma_words_skip_ws(s@, i as int, j as int);
    }
    j
}

/// The word that starts at `i` ends at the returned index.
pub fn skip_word(s: &Vec<char>, i: usize) -> (j: usize)
    requires
        i < s.len(),
        !is_ws(s@[i as int]),
    ensures
        i < j <= s.len(),
        words(s@.skip(i as int)) == seq![s@.subrange(i as int, j as int)] + words(
            s@.skip(j as int),
        ),
{
    let mut j = i;
    while j < s.len() && !is_whitespace_char(s[j])
        invariant
            i <= j <= s.len(),
            forall|k: int| i <= k < j ==> !is_ws(#[trigger] s@[k]),
        decreases s.len() - j,
    {
        j = j + 1;
    }
    proof {
        lemma_word_len_at(s@, i as int, j as int);
        let t = s@.skip(i as int);
        assert(t[0] == s@[i as int]);
        assert(t.take((j - i) as int) =~= s@.subrange(i as int, j as int));
        assert(t.skip((j - i) as int) =~= s@.skip(j as int));
    }
    j
}

/// The range of the second whitespace-separated word of `s[from..]`, if any.
pub fn second_word(s: &Vec<char>, from: usize) -> (r: Option<(usize, usize)>)
    requires
        from <= s.len(),
    ensures
        match r {
            Some((a, b)) => words(s@.skip(from as int)).len() >= 2 && a <= b <= s.len()
                && s@.subrange(a as int, b as int) == words(s@.skip(from as int))[1],
            None => words(s@.skip(from as int)).len() < 2,
        },
{
    let i0 = skip_whitespace(s, from);
    if i0 == s.len() {
        assert(s@.skip(i0 as int) =~= Seq::<char>::empty());
        return None;
    }
    let j0 = skip_word(s, i0);
    let i1 = skip_whitespace(s, j0);
    if i1 == s.len() {
        assert(s@.skip(i1 as int) =~= Seq::<char>::empty());
        return None;
    }
    let j1 = skip_word(s, i1);
    Some((i1, j1))
}

/// Whether every character of `s` is printable ASCII other than space.
pub fn all_ascii_graphic(s: &Vec<char>) -> (r: bool)
    ensures
        r == (forall|k: int| 0 <= k < s.len() ==> is_ascii_graphic(#[trigger] s@[k])),
{
    let mut k: usize = 0;
    while k < s.len()
        invariant
            k <= s.len(),
            forall|j: int| 0 <= j < k ==> is_ascii_graphic(#[trigger] s@[j]),
        decreases s.len() - k,
    {
        if !('!' <= s[k] && s[k] <= '~') {
            return false;
        }
        k = k + 1;
    }
    true
}

/// Whether `c` occurs in `s`.
pub fn contains_char(s: &Vec<char>, c: char) -> (r: bool)
    ensures
        r == s@.contains(c),
{
    let mut k: usize = 0;
    while k < s.len()
        invariant
            k <= s.len(),
            forall|j: int| 0 <= j < k ==> s@[j] != c,
        decreases s.len() - k,
    {
        if s[k] == c {
            assert(s@[k as int] == c);
            return true;
        }
        k = k + 1;
    }
    false
}

/// The decimal digit `d` as a one-character string.
fn digit_string(d: u64) -> (r: String)
    requires
        d < 10,
    ensures
        r@ == seq![digit_char(d as int)],
{
    if d == 0 {
        proof { reveal_strlit("0"); }
        String::from_str("0")
    } else if d == 1 {
        proof { reveal_strlit("1"); }
        String::from_str("1")
    } else if d == 2 {
        proof { reveal_strlit("2"); }
        String::from_str("2")
    } else if d == 3 {
        proof { reveal_strlit("3"); }
        String::from_str("3")
    } else if d == 4 {
        proof { reveal_strlit("4"); }
        String::from_str("4")
    } else if d == 5 {
        proof { reveal_strlit("5"); }
        String::from_str("5")
    } else if d == 6 {
        proof { reveal_strlit("6"); }
        String::from_str("6")
    } else if d == 7 {
        proof { reveal_strlit("7"); }
        String::from_str("7")
    } else if d == 8 {
        proof { reveal_strlit("8"); }
        String::from_str("8")
    } else {
        proof { reveal_strlit("9"); }
        String::from_str("9")
    }
}

/// The decimal rendering of `n` (as `format!("{}", n)` writes it).
pub fn decimal_string(n: u64) -> (r: String)
    ensures
        r@ == decimal(n as nat),
    decreases n,
{
    if n < 10 {
        digit_string(n)
    } else {
        let mut r = decimal_string(n / 10);
        let d = digit_string(n % 10);
        r.append(d.as_str());
        r
    }
}

/// Whether two strings hold the same characters.
pub fn same_text(a: &str, b: &str) -> (r: bool)
    ensures
        r == (a@ == b@),
{
    let x = String::from_str(a);
    let y = String::from_str(b);
    x == y
}

/// The characters of `s` from index `a` up to `b`, as an owned string.
pub fn substring(s: &str, a: usize, b: usize) -> (r: String)
    requires
        a <= b <= s@.len(),
    ensures
        r@ == s@.subrange(a as int, b as int),
{
    String::from_str(s.substring_char(a, b))
}

} // verus!
