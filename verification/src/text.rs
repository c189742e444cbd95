//! Character-level text operations, each with its meaning on `Seq<char>`.

use vstd::prelude::*;

verus! {

/// Whether `c` is Unicode white space.
pub open spec fn is_space(c: char) -> bool {
    let n = c as u32;
    ||| 0x09 <= n <= 0x0D
    ||| n == 0x20
    ||| n == 0x85
    ||| n == 0xA0
    ||| n == 0x1680
    ||| 0x2000 <= n <= 0x200A
    ||| n == 0x2028
    ||| n == 0x2029
    ||| n == 0x202F
    ||| n == 0x205F
    ||| n == 0x3000
}

/// `s` without its leading white space.
pub open spec fn trim_start(s: Seq<char>) -> Seq<char>
    decreases s.len(),
{
    if s.len() > 0 && is_space(s[0]) {
        trim_start(s.drop_first())
    } else {
        s
    }
}

/// `s` without its trailing white space.
pub open spec fn trim_end(s: Seq<char>) -> Seq<char>
    decreases s.len(),
{
    if s.len() > 0 && is_space(s.last()) {
        trim_end(s.drop_last())
    } else {
        s
    }
}

/// `s` without leading and trailing white space.
pub open spec fn trim(s: Seq<char>) -> Seq<char> {
    trim_end(trim_start(s))
}

/// The characters of a string slice, one element each.
pub fn chars_of(s: &str) -> (v: Vec<char>)
    ensures
        v@ == s@,
{
    let mut v: Vec<char> = Vec::new();
    for c in it: s.chars()
        invariant
            it.seq() == s@,
            v@ == it.seq().take(it.index()),
    {
        v.push(c);
        assert(it.seq().take(it.index() + 1) =~= it.seq().take(it.index()).push(c));
    }
    assert(s@.take(s@.len() as int) =~= s@);
    v
}

/// `String::push` appends one character to the end of the text.
pub assume_specification[ String::push ](s: &mut String, c: char)
    ensures
        final(s)@ == old(s)@.push(c),
;

/// The string made of the given characters.
pub fn string_of(chars: &[char]) -> (s: String)
    ensures
        s@ == chars@,
{
    let mut s = String::new();
    let mut i: usize = 0;
    while i < chars.len()
        invariant
            i <= chars.len(),
            s@ == chars@.take(i as int),
        decreases chars.len() - i,
    {
        s.push(chars[i]);
        assert(chars@.take(i + 1) =~= chars@.take(i as int).push(chars@[i as int]));
        i += 1;
    }
    assert(chars@.take(chars@.len() as int) =~= chars@);
    s
}

/// Whether `c` is Unicode white space.
pub fn is_whitespace(c: char) -> (b: bool)
    ensures
        b == is_space(c),
{
    let n: u32 = c as u32;
    (0x09 <= n && n <= 0x0D) || n == 0x20 || n == 0x85 || n == 0xA0 || n == 0x1680 || (0x2000 <= n
        && n <= 0x200A) || n == 0x2028 || n == 0x2029 || n == 0x202F || n == 0x205F || n == 0x3000
}

/// The part of `s` from `from` up to `to`, copied.
pub fn copy_range(s: &[char], from: usize, to: usize) -> (v: Vec<char>)
    requires
        from <= to <= s@.len(),
    ensures
        v@ == s@.subrange(from as int, to as int),
{
    let mut v: Vec<char> = Vec::new();
    let mut i: usize = from;
    while i < to
        invariant
            from <= i <= to <= s@.len(),
            v@ == s@.subrange(from as int, i as int),
        decreases to - i,
    {
        v.push(s[i]);
        assert(s@.subrange(from as int, i + 1) =~= s@.subrange(from as int, i as int).push(
            s@[i as int],
        ));
        i += 1;
    }
    v
}

/// `trim_start` of `s` is what is left after skipping any white-space prefix.
pub proof fn lemma_trim_start_skip(s: Seq<char>, k: int)
    requires
        0 <= k <= s.len(),
        forall|j: int| 0 <= j < k ==> is_space(#[trigger] s[j]),
    ensures
        trim_start(s) == trim_start(s.skip(k)),
    decreases k,
{
    if k > 0 {
        assert(s.drop_first().skip(k - 1) =~= s.skip(k));
        lemma_trim_start_skip(s.drop_first(), k - 1);
    } else {
        assert(s.skip(0) =~= s);
    }
}

/// `trim_end` of `s` is what is left after dropping any white-space suffix.
pub proof fn lemma_trim_end_take(s: Seq<char>, k: int)
    requires
        0 <= k <= s.len(),
        forall|j: int| k <= j < s.len() ==> is_space(#[trigger] s[j]),
    ensures
        trim_end(s) == trim_end(s.take(k)),
    decreases s.len() - k,
{
    if k < s.len() {
        assert(s.drop_last().take(k) =~= s.take(k));
        lemma_trim_end_take(s.drop_last(), k);
    } else {
        assert(s.take(k) =~= s);
    }
}

/// Removes leading and trailing white space.
pub fn trimmed(s: &[char]) -> (v: Vec<char>)
    ensures
        v@ == trim(s@),
{
    let n: usize = s.len();
    let mut a: usize = 0;
    while a < n && is_whitespace(s[a])
        invariant
            a <= n == s@.len(),
            forall|j: int| 0 <= j < a ==> is_space(#[trigger] s@[j]),
        decreases n - a,
    {
        a += 1;
    }
    let mut b: usize = n;
    while b > a && is_whitespace(s[b - 1])
        invariant
            a <= b <= n == s@.len(),
            forall|j: int| b <= j < n ==> is_space(#[trigger] s@[j]),
        decreases b,
    {
        b -= 1;
    }
    proof {
        lemma_trim_start_skip(s@, a as int);
        let t = s@.skip(a as int);
        assert(trim_start(t) == t);
        assert(forall|j: int| b - a <= j < t.len() ==> is_space(#[trigger] t[j]));
        lemma_trim_end_take(t, b - a);
        let u = t.take(b - a);
        assert(trim_end(u) == u);
        assert(u =~= s@.subrange(a as int, b as int));
    }
    copy_range(s, a, b)
}

/// Whether the two characters `a`, `b` stand at positions `i` and `i + 1` of `s`.
pub open spec fn pair_at(s: Seq<char>, i: int, a: char, b: char) -> bool {
    0 <= i && i + 1 < s.len() && s[i] == a && s[i + 1] == b
}

/// Whether `s` holds `a` directly followed by `b` anywhere.
pub open spec fn has_pair(s: Seq<char>, a: char, b: char) -> bool {
    exists|i: int| pair_at(s, i, a, b)
}

/// Whether `s` begins with `a` followed by `b`.
pub open spec fn starts_with_pair(s: Seq<char>, a: char, b: char) -> bool {
    pair_at(s, 0, a, b)
}

/// Whether `i` is the first position at which `a`, `b` stand in `s`.
pub open spec fn is_first_pair(s: Seq<char>, i: int, a: char, b: char) -> bool {
    pair_at(s, i, a, b) && forall|j: int| 0 <= j < i ==> !pair_at(s, j, a, b)
}

/// The first position at which `a`, `b` stand in `s`; meaningful where
/// `has_pair` holds.
pub open spec fn first_pair(s: Seq<char>, a: char, b: char) -> int {
    choose|i: int| is_first_pair(s, i, a, b)
}

/// `s` up to the first line-comment marker `--`, or all of `s` without one.
pub open spec fn without_comment(s: Seq<char>) -> Seq<char> {
    if has_pair(s, '-', '-') {
        s.take(first_pair(s, '-', '-'))
    } else {
        s
    }
}

/// `s` with every tab replaced by one space.
pub open spec fn untab(s: Seq<char>) -> Seq<char> {
    s.map_values(
        |c: char|
            if c == '\t' {
                ' '
            } else {
                c
            },
    )
}

/// The text a line contributes to a statement: tabs become spaces, then the
/// line comment is cut off.
pub open spec fn clean_text(s: Seq<char>) -> Seq<char> {
    without_comment(untab(s))
}

/// `s` without its leading semicolons.
pub open spec fn strip_semicolons(s: Seq<char>) -> Seq<char>
    decreases s.len(),
{
    if s.len() > 0 && s[0] == ';' {
        strip_semicolons(s.drop_first())
    } else {
        s
    }
}

/// The number of characters before the first white space of `s`.
pub open spec fn word_len(s: Seq<char>) -> nat
    decreases s.len(),
{
    if s.len() == 0 || is_space(s[0]) {
        0
    } else {
        1 + word_len(s.drop_first())
    }
}

/// The first white-space-delimited word of `s`; empty where `s` has none.
pub open spec fn first_word(s: Seq<char>) -> Seq<char> {
    let t = trim_start(s);
    t.take(word_len(t) as int)
}

/// `c` with an ASCII capital turned into its small letter.
pub open spec fn lower_char(c: char) -> char {
    if 'A' <= c <= 'Z' {
        ((c as u8) + 32) as char
    } else {
        c
    }
}

/// `s` with every ASCII capital turned into its small letter.
pub open spec fn lower(s: Seq<char>) -> Seq<char> {
    s.map_values(|c: char| lower_char(c))
}

/// Finds the first position at which `a`, `b` stand in `s`.
pub fn find_pair(s: &[char], a: char, b: char) -> (found: Option<usize>)
    ensures
        found is Some == has_pair(s@, a, b),
        found is Some ==> found->0 == first_pair(s@, a, b) && is_first_pair(
            s@,
            found->0 as int,
            a,
            b,
        ),
{
    let n: usize = s.len();
    let mut i: usize = 0;
    while i < n && i + 1 < n
        invariant
            i <= n == s@.len(),
            forall|j: int| 0 <= j < i ==> !pair_at(s@, j, a, b),
        decreases n - i,
    {
        if s[i] == a && s[i + 1] == b {
            proof {
                assert(is_first_pair(s@, i as int, a, b));
                let k = first_pair(s@, a, b);
                assert(is_first_pair(s@, k, a, b));
                assert(k == i) by {
                    if k < i {
                        assert(pair_at(s@, k, a, b));
                    }
                    if i < k {
                        assert(pair_at(s@, i as int, a, b));
                    }
                }
            }
            return Some(i);
        }
        i += 1;
    }
    assert(forall|j: int| !pair_at(s@, j, a, b));
    None
}

/// Whether `s` holds `a` directly followed by `b` anywhere.
pub fn contains_pair(s: &[char], a: char, b: char) -> (found: bool)
    ensures
        found == has_pair(s@, a, b),
{
    find_pair(s, a, b).is_some()
}

/// Whether `s` begins with `a` followed by `b`.
pub fn begins_with_pair(s: &[char], a: char, b: char) -> (found: bool)
    ensures
        found == starts_with_pair(s@, a, b),
{
    s.len() >= 2 && s[0] == a && s[1] == b
}

/// Replaces tabs by spaces and cuts the line comment off.
pub fn cleaned(s: &[char]) -> (v: Vec<char>)
    ensures
        v@ == clean_text(s@),
{
    let mut spaced: Vec<char> = Vec::new();
    let mut i: usize = 0;
    while i < s.len()
        invariant
            i <= s@.len(),
            spaced@ == untab(s@).take(i as int),
        decreases s@.len() - i,
    {
        let c: char = s[i];
        spaced.push(if c == '\t' { ' ' } else { c });
        assert(untab(s@).take(i + 1) =~= untab(s@).take(i as int).push(untab(s@)[i as int]));
        i += 1;
    }
    assert(untab(s@).take(s@.len() as int) =~= untab(s@));
    match find_pair(spaced.as_slice(), '-', '-') {
        Some(k) => {
            let v = copy_range(spaced.as_slice(), 0, k);
            assert(spaced@.subrange(0, k as int) =~= spaced@.take(k as int));
            v
        },
        None => spaced,
    }
}

/// `strip_semicolons` of `s` is what is left after skipping a prefix of
/// semicolons.
pub proof fn lemma_strip_semicolons_skip(s: Seq<char>, k: int)
    requires
        0 <= k <= s.len(),
        forall|j: int| 0 <= j < k ==> #[trigger] s[j] == ';',
    ensures
        strip_semicolons(s) == strip_semicolons(s.skip(k)),
    decreases k,
{
    if k > 0 {
        assert(s.drop_first().skip(k - 1) =~= s.skip(k));
        lemma_strip_semicolons_skip(s.drop_first(), k - 1);
    } else {
        assert(s.skip(0) =~= s);
    }
}

/// Removes the leading semicolons.
pub fn without_leading_semicolons(s: &[char]) -> (v: Vec<char>)
    ensures
        v@ == strip_semicolons(s@),
{
    let n: usize = s.len();
    let mut a: usize = 0;
    while a < n && s[a] == ';'
        invariant
            a <= n == s@.len(),
            forall|j: int| 0 <= j < a ==> #[trigger] s@[j] == ';',
        decreases n - a,
    {
        a += 1;
    }
    proof {
        lemma_strip_semicolons_skip(s@, a as int);
        assert(s@.skip(a as int) =~= s@.subrange(a as int, n as int));
    }
    copy_range(s, a, n)
}

/// `word_len` counts a run of characters that are not white space, where
/// white space or the end follows.
pub proof fn lemma_word_len(s: Seq<char>, k: int)
    requires
        0 <= k <= s.len(),
        forall|j: int| 0 <= j < k ==> !is_space(#[trigger] s[j]),
        k == s.len() || is_space(s[k]),
    ensures
        word_len(s) == k,
    decreases k,
{
    if k > 0 {
        let r = s.drop_first();
        assert(forall|j: int| 0 <= j < k - 1 ==> !is_space(#[trigger] r[j])) by {
            assert(forall|j: int| 0 <= j < k - 1 ==> r[j] == s[j + 1]);
        }
        lemma_word_len(r, k - 1);
    }
}

/// The first white-space-delimited word; empty where there is none.
pub fn leading_word(s: &[char]) -> (v: Vec<char>)
    ensures
        v@ == first_word(s@),
{
    let n: usize = s.len();
    let mut a: usize = 0;
    while a < n && is_whitespace(s[a])
        invariant
            a <= n == s@.len(),
            forall|j: int| 0 <= j < a ==> is_space(#[trigger] s@[j]),
        decreases n - a,
    {
        a += 1;
    }
    let mut b: usize = a;
    while b < n && !is_whitespace(s[b])
        invariant
            a <= b <= n == s@.len(),
            forall|j: int| a <= j < b ==> !is_space(#[trigger] s@[j]),
        decreases n - b,
    {
        b += 1;
    }
    proof {
        lemma_trim_start_skip(s@, a as int);
        let t = s@.skip(a as int);
        assert(trim_start(t) == t);
        assert(forall|j: int| 0 <= j < b - a ==> !is_space(#[trigger] t[j])) by {
            assert(forall|j: int| 0 <= j < b - a ==> t[j] == s@[j + a]);
        }
        lemma_word_len(t, b - a);
        assert(t.take(b - a) =~= s@.subrange(a as int, b as int));
    }
    copy_range(s, a, b)
}

/// Turns one ASCII capital into its small letter.
pub fn to_lower_char(c: char) -> (l: char)
    ensures
        l == lower_char(c),
{
    if 'A' <= c && c <= 'Z' {
        ((c as u8) + 32) as char
    } else {
        c
    }
}

/// Turns every ASCII capital into its small letter.
pub fn lowered(s: &[char]) -> (v: Vec<char>)
    ensures
        v@ == lower(s@),
{
    let mut v: Vec<char> = Vec::new();
    let mut i: usize = 0;
    while i < s.len()
        invariant
            i <= s@.len(),
            v@ == lower(s@).take(i as int),
        decreases s@.len() - i,
    {
        v.push(to_lower_char(s[i]));
        assert(lower(s@).take(i + 1) =~= lower(s@).take(i as int).push(lower(s@)[i as int]));
        i += 1;
    }
    assert(lower(s@).take(s@.len() as int) =~= lower(s@));
    v
}

/// Whether `s` holds the character `c`.
pub fn has_char(s: &[char], c: char) -> (found: bool)
    ensures
        found == s@.contains(c),
{
    let mut i: usize = 0;
    while i < s.len()
        invariant
            i <= s@.len(),
            forall|j: int| 0 <= j < i ==> s@[j] != c,
        decreases s@.len() - i,
    {
        if s[i] == c {
            return true;
        }
        i += 1;
    }
    false
}

} // verus!
