//! Splitting text at a separator character, and joining it again.

use vstd::prelude::*;

verus! {

/// The pieces of `s` between occurrences of `sep`, in order. There is always
/// one piece more than there are separators, so the empty text gives one
/// empty piece.
pub open spec fn split_on(s: Seq<char>, sep: char) -> Seq<Seq<char>>
    decreases s.len(),
{
    if s.len() == 0 {
        seq![Seq::empty()]
    } else {
        let before = split_on(s.drop_last(), sep);
        if s.last() == sep {
            before.push(Seq::empty())
        } else {
            before.drop_last().push(before.last().push(s.last()))
        }
    }
}

/// The pieces put together with `sep` between neighbours.
pub open spec fn join(parts: Seq<Seq<char>>, sep: char) -> Seq<char>
    decreases parts.len(),
{
    if parts.len() == 0 {
        Seq::empty()
    } else if parts.len() == 1 {
        parts[0]
    } else {
        join(parts.drop_last(), sep).push(sep) + parts.last()
    }
}

/// The lines of a text: its pieces between line feeds, without the empty
/// piece that a final line feed (or an empty text) leaves behind.
pub open spec fn lines_of(text: Seq<char>) -> Seq<Seq<char>> {
    let parts = split_on(text, '\n');
    if parts.last().len() == 0 {
        parts.drop_last()
    } else {
        parts
    }
}

/// The number of occurrences of `sep` in `s`.
pub open spec fn count_of(s: Seq<char>, sep: char) -> nat
    decreases s.len(),
{
    if s.len() == 0 {
        0
    } else {
        count_of(s.drop_last(), sep) + if s.last() == sep {
            1nat
        } else {
            0nat
        }
    }
}

/// The character sequences that a vector of character vectors holds.
pub open spec fn rows(v: Seq<Vec<char>>) -> Seq<Seq<char>> {
    v.map_values(|r: Vec<char>| r@)
}

/// The character sequences that a vector of strings holds.
pub open spec fn texts(v: Seq<String>) -> Seq<Seq<char>> {
    v.map_values(|s: String| s@)
}

/// A split has one piece more than the text has separators.
pub proof fn lemma_split_len(s: Seq<char>, sep: char)
    ensures
        split_on(s, sep).len() == count_of(s, sep) + 1,
    decreases s.len(),
{
    if s.len() > 0 {
        lemma_split_len(s.drop_last(), sep);
    }
}

/// No piece of a split holds the separator.
pub proof fn lemma_split_pieces_clean(s: Seq<char>, sep: char)
    ensures
        forall|i: int, j: int|
            0 <= i < split_on(s, sep).len() && 0 <= j < split_on(s, sep)[i].len()
                ==> #[trigger] split_on(s, sep)[i][j] != sep,
    decreases s.len(),
{
    if s.len() > 0 {
        lemma_split_len(s.drop_last(), sep);
        lemma_split_pieces_clean(s.drop_last(), sep);
    }
}

/// Joining the pieces of a split with the separator gives the text back.
pub proof fn lemma_join_split(s: Seq<char>, sep: char)
    ensures
        join(split_on(s, sep), sep) == s,
    decreases s.len(),
{
    if s.len() == 0 {
        assert(join(split_on(s, sep), sep) =~= s);
    } else {
        let head = s.drop_last();
        let before = split_on(head, sep);
        lemma_split_len(head, sep);
        lemma_join_split(head, sep);
        if s.last() == sep {
            let parts = before.push(Seq::empty());
            assert(parts.drop_last() =~= before);
            assert(join(parts, sep) =~= head.push(sep));
            assert(head.push(sep) =~= s);
        } else {
            let grown = before.last().push(s.last());
            let parts = before.drop_last().push(grown);
            if before.len() == 1 {
                assert(join(parts, sep) =~= before[0].push(s.last()));
            } else {
                assert(parts.drop_last() =~= before.drop_last());
                assert(join(parts, sep) =~= join(before, sep).push(s.last()));
            }
            assert(head.push(s.last()) =~= s);
        }
    }
}

/// A text without the separator splits into itself alone.
pub proof fn lemma_split_without_sep(s: Seq<char>, sep: char)
    requires
        count_of(s, sep) == 0,
    ensures
        split_on(s, sep) == seq![s],
    decreases s.len(),
{
    if s.len() == 0 {
        assert(Seq::<char>::empty() =~= s);
    } else {
        lemma_split_without_sep(s.drop_last(), sep);
        assert(s.drop_last().push(s.last()) =~= s);
        assert(seq![s.drop_last()].drop_last().push(s) =~= seq![s]);
    }
}

/// Around a separator at position `at`, with none after it, a split is the
/// split of what stands before it followed by what stands after it.
pub proof fn lemma_split_at_last_sep(s: Seq<char>, sep: char, at: int)
    requires
        0 <= at < s.len(),
        s[at] == sep,
        count_of(s.skip(at + 1), sep) == 0,
    ensures
        split_on(s, sep) == split_on(s.take(at), sep).push(s.skip(at + 1)),
    decreases s.len(),
{
    if at == s.len() - 1 {
        assert(s.drop_last() =~= s.take(at));
        assert(s.skip(at + 1) =~= Seq::<char>::empty());
    } else {
        let head = s.drop_last();
        assert(head.skip(at + 1) =~= s.skip(at + 1).drop_last());
        assert(head.take(at) =~= s.take(at));
        assert(s.skip(at + 1).last() == s.last());
        lemma_split_at_last_sep(head, sep, at);
        let front = split_on(s.take(at), sep);
        let before = front.push(head.skip(at + 1));
        assert(before.drop_last() =~= front);
        assert(head.skip(at + 1).push(s.last()) =~= s.skip(at + 1));
    }
}

/// Splits `s` at every `sep`.
pub fn split(s: &[char], sep: char) -> (parts: Vec<Vec<char>>)
    ensures
        rows(parts@) == split_on(s@, sep),
{
    let mut parts: Vec<Vec<char>> = Vec::new();
    let mut piece: Vec<char> = Vec::new();
    let mut i: usize = 0;
    while i < s.len()
        invariant
            i <= s@.len(),
            rows(parts@).push(piece@) == split_on(s@.take(i as int), sep),
        decreases s@.len() - i,
    {
        let c: char = s[i];
        proof {
            assert(s@.take(i + 1).drop_last() =~= s@.take(i as int));
            assert(rows(parts@).push(piece@).drop_last() =~= rows(parts@));
        }
        if c == sep {
            let ghost old_parts = parts@;
            let ghost done = piece@;
            parts.push(piece);
            piece = Vec::new();
            assert(rows(parts@) =~= rows(old_parts).push(done));
        } else {
            piece.push(c);
        }
        i += 1;
    }
    assert(s@.take(s@.len() as int) =~= s@);
    let ghost old_parts = parts@;
    let ghost last = piece@;
    parts.push(piece);
    assert(rows(parts@) =~= rows(old_parts).push(last));
    parts
}

/// The occurrences in a text are those before a position and those from it on.
pub proof fn lemma_count_parts(s: Seq<char>, sep: char, at: int)
    requires
        0 <= at <= s.len(),
    ensures
        count_of(s, sep) == count_of(s.take(at), sep) + count_of(s.skip(at), sep),
    decreases s.len(),
{
    if at == s.len() {
        assert(s.take(at) =~= s);
        assert(s.skip(at) =~= Seq::<char>::empty());
    } else {
        let head = s.drop_last();
        assert(head.take(at) =~= s.take(at));
        assert(head.skip(at) =~= s.skip(at).drop_last());
        assert(s.skip(at).last() == s.last());
        lemma_count_parts(head, sep, at);
    }
}

/// A text holds the separator exactly where its count is positive.
pub proof fn lemma_count_contains(s: Seq<char>, sep: char)
    ensures
        count_of(s, sep) > 0 <==> s.contains(sep),
    decreases s.len(),
{
    if s.len() > 0 {
        lemma_count_contains(s.drop_last(), sep);
        if s.drop_last().contains(sep) {
            let i = choose|i: int| 0 <= i < s.drop_last().len() && s.drop_last()[i] == sep;
            assert(s[i] == sep);
        }
        if s.contains(sep) && s.last() != sep {
            let i = choose|i: int| 0 <= i < s.len() && s[i] == sep;
            assert(s.drop_last()[i] == sep);
        }
        if s.last() == sep {
            assert(s[s.len() - 1] == sep);
        }
    }
}

/// Joins the pieces with `sep` between neighbours.
pub fn joined(parts: &Vec<String>, sep: char) -> (s: String)
    ensures
        s@ == join(texts(parts@), sep),
{
    let mut s = String::new();
    let mut i: usize = 0;
    while i < parts.len()
        invariant
            i <= parts@.len(),
            s@ == join(texts(parts@).take(i as int), sep),
        decreases parts@.len() - i,
    {
        if i > 0 {
            s.push(sep);
        }
        s.append(parts[i].as_str());
        proof {
            let now = texts(parts@).take(i + 1);
            assert(now.drop_last() =~= texts(parts@).take(i as int));
            assert(now.last() == parts@[i as int]@);
            if i == 0 {
                assert(s@ =~= now[0]);
            }
        }
        i += 1;
    }
    assert(texts(parts@).take(parts@.len() as int) =~= texts(parts@));
    s
}

} // verus!
