//! The mathematical model of splitting and joining text.

use vstd::prelude::*;

verus! {

/// Index of the first occurrence of `sep` in `s`, or `s.len()` if there is none.
pub open spec fn first_sep(s: Seq<char>, sep: char) -> nat
    decreases s.len(),
{
    if s.len() == 0 || s[0] == sep {
        0
    } else {
        1 + first_sep(s.drop_first(), sep)
    }
}

/// True if `sep` does not occur in `s`.
pub open spec fn free_of(s: Seq<char>, sep: char) -> bool {
    forall|i: int| 0 <= i < s.len() ==> s[i] != sep
}

/// The pieces of `s` between the occurrences of `sep`, in order. There is
/// always at least one piece, and a piece may be empty.
pub open spec fn split(s: Seq<char>, sep: char) -> Seq<Seq<char>>
    decreases s.len(),
{
    let n = first_sep(s, sep) as int;
    if n >= s.len() {
        seq![s]
    } else {
        seq![s.take(n)] + split(s.skip(n + 1), sep)
    }
}

/// Every piece preceded by the separator, all in a row.
pub open spec fn prefixed(pieces: Seq<Seq<char>>, sep: Seq<char>) -> Seq<char>
    decreases pieces.len(),
{
    if pieces.len() == 0 {
        Seq::empty()
    } else {
        prefixed(pieces.drop_last(), sep) + sep + pieces.last()
    }
}

/// The pieces in a row with the separator between each two neighbours.
pub open spec fn join(pieces: Seq<Seq<char>>, sep: Seq<char>) -> Seq<char> {
    if pieces.len() == 0 {
        Seq::empty()
    } else {
        pieces[0] + prefixed(pieces.drop_first(), sep)
    }
}

/// `first_sep` is in bounds, nothing before it is the separator, and what
/// stands at it is.
pub proof fn lemma_first_sep(s: Seq<char>, sep: char)
    ensures
        first_sep(s, sep) <= s.len(),
        free_of(s.take(first_sep(s, sep) as int), sep),
        first_sep(s, sep) < s.len() ==> s[first_sep(s, sep) as int] == sep,
    decreases s.len(),
{
    if s.len() > 0 && s[0] != sep {
        let t = s.drop_first();
        lemma_first_sep(t, sep);
        let n = first_sep(s, sep) as int;
        let head = s.take(n);
        assert forall|i: int| 0 <= i < head.len() implies head[i] != sep by {
            if i > 0 {
                assert(head[i] == t.take(n - 1)[i - 1]);
            }
        }
    }
}

/// A prefix that is free of the separator and is followed by the separator,
/// or by nothing, ends exactly at `first_sep`.
pub proof fn lemma_first_sep_is(s: Seq<char>, sep: char, n: int)
    requires
        0 <= n <= s.len(),
        free_of(s.take(n), sep),
        n < s.len() ==> s[n] == sep,
    ensures
        first_sep(s, sep) == n,
    decreases n,
{
    if n > 0 {
        assert(s.take(n)[0] == s[0]);
        let t = s.drop_first();
        let head = t.take(n - 1);
        assert forall|i: int| 0 <= i < head.len() implies head[i] != sep by {
            assert(head[i] == s.take(n)[i + 1]);
        }
        lemma_first_sep_is(t, sep, n - 1);
    }
}

/// `prefixed` read from the left: the separator, the first piece, and the
/// other pieces prefixed.
pub proof fn lemma_prefixed_from_left(pieces: Seq<Seq<char>>, sep: Seq<char>)
    requires
        pieces.len() > 0,
    ensures
        prefixed(pieces, sep) == sep + pieces[0] + prefixed(pieces.drop_first(), sep),
    decreases pieces.len(),
{
    if pieces.len() == 1 {
        assert(pieces.drop_last() =~= Seq::<Seq<char>>::empty());
        assert(pieces.drop_first() =~= Seq::<Seq<char>>::empty());
    } else {
        let init = pieces.drop_last();
        lemma_prefixed_from_left(init, sep);
        assert(init.drop_first() =~= pieces.drop_first().drop_last());
    }
}

/// A character that is neither in the pieces nor in the separator is not in
/// the pieces prefixed.
pub proof fn lemma_prefixed_free_of(pieces: Seq<Seq<char>>, sep: Seq<char>, c: char)
    requires
        free_of(sep, c),
        forall|i: int| 0 <= i < pieces.len() ==> free_of(#[trigger] pieces[i], c),
    ensures
        free_of(prefixed(pieces, sep), c),
    decreases pieces.len(),
{
    if pieces.len() > 0 {
        let init = pieces.drop_last();
        lemma_prefixed_free_of(init, sep, c);
    }
}

/// A character that is neither in the pieces nor in the separator is not in
/// the joined text.
pub proof fn lemma_join_free_of(pieces: Seq<Seq<char>>, sep: Seq<char>, c: char)
    requires
        free_of(sep, c),
        forall|i: int| 0 <= i < pieces.len() ==> free_of(#[trigger] pieces[i], c),
    ensures
        free_of(join(pieces, sep), c),
{
    if pieces.len() > 0 {
        let others = pieces.drop_first();
        lemma_prefixed_free_of(others, sep, c);
    }
}

/// Splitting undoes joining: pieces that are free of the separator, and
/// at least one of them, come back from their joined text as they were.
pub proof fn lemma_split_of_join(pieces: Seq<Seq<char>>, sep: char)
    requires
        pieces.len() > 0,
        forall|i: int| 0 <= i < pieces.len() ==> free_of(#[trigger] pieces[i], sep),
    ensures
        split(join(pieces, seq![sep]), sep) == pieces,
    decreases pieces.len(),
{
    let text = join(pieces, seq![sep]);
    let head = pieces[0];
    let others = pieces.drop_first();
    let n = head.len() as int;
    if others.len() == 0 {
        lemma_first_sep_is(text, sep, n);
    } else {
        lemma_prefixed_from_left(others, seq![sep]);
        let tail = join(others, seq![sep]);
        assert(text.take(n) =~= head);
        lemma_first_sep_is(text, sep, n);
        assert(text.skip(n + 1) =~= tail);
        lemma_split_of_join(others, sep);
    }
}

/// Joining undoes splitting: there is at least one piece, no piece holds
/// the separator, and the pieces joined by it are the text again.
pub proof fn lemma_join_of_split(s: Seq<char>, sep: char)
    ensures
        split(s, sep).len() > 0,
        forall|i: int| 0 <= i < split(s, sep).len() ==> free_of(#[trigger] split(s, sep)[i], sep),
        join(split(s, sep), seq![sep]) == s,
    decreases s.len(),
{
    lemma_first_sep(s, sep);
    let n = first_sep(s, sep) as int;
    if n >= s.len() {
        assert(s.take(n) =~= s);
    } else {
        let tail = s.skip(n + 1);
        lemma_join_of_split(tail, sep);
        let others = split(tail, sep);
        assert(split(s, sep).drop_first() =~= others);
        lemma_prefixed_from_left(others, seq![sep]);
        assert(s =~= s.take(n) + seq![sep] + tail);
    }
}

} // verus!
