//! Cleaning a raw field into a cell.

use vstd::prelude::*;

verus! {

/// Whether `c` counts as alphanumeric: the answer of `char::is_alphanumeric`,
/// which goes by the tables of the Unicode standard.
pub uninterp spec fn is_alphanumeric(c: char) -> bool;

/// `char::is_alphanumeric` of the standard library. The contract only gives
/// its answer the name `is_alphanumeric`.
pub assume_specification[ char::is_alphanumeric ](c: char) -> (r: bool)
    ensures
        r == is_alphanumeric(c),
;

/// `String::push` of the standard library: the character is appended, and
/// nothing else changes.
pub assume_specification[ String::push ](s: &mut String, c: char)
    ensures
        final(s)@ == old(s)@.push(c),
;

/// The alphanumeric characters of `s`, in their order.
pub open spec fn clean(s: Seq<char>) -> Seq<char> {
    s.filter(|c: char| is_alphanumeric(c))
}

/// True if every character of `s` is alphanumeric.
pub open spec fn is_clean(s: Seq<char>) -> bool {
    forall|i: int| 0 <= i < s.len() ==> is_alphanumeric(#[trigger] s[i])
}

/// Cleaning leaves a clean field as it is.
pub proof fn lemma_clean_keeps_clean(s: Seq<char>)
    requires
        is_clean(s),
    ensures
        clean(s) == s,
    decreases s.len(),
{
    reveal(Seq::filter);
    if s.len() > 0 {
        lemma_clean_keeps_clean(s.drop_last());
    }
}

/// What cleaning hands back is clean, so that cleaning it once more changes
/// nothing.
pub proof fn lemma_clean_once_is_enough(s: Seq<char>)
    ensures
        is_clean(clean(s)),
        clean(clean(s)) == clean(s),
{
    assert forall|i: int| 0 <= i < clean(s).len() implies is_alphanumeric(#[trigger] clean(s)[i]) by {
        s.lemma_filter_pred(|c: char| is_alphanumeric(c), i);
    }
    lemma_clean_keeps_clean(clean(s));
}

/// Appends `c` to `cell` if `keep` says so, and leaves `cell` alone otherwise.
pub fn push_if(cell: &mut String, c: char, keep: bool)
    ensures
        final(cell)@ == if keep { old(cell)@.push(c) } else { old(cell)@ },
{
    if keep {
        cell.push(c);
    }
}

/// Strips every character that is not alphanumeric from `field`.
pub fn clean_field(field: &str) -> (cell: String)
    ensures
        cell@ == clean(field@),
        is_clean(cell@),
{
    let mut cell = String::new();
    for c in it: field.chars()
        invariant
            it.seq() == field@,
            cell@ == clean(field@.take(it.index())),
    {
        let keep = c.is_alphanumeric();
        push_if(&mut cell, c, keep);
        proof {
            reveal(Seq::filter);
            let k = it.index();
            assert(field@.take(k + 1).drop_last() == field@.take(k));
        }
    }
    proof {
        assert(field@.take(field@.len() as int) == field@);
        lemma_clean_once_is_enough(field@);
    }
    cell
}

} // verus!
