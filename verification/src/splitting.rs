//! Splitting text into words and joining words back into text.
//!
//! Two splitting disciplines exist: at every occurrence of a separator
//! character (empty pieces are kept), or at capitalization boundaries
//! (a new word begins at every uppercase character except the first
//! character of the text). Joining interleaves an optional separator.

use vstd::prelude::*;
use crate::chars::is_upper;

verus! {

/// The separator as a (possibly empty) character sequence.
pub open spec fn sep_seq(sep: Option<char>) -> Seq<char> {
    match sep {
        None => Seq::empty(),
        Some(c) => seq![c],
    }
}

/// The words of `t` split at every occurrence of `sep`.
/// There is always at least one word; consecutive separators give empty words.
pub open spec fn split_sep_spec(t: Seq<char>, sep: char) -> Seq<Seq<char>>
    decreases t.len(),
{
    if t.len() == 0 {
        seq![Seq::<char>::empty()]
    } else if t[0] == sep {
        seq![Seq::<char>::empty()] + split_sep_spec(t.skip(1), sep)
    } else {
        let r = split_sep_spec(t.skip(1), sep);
        seq![seq![t[0]] + r[0]] + r.skip(1)
    }
}

/// The index of the first capitalization boundary of `t`: the least index
/// no less than 1 holding an uppercase character, or `t.len()` if none exists.
pub open spec fn cap_break(t: Seq<char>) -> int
    decreases t.len(),
{
    if t.len() <= 1 {
        t.len() as int
    } else if is_upper(t[1]) {
        1
    } else {
        1 + cap_break(t.skip(1))
    }
}

/// The words of `t` split at capitalization boundaries.
/// Empty text gives no words; text without an uppercase character past
/// its first character gives a single word.
pub open spec fn split_cap_spec(t: Seq<char>) -> Seq<Seq<char>>
    decreases t.len(),
    via split_cap_spec_decreases
{
    if t.len() == 0 {
        Seq::empty()
    } else {
        let i = cap_break(t);
        seq![t.take(i)] + split_cap_spec(t.skip(i))
    }
}

#[via_fn]
proof fn split_cap_spec_decreases(t: Seq<char>) {
    if t.len() > 0 {
        lemma_cap_break_bounds(t);
    }
}

/// Words joined with the separator between adjacent words.
pub open spec fn join_spec(ws: Seq<Seq<char>>, sep: Option<char>) -> Seq<char>
    decreases ws.len(),
{
    if ws.len() == 0 {
        Seq::empty()
    } else if ws.len() == 1 {
        ws[0]
    } else {
        ws[0] + sep_seq(sep) + join_spec(ws.skip(1), sep)
    }
}

/// The first capitalization boundary lies between 1 and the length, no
/// uppercase character lies strictly before it (past index 0), and it
/// holds an uppercase character unless it is the length.
pub proof fn lemma_cap_break_bounds(t: Seq<char>)
    requires
        t.len() > 0,
    ensures
        1 <= cap_break(t) <= t.len(),
        forall|j: int| 1 <= j < cap_break(t) ==> !is_upper(t[j]),
        cap_break(t) < t.len() ==> is_upper(t[cap_break(t)]),
    decreases t.len(),
{
    if t.len() <= 1 {
    } else if is_upper(t[1]) {
    } else {
        lemma_cap_break_bounds(t.skip(1));
        assert forall|j: int| 1 <= j < cap_break(t) implies !is_upper(t[j]) by {
            if j >= 2 {
                assert(t.skip(1)[j - 1] == t[j]);
            }
        }
        if cap_break(t) < t.len() {
            assert(t.skip(1)[cap_break(t) - 1] == t[cap_break(t)]);
        }
    }
}

/// The capitalization boundary is pinned down by its characteristic
/// properties.
pub proof fn lemma_cap_break_unique(t: Seq<char>, k: int)
    requires
        t.len() > 0,
        1 <= k <= t.len(),
        forall|j: int| 1 <= j < k ==> !is_upper(t[j]),
        k < t.len() ==> is_upper(t[k]),
    ensures
        cap_break(t) == k,
{
    lemma_cap_break_bounds(t);
    if cap_break(t) < k {
        assert(!is_upper(t[cap_break(t)]));
    } else if k < cap_break(t) {
        assert(!is_upper(t[k]));
    }
}

/// Splitting at a separator yields at least one word.
pub proof fn lemma_split_sep_len(t: Seq<char>, sep: char)
    ensures
        split_sep_spec(t, sep).len() >= 1,
    decreases t.len(),
{
    if t.len() == 0 {
    } else if t[0] == sep {
        lemma_split_sep_len(t.skip(1), sep);
    } else {
        lemma_split_sep_len(t.skip(1), sep);
    }
}

/// Joining what splitting took apart at a separator restores the text.
pub proof fn lemma_join_split_sep(t: Seq<char>, sep: char)
    ensures
        join_spec(split_sep_spec(t, sep), Some(sep)) == t,
    decreases t.len(),
{
    if t.len() == 0 {
    } else if t[0] == sep {
        lemma_join_split_sep(t.skip(1), sep);
        lemma_split_sep_len(t.skip(1), sep);
        let s = split_sep_spec(t, sep);
        assert(s.skip(1) =~~= split_sep_spec(t.skip(1), sep));
        assert(s.len() >= 2);
        assert(join_spec(s, Some(sep)) == s[0] + sep_seq(Some(sep)) + join_spec(
            s.skip(1),
            Some(sep),
        ));
        assert(join_spec(split_sep_spec(t, sep), Some(sep)) =~= t);
    } else {
        lemma_join_split_sep(t.skip(1), sep);
        lemma_split_sep_len(t.skip(1), sep);
        let r = split_sep_spec(t.skip(1), sep);
        if r.len() == 1 {
            assert(split_sep_spec(t, sep) =~~= seq![seq![t[0]] + r[0]]);
            assert(join_spec(split_sep_spec(t, sep), Some(sep)) =~= t);
        } else {
            let s = split_sep_spec(t, sep);
            assert(s[0] == seq![t[0]] + r[0]);
            assert(s.skip(1) =~~= r.skip(1));
            assert(join_spec(s, Some(sep)) == s[0] + sep_seq(Some(sep)) + join_spec(
                r.skip(1),
                Some(sep),
            ));
            assert(join_spec(r, Some(sep)) == r[0] + sep_seq(Some(sep)) + join_spec(
                r.skip(1),
                Some(sep),
            ));
            assert(join_spec(s, Some(sep)) =~= seq![t[0]] + join_spec(r, Some(sep)));
            assert(join_spec(split_sep_spec(t, sep), Some(sep)) =~= t);
        }
    }
}

/// Joining what splitting took apart at capitalization boundaries restores
/// the text.
pub proof fn lemma_join_split_cap(t: Seq<char>)
    ensures
        join_spec(split_cap_spec(t), None) == t,
    decreases t.len(),
{
    if t.len() == 0 {
        assert(join_spec(split_cap_spec(t), None) =~= t);
    } else {
        lemma_cap_break_bounds(t);
        let i = cap_break(t);
        lemma_join_split_cap(t.skip(i));
        let rest = split_cap_spec(t.skip(i));
        let s = split_cap_spec(t);
        if rest.len() == 0 {
            assert(t.skip(i) =~= Seq::<char>::empty());
            assert(i == t.len());
            assert(s =~~= seq![t.take(i)]);
            assert(join_spec(s, None) =~= t);
        } else {
            assert(s[0] == t.take(i));
            assert(s.skip(1) =~~= rest);
            assert(join_spec(s, None) == s[0] + sep_seq(None) + join_spec(rest, None));
            assert(join_spec(s, None) =~= t.take(i) + t.skip(i));
            assert(join_spec(s, None) =~= t);
        }
    }
}

/// Appending one more word to a join appends a separator and the word.
pub proof fn lemma_join_push(ws: Seq<Seq<char>>, sep: Option<char>, w: Seq<char>)
    ensures
        join_spec(ws.push(w), sep) == if ws.len() == 0 {
            w
        } else {
            join_spec(ws, sep) + sep_seq(sep) + w
        },
    decreases ws.len(),
{
    if ws.len() == 0 {
        assert(ws.push(w) =~~= seq![w]);
    } else if ws.len() == 1 {
        assert(ws.push(w)[0] == ws[0]);
        assert(ws.push(w).skip(1) =~~= seq![w]);
        assert(join_spec(seq![w], sep) == w);
        assert(join_spec(ws.push(w), sep) == ws[0] + sep_seq(sep) + w);
        assert(join_spec(ws, sep) == ws[0]);
    } else {
        lemma_join_push(ws.skip(1), sep, w);
        assert(ws.push(w).skip(1) =~~= ws.skip(1).push(w));
        assert(ws.push(w)[0] == ws[0]);
        assert(join_spec(ws.push(w), sep) == ws[0] + sep_seq(sep) + join_spec(
            ws.skip(1).push(w),
            sep,
        ));
        assert(join_spec(ws.push(w), sep) =~= join_spec(ws, sep) + sep_seq(sep) + w);
    }
}

/// A separator-free piece followed by a separator splits off as one word.
pub proof fn lemma_split_sep_segment(w: Seq<char>, rest: Seq<char>, sep: char)
    requires
        forall|j: int| 0 <= j < w.len() ==> w[j] != sep,
    ensures
        split_sep_spec(w + seq![sep] + rest, sep) == seq![w] + split_sep_spec(rest, sep),
    decreases w.len(),
{
    let t = w + seq![sep] + rest;
    if w.len() == 0 {
        assert(t[0] == sep);
        assert(t.skip(1) =~= rest);
        assert(split_sep_spec(t, sep) =~~= seq![w] + split_sep_spec(rest, sep));
    } else {
        assert(t[0] == w[0]);
        assert(t[0] != sep);
        assert(t.skip(1) =~= w.skip(1) + seq![sep] + rest);
        lemma_split_sep_segment(w.skip(1), rest, sep);
        let r = split_sep_spec(t.skip(1), sep);
        assert(r == seq![w.skip(1)] + split_sep_spec(rest, sep));
        lemma_split_sep_len(rest, sep);
        assert(r[0] == w.skip(1));
        assert(seq![t[0]] + r[0] =~= w);
        assert(r.skip(1) =~~= split_sep_spec(rest, sep));
        assert(split_sep_spec(t, sep) =~~= seq![w] + split_sep_spec(rest, sep));
    }
}

/// A separator-free tail is a single word.
pub proof fn lemma_split_sep_whole(w: Seq<char>, sep: char)
    requires
        forall|j: int| 0 <= j < w.len() ==> w[j] != sep,
    ensures
        split_sep_spec(w, sep) == seq![w],
    decreases w.len(),
{
    if w.len() == 0 {
        assert(split_sep_spec(w, sep) =~~= seq![w]);
    } else {
        lemma_split_sep_whole(w.skip(1), sep);
        let r = split_sep_spec(w.skip(1), sep);
        assert(r[0] == w.skip(1));
        assert(seq![w[0]] + r[0] =~= w);
        assert(r.skip(1) =~~= Seq::<Seq<char>>::empty());
        assert(split_sep_spec(w, sep) =~~= seq![w]);
    }
}

} // verus!
