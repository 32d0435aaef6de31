//! Reassembly of a byte stream into complete, newline-terminated lines.
//!
//! A handle's pending bytes ("shelf") accumulate until they hold a newline;
//! the newline-terminated prefixes become complete lines and the trailing
//! unterminated fragment is retained for the next read.

use vstd::prelude::*;

verus! {

/// Whether `s` holds at least one newline byte.
pub open spec fn has_newline(s: Seq<u8>) -> bool {
    exists|i: int| 0 <= i < s.len() && s[i] == 10u8
}

/// The index of the first newline byte of `s`; `s.len()` when there is none.
pub open spec fn first_nl(s: Seq<u8>) -> int
    decreases s.len(),
{
    if s.len() == 0 {
        0
    } else if s[0] == 10u8 {
        0
    } else {
        1 + first_nl(s.skip(1))
    }
}

/// `first_nl` points at the first newline: it is in range exactly when a
/// newline exists, and no earlier byte is a newline.
pub proof fn lemma_first_nl(s: Seq<u8>)
    ensures
        0 <= first_nl(s) <= s.len(),
        has_newline(s) ==> first_nl(s) < s.len() && s[first_nl(s)] == 10u8,
        forall|j: int| 0 <= j < first_nl(s) ==> s[j] != 10u8,
        !has_newline(s) ==> first_nl(s) == s.len(),
    decreases s.len(),
{
    if s.len() == 0 {
        assert(!has_newline(s));
    } else if s[0] == 10u8 {
        assert(has_newline(s));
    } else {
        lemma_first_nl(s.skip(1));
        assert(forall|j: int| 0 <= j < s.skip(1).len() ==> s.skip(1)[j] == s[j + 1]);
        if has_newline(s) {
            let i = choose|i: int| 0 <= i < s.len() && s[i] == 10u8;
            assert(s.skip(1)[i - 1] == 10u8);
            assert(has_newline(s.skip(1)));
        }
        if has_newline(s.skip(1)) {
            let i = choose|i: int| 0 <= i < s.skip(1).len() && s.skip(1)[i] == 10u8;
            assert(s[i + 1] == 10u8);
            assert(has_newline(s));
        }
        assert forall|j: int| 0 <= j < first_nl(s) implies s[j] != 10u8 by {
            if j >= 1 {
                assert(s.skip(1)[j - 1] == s[j]);
            }
        }
    }
}

/// `first_nl` is the unique index with the first-newline properties.
pub proof fn lemma_first_nl_unique(s: Seq<u8>, i: int)
    requires
        0 <= i < s.len(),
        s[i] == 10u8,
        forall|j: int| 0 <= j < i ==> s[j] != 10u8,
    ensures
        first_nl(s) == i,
{
    lemma_first_nl(s);
    assert(has_newline(s));
    if first_nl(s) < i {
        assert(s[first_nl(s)] != 10u8);
    }
}

/// The complete, newline-terminated lines of `s`, in order, without their
/// terminators.
pub open spec fn complete_lines(s: Seq<u8>) -> Seq<Seq<u8>>
    decreases s.len(),
    via complete_lines_dec
{
    if !has_newline(s) {
        Seq::empty()
    } else {
        seq![s.take(first_nl(s))] + complete_lines(s.skip(first_nl(s) + 1))
    }
}

#[via_fn]
proof fn complete_lines_dec(s: Seq<u8>) {
    lemma_first_nl(s);
}

/// What remains of `s` after its last complete line: the trailing
/// unterminated fragment.
pub open spec fn line_rest(s: Seq<u8>) -> Seq<u8>
    decreases s.len(),
    via line_rest_dec
{
    if !has_newline(s) {
        s
    } else {
        line_rest(s.skip(first_nl(s) + 1))
    }
}

#[via_fn]
proof fn line_rest_dec(s: Seq<u8>) {
    lemma_first_nl(s);
}

/// The trailing fragment never holds a newline.
pub proof fn lemma_rest_no_newline(s: Seq<u8>)
    ensures
        !has_newline(line_rest(s)),
    decreases s.len(),
{
    if has_newline(s) {
        lemma_first_nl(s);
        lemma_rest_no_newline(s.skip(first_nl(s) + 1));
    }
}

/// Splitting is insensitive to chunk boundaries: feeding `a` and then `b`
/// recovers exactly the lines of `a + b`, and leaves the same fragment.
pub proof fn lemma_split_append(a: Seq<u8>, b: Seq<u8>)
    ensures
        complete_lines(a + b) == complete_lines(a) + complete_lines(line_rest(a) + b),
        line_rest(a + b) == line_rest(line_rest(a) + b),
    decreases a.len(),
{
    if !has_newline(a) {
        assert(line_rest(a) == a);
        assert(complete_lines(a) =~~= Seq::<Seq<u8>>::empty());
        assert(complete_lines(a) + complete_lines(a + b) =~~= complete_lines(a + b));
    } else {
        lemma_first_nl(a);
        let i = first_nl(a);
        assert((a + b)[i] == 10u8);
        assert(forall|j: int| 0 <= j < i ==> (a + b)[j] == a[j] && (a + b)[j] != 10u8);
        lemma_first_nl_unique(a + b, i);
        assert(has_newline(a + b));
        assert((a + b).take(i) =~= a.take(i));
        assert((a + b).skip(i + 1) =~= a.skip(i + 1) + b);
        lemma_split_append(a.skip(i + 1), b);
        assert(complete_lines(a + b) == seq![a.take(i)] + complete_lines(a.skip(i + 1) + b));
        assert(seq![a.take(i)] + (complete_lines(a.skip(i + 1)) + complete_lines(
            line_rest(a.skip(i + 1)) + b,
        )) =~~= (seq![a.take(i)] + complete_lines(a.skip(i + 1))) + complete_lines(
            line_rest(a.skip(i + 1)) + b,
        ));
        assert(line_rest(a) == line_rest(a.skip(i + 1)));
    }
}

/// Absorbing one more byte: a non-newline byte extends the fragment and
/// completes no line; a newline turns the fragment into a complete line.
pub proof fn lemma_lines_snoc(s: Seq<u8>, byte: u8)
    ensures
        byte != 10u8 ==> complete_lines(s.push(byte)) == complete_lines(s) && line_rest(
            s.push(byte),
        ) == line_rest(s).push(byte),
        byte == 10u8 ==> complete_lines(s.push(byte)) == complete_lines(s).push(line_rest(s))
            && line_rest(s.push(byte)) == Seq::<u8>::empty(),
{
    let one = seq![byte];
    assert(s.push(byte) =~= s + one);
    lemma_split_append(s, one);
    lemma_rest_no_newline(s);
    let r = line_rest(s);
    let t = r + one;
    if byte != 10u8 {
        assert forall|i: int| 0 <= i < t.len() implies t[i] != 10u8 by {
            if i < r.len() {
                assert(t[i] == r[i]);
            }
        }
        assert(!has_newline(t));
        assert(complete_lines(s) + complete_lines(t) =~~= complete_lines(s));
        assert(line_rest(t) == t);
        assert(line_rest(s).push(byte) =~= t);
    } else {
        assert(t[r.len() as int] == 10u8);
        assert(forall|j: int| 0 <= j < r.len() ==> t[j] == r[j] && t[j] != 10u8);
        lemma_first_nl_unique(t, r.len() as int);
        assert(has_newline(t));
        lemma_lines_empty();
        let e = Seq::<u8>::empty();
        assert(t.skip(r.len() as int + 1) =~= e);
        assert(complete_lines(t) == seq![t.take(r.len() as int)] + complete_lines(e));
        assert(t.take(r.len() as int) =~= r);
        assert(complete_lines(t) =~~= seq![r]);
        assert(complete_lines(s) + seq![r] =~~= complete_lines(s).push(r));
        assert(line_rest(t) == line_rest(e));
    }
}

/// The empty byte sequence holds no line and no fragment.
pub proof fn lemma_lines_empty()
    ensures
        complete_lines(Seq::<u8>::empty()) == Seq::<Seq<u8>>::empty(),
        line_rest(Seq::<u8>::empty()) == Seq::<u8>::empty(),
{
    assert(!has_newline(Seq::<u8>::empty()));
}

} // verus!
