//! Words of the free group on the puncture labels, and their reduction.
//!
//! A word is a sequence of letters. A label in lower case stands for one
//! winding sense around its puncture, the same label in upper case for the
//! other, so the two are inverse to each other and cancel where they meet.

use vstd::prelude::*;

verus! {

/// The upper-case form of an ASCII letter; any other character is its own.
pub open spec fn upper(c: char) -> char {
    if 'a' <= c && c <= 'z' {
        ((c as int) - 32) as char
    } else {
        c
    }
}

/// The lower-case form of an ASCII letter; any other character is its own.
pub open spec fn lower(c: char) -> char {
    if 'A' <= c && c <= 'Z' {
        ((c as int) + 32) as char
    } else {
        c
    }
}

/// Two letters are inverse when they are the same label in opposite case.
pub open spec fn inverse(a: char, b: char) -> bool {
    a != b && upper(a) == upper(b)
}

/// The letters at `i` and `i + 1` of `w` are inverse to each other.
pub open spec fn pair_at(w: Seq<char>, i: int) -> bool {
    0 <= i && i + 1 < w.len() && inverse(w[i], w[i + 1])
}

/// No two neighbours in `w` are inverse to each other.
pub open spec fn reduced(w: Seq<char>) -> bool {
    forall|i: int| !#[trigger] pair_at(w, i)
}

/// The position of the leftmost inverse pair of `w` at or after `from`.
pub open spec fn first_pair(w: Seq<char>, from: int) -> Option<int>
    decreases w.len() - from,
{
    if from < 0 || from + 1 >= w.len() {
        None
    } else if inverse(w[from], w[from + 1]) {
        Some(from)
    } else {
        first_pair(w, from + 1)
    }
}

/// `w` without the two letters at `i` and `i + 1`.
pub open spec fn cancel_at(w: Seq<char>, i: int) -> Seq<char> {
    w.subrange(0, i) + w.subrange(i + 2, w.len() as int)
}

/// The reduced form of `w`: the leftmost inverse pair is deleted, again and
/// again, until none is left. The bounds on the pair's position always hold;
/// they stand here to show that the word gets shorter.
pub open spec fn reduce(w: Seq<char>) -> Seq<char>
    decreases w.len(),
{
    match first_pair(w, 0) {
        Some(i) => if 0 <= i && i + 2 <= w.len() {
            reduce(cancel_at(w, i))
        } else {
            w
        },
        None => w,
    }
}

/// What `first_pair` finds is an inverse pair with none before it, and where
/// it finds nothing there is none.
pub proof fn lemma_first_pair(w: Seq<char>, from: int)
    requires
        0 <= from,
    ensures
        (match first_pair(w, from) {
            Some(i) => from <= i && pair_at(w, i) && forall|j: int|
                from <= j < i ==> !#[trigger] pair_at(w, j),
            None => forall|j: int| from <= j ==> !#[trigger] pair_at(w, j),
        }),
    decreases w.len() - from,
{
    if from + 1 < w.len() && !inverse(w[from], w[from + 1]) {
        lemma_first_pair(w, from + 1);
    }
}

/// An inverse pair with none between `from` and itself is the one that
/// `first_pair` finds.
pub proof fn lemma_first_pair_is(w: Seq<char>, from: int, i: int)
    requires
        0 <= from <= i,
        pair_at(w, i),
        forall|j: int| from <= j < i ==> !#[trigger] pair_at(w, j),
    ensures
        first_pair(w, from) == Some(i),
    decreases i - from,
{
    if from < i {
        assert(!pair_at(w, from));
        lemma_first_pair_is(w, from + 1, i);
    }
}

/// A reduced form holds no inverse pair.
pub proof fn lemma_reduce_is_reduced(w: Seq<char>)
    ensures
        reduced(reduce(w)),
    decreases w.len(),
{
    lemma_first_pair(w, 0);
    match first_pair(w, 0) {
        Some(i) => {
            lemma_reduce_is_reduced(cancel_at(w, i));
        },
        None => {},
    }
}

/// Reduction leaves a word without inverse pairs as it is.
pub proof fn lemma_reduce_fixes_reduced(w: Seq<char>)
    requires
        reduced(w),
    ensures
        reduce(w) == w,
{
    lemma_first_pair(w, 0);
    if let Some(i) = first_pair(w, 0) {
        assert(pair_at(w, i));
    }
}

/// Reducing a word a second time changes nothing.
pub proof fn lemma_reduce_idempotent(w: Seq<char>)
    ensures
        reduce(reduce(w)) == reduce(w),
{
    lemma_reduce_is_reduced(w);
    lemma_reduce_fixes_reduced(reduce(w));
}

/// Reduction never lengthens a word, and it keeps the length's parity.
pub proof fn lemma_reduce_len(w: Seq<char>)
    ensures
        reduce(w).len() <= w.len(),
        (w.len() - reduce(w).len()) % 2 == 0,
    decreases w.len(),
{
    lemma_first_pair(w, 0);
    if let Some(i) = first_pair(w, 0) {
        lemma_reduce_len(cancel_at(w, i));
    }
}

/// A letter has one inverse at most: the letters on both sides of it are
/// equal where each of them is inverse to it.
pub proof fn lemma_inverse_is_unique(a: char, b: char, c: char)
    requires
        inverse(a, b),
        inverse(b, c),
    ensures
        a == c,
{
}

/// It does not matter which inverse pair is struck out first: the reduced
/// form of a word is that of the word without any one of its inverse pairs.
pub proof fn lemma_cancel_anywhere(w: Seq<char>, i: int)
    requires
        pair_at(w, i),
    ensures
        reduce(cancel_at(w, i)) == reduce(w),
    decreases w.len(),
{
    lemma_first_pair(w, 0);
    let j = first_pair(w, 0).unwrap();
    if j != i {
        assert(j < i) by {
            if i < j {
                assert(!pair_at(w, i));
            }
        }
        if j == i - 1 {
            lemma_inverse_is_unique(w[i - 1], w[i], w[i + 1]);
            assert(cancel_at(w, i) =~= cancel_at(w, j));
        } else {
            let u = cancel_at(w, i);
            let v = cancel_at(w, j);
            assert(pair_at(u, j));
            assert forall|k: int| 0 <= k < j implies !#[trigger] pair_at(u, k) by {
                assert(!pair_at(w, k));
            }
            lemma_first_pair_is(u, 0, j);
            assert(pair_at(v, i - 2));
            assert(cancel_at(u, j) =~= cancel_at(v, i - 2));
            lemma_cancel_anywhere(v, i - 2);
        }
    }
}

/// A word may be reduced piece by piece: reducing its front first does not
/// change its reduced form.
pub proof fn lemma_reduce_front(u: Seq<char>, v: Seq<char>)
    ensures
        reduce(reduce(u) + v) == reduce(u + v),
    decreases u.len(),
{
    lemma_first_pair(u, 0);
    if let Some(j) = first_pair(u, 0) {
        assert(pair_at(u + v, j));
        lemma_cancel_anywhere(u + v, j);
        assert(cancel_at(u + v, j) =~= cancel_at(u, j) + v);
        lemma_reduce_front(cancel_at(u, j), v);
    }
}

/// A word may be reduced piece by piece: reducing its back first does not
/// change its reduced form.
pub proof fn lemma_reduce_back(u: Seq<char>, v: Seq<char>)
    ensures
        reduce(u + reduce(v)) == reduce(u + v),
    decreases v.len(),
{
    lemma_first_pair(v, 0);
    if let Some(j) = first_pair(v, 0) {
        assert(pair_at(u + v, u.len() + j));
        lemma_cancel_anywhere(u + v, u.len() + j);
        assert(cancel_at(u + v, u.len() + j) =~= u + cancel_at(v, j));
        lemma_reduce_back(u, cancel_at(v, j));
    }
}

/// Where a reduced prefix ends in the inverse of the letter that follows it,
/// the two can be struck out before the rest is reduced.
proof fn lemma_cancel_seam(s: Seq<char>, rest: Seq<char>)
    requires
        reduced(s),
        s.len() > 0,
        rest.len() > 0,
        inverse(s.last(), rest[0]),
    ensures
        reduce(s + rest) == reduce(s.drop_last() + rest.drop_first()),
{
    let w = s + rest;
    let i = s.len() - 1;
    assert(pair_at(w, i));
    assert forall|j: int| 0 <= j < i implies !#[trigger] pair_at(w, j) by {
        assert(!pair_at(s, j));
    }
    lemma_first_pair_is(w, 0, i);
    assert(cancel_at(w, i) =~= s.drop_last() + rest.drop_first());
}

/// A reduced prefix stays reduced when a letter that is not the inverse of
/// its last one is put behind it.
proof fn lemma_push_keeps_reduced(s: Seq<char>, c: char)
    requires
        reduced(s),
        s.len() > 0 ==> !inverse(s.last(), c),
    ensures
        reduced(s.push(c)),
{
    assert forall|j: int| !#[trigger] pair_at(s.push(c), j) by {
        if 0 <= j && j + 1 < s.len() {
            assert(!pair_at(s, j));
        }
    }
}

/// Upper-cases an ASCII letter and leaves every other character alone.
pub fn to_upper(c: char) -> (r: char)
    ensures
        r == upper(c),
{
    if 'a' <= c && c <= 'z' {
        ((c as u8) - 32u8) as char
    } else {
        c
    }
}

/// Lower-cases an ASCII letter and leaves every other character alone.
pub fn to_lower(c: char) -> (r: char)
    ensures
        r == lower(c),
{
    if 'A' <= c && c <= 'Z' {
        ((c as u8) + 32u8) as char
    } else {
        c
    }
}

/// Tells whether two letters are the same label in opposite case.
pub fn is_inverse(a: char, b: char) -> (r: bool)
    ensures
        r == inverse(a, b),
{
    a != b && to_upper(a) == to_upper(b)
}

/// Reduces a word given as a vector of letters.
///
/// One pass with a stack: a letter that is the inverse of the stack's top
/// takes the top away, any other letter goes on top.
pub fn reduce_letters(w: &Vec<char>) -> (r: Vec<char>)
    ensures
        r@ == reduce(w@),
{
    let mut stack: Vec<char> = Vec::new();
    let mut k: usize = 0;
    proof {
        assert(stack@ + w@.subrange(0, w@.len() as int) =~= w@);
    }
    while k < w.len()
        invariant
            k <= w.len(),
            reduced(stack@),
            reduce(stack@ + w@.subrange(k as int, w@.len() as int)) == reduce(w@),
        decreases w.len() - k,
    {
        let c = w[k];
        let n = stack.len();
        let ghost rest = w@.subrange(k as int, w@.len() as int);
        let ghost before = stack@;
        if n > 0 && is_inverse(stack[n - 1], c) {
            proof {
                lemma_cancel_seam(before, rest);
                assert(rest.drop_first() =~= w@.subrange(k + 1, w@.len() as int));
                assert forall|j: int| !#[trigger] pair_at(before.drop_last(), j) by {
                    assert(!pair_at(before, j));
                }
            }
            stack.pop();
        } else {
            proof {
                lemma_push_keeps_reduced(before, c);
                assert(before.push(c) + w@.subrange(k + 1, w@.len() as int) =~= before + rest);
            }
            stack.push(c);
        }
        k += 1;
    }
    proof {
        assert(stack@ + w@.subrange(k as int, w@.len() as int) =~= stack@);
        lemma_reduce_fixes_reduced(stack@);
    }
    stack
}

/// `String::push` puts one character at the end of the string and leaves the
/// characters before it as they were.
pub assume_specification[ String::push ](s: &mut String, c: char)
    ensures
        final(s)@ == old(s)@.push(c),
;

/// The letters of a string, in order.
pub fn letters_of(s: &str) -> (v: Vec<char>)
    ensures
        v@ == s@,
{
    let mut v: Vec<char> = Vec::new();
    for c in it: s.chars()
        invariant
            it.seq() == s@,
            v@ == it.seq().take(it.index() as int),
    {
        v.push(c);
    }
    v
}

/// The string that spells the given letters.
pub fn string_of(letters: &Vec<char>) -> (s: String)
    ensures
        s@ == letters@,
{
    let mut s = String::new();
    let mut k: usize = 0;
    while k < letters.len()
        invariant
            k <= letters.len(),
            s@ == letters@.take(k as int),
        decreases letters.len() - k,
    {
        s.push(letters[k]);
        k += 1;
        proof {
            assert(letters@.take(k as int) =~= letters@.take(k - 1).push(letters@[k - 1]));
        }
    }
    proof {
        assert(letters@.take(k as int) =~= letters@);
    }
    s
}

/// Reduces a word in place: neighbours that are the same label in opposite
/// case are struck out until none is left. Letters are compared as whole
/// characters, so a label outside ASCII is never split.
pub fn simplify_word(word: &mut String)
    ensures
        final(word)@ == reduce(old(word)@),
        reduced(final(word)@),
{
    let letters = letters_of(word.as_str());
    let kept = reduce_letters(&letters);
    proof {
        lemma_reduce_is_reduced(letters@);
    }
    *word = string_of(&kept);
}

} // verus!
