//! Vocabulary for sequences that are taken apart at a delimiter: the position
//! of its first occurrence, what stands before and after it, the pieces
//! between its occurrences, and the scans that compute them on text.

use vstd::prelude::*;
use vstd::std_specs::iter::IteratorSpec;

verus! {

/// Taken on trust from the documentation of `String::push` in std: the call
/// appends the given character to the end of the string and changes nothing
/// else of it.
pub assume_specification[ String::push ](s: &mut String, ch: char)
    ensures
        final(s)@ == old(s)@.push(ch),
;

/// Position of the first `x` in `s`; `s.len()` where `s` holds none.
pub open spec fn index_of<T>(s: Seq<T>, x: T) -> int
    decreases s.len(),
{
    if s.len() == 0 || s[0] == x {
        0
    } else {
        1 + index_of(s.drop_first(), x)
    }
}

/// Whether `x` occurs in `s`.
pub open spec fn occurs<T>(s: Seq<T>, x: T) -> bool {
    index_of(s, x) < s.len()
}

/// What stands in `s` before the first `x`; all of `s` where it holds none.
pub open spec fn before<T>(s: Seq<T>, x: T) -> Seq<T> {
    s.take(index_of(s, x))
}

/// What stands in `s` after the first `x`; nothing where it holds none.
pub open spec fn after<T>(s: Seq<T>, x: T) -> Seq<T> {
    if occurs(s, x) {
        s.skip(index_of(s, x) + 1)
    } else {
        Seq::empty()
    }
}

/// The pieces of `s` between the occurrences of `x`. There is always at least
/// one piece, and a piece may be empty.
pub open spec fn split<T>(s: Seq<T>, x: T) -> Seq<Seq<T>>
    decreases s.len(),
{
    if occurs(s, x) {
        proof {
            lemma_index_of(s, x);
        }
        seq![before(s, x)] + split(after(s, x), x)
    } else {
        seq![s]
    }
}

/// Whether `pat` stands in `s` at position `i`.
pub open spec fn occurs_at(s: Seq<char>, pat: Seq<char>, i: int) -> bool {
    0 <= i && i + pat.len() <= s.len() && s.subrange(i, i + pat.len()) == pat
}

/// Whether `pat` stands somewhere in `s`.
pub open spec fn contains_text(s: Seq<char>, pat: Seq<char>) -> bool {
    exists|i: int| #[trigger] occurs_at(s, pat, i)
}

/// `index_of` is within the sequence, nothing before it is `x`, and where it
/// is short of the end it points at an `x`.
pub proof fn lemma_index_of<T>(s: Seq<T>, x: T)
    ensures
        0 <= index_of(s, x) <= s.len(),
        forall|j: int| 0 <= j < index_of(s, x) ==> s[j] != x,
        occurs(s, x) ==> s[index_of(s, x)] == x,
        occurs(s, x) <==> s.contains(x),
    decreases s.len(),
{
    if s.len() == 0 || s[0] == x {
        if s.len() > 0 {
            assert(s.contains(x));
        }
    } else {
        let t = s.drop_first();
        lemma_index_of(t, x);
        assert forall|j: int| 0 <= j < index_of(s, x) implies s[j] != x by {
            if j > 0 {
                assert(s[j] == t[j - 1]);
            }
        }
        if occurs(t, x) {
            assert(s[index_of(s, x)] == t[index_of(t, x)]);
            assert(s.contains(x));
        }
        if s.contains(x) {
            let k = choose|k: int| 0 <= k < s.len() && s[k] == x;
            assert(t[k - 1] == x);
            assert(t.contains(x));
        }
    }
}

/// A position with nothing but other elements before it, and `x` at it unless
/// it is the end, is the one that `index_of` names.
pub proof fn lemma_index_of_unique<T>(s: Seq<T>, x: T, i: int)
    requires
        0 <= i <= s.len(),
        forall|j: int| 0 <= j < i ==> s[j] != x,
        i < s.len() ==> s[i] == x,
    ensures
        index_of(s, x) == i,
{
    lemma_index_of(s, x);
    let k = index_of(s, x);
    if k < i {
        assert(s[k] == x);
    } else if i < k {
        assert(s[i] == x);
    }
}

/// A sequence that holds an `x` splits into what stands before the first one,
/// followed by the pieces of what stands after it.
pub proof fn lemma_split_some<T>(s: Seq<T>, x: T)
    requires
        occurs(s, x),
    ensures
        split(s, x) == seq![before(s, x)] + split(after(s, x), x),
        split(s, x)[0] == before(s, x),
        split(s, x).len() == 1 + split(after(s, x), x).len(),
        split(s, x).drop_first() == split(after(s, x), x),
{
    let rest = split(after(s, x), x);
    assert((seq![before(s, x)] + rest).drop_first() =~= rest);
}

/// There is always a first piece, and it is what stands before the first `x`.
pub proof fn lemma_split_first<T>(s: Seq<T>, x: T)
    ensures
        split(s, x).len() >= 1,
        split(s, x)[0] == before(s, x),
        split(s, x).len() >= 2 <==> occurs(s, x),
    decreases s.len(),
{
    lemma_index_of(s, x);
    if occurs(s, x) {
        lemma_split_first(after(s, x), x);
    } else {
        assert(before(s, x) =~= s);
    }
}

/// One more element at the end that is no `x` goes to the end of the last
/// piece; the other pieces stay.
pub proof fn lemma_split_push_other<T>(s: Seq<T>, x: T, y: T)
    requires
        y != x,
    ensures
        split(s.push(y), x) == split(s, x).drop_last().push(split(s, x).last().push(y)),
    decreases s.len(),
{
    lemma_index_of(s, x);
    let longer = s.push(y);
    if occurs(s, x) {
        let i = index_of(s, x);
        lemma_index_of_unique(longer, x, i);
        assert(before(longer, x) =~= before(s, x));
        assert(after(longer, x) =~= after(s, x).push(y));
        lemma_split_push_other(after(s, x), x, y);
        lemma_split_first(after(s, x), x);
        let tail = split(after(s, x), x);
        assert(split(longer, x) =~= (seq![before(s, x)] + tail).drop_last().push(
            tail.last().push(y),
        ));
    } else {
        lemma_index_of_unique(longer, x, longer.len() as int);
        assert(split(s, x).drop_last().push(s.push(y)) =~= seq![longer]);
    }
}

/// One more `x` at the end closes the last piece and opens an empty one.
pub proof fn lemma_split_push_same<T>(s: Seq<T>, x: T)
    ensures
        split(s.push(x), x) == split(s, x).push(Seq::empty()),
    decreases s.len(),
{
    lemma_index_of(s, x);
    let longer = s.push(x);
    let i = index_of(s, x);
    lemma_index_of_unique(longer, x, i);
    assert(before(longer, x) =~= before(s, x));
    if occurs(s, x) {
        assert(after(longer, x) =~= after(s, x).push(x));
        lemma_split_push_same(after(s, x), x);
        let tail = split(after(s, x), x);
        assert(split(longer, x) =~= (seq![before(s, x)] + tail).push(Seq::empty()));
    } else {
        assert(before(s, x) =~= s);
        assert(after(longer, x) =~= Seq::<T>::empty());
        assert(split(Seq::<T>::empty(), x) =~= seq![Seq::<T>::empty()]);
        assert(split(longer, x) =~= seq![s].push(Seq::empty()));
    }
}

/// The characters of `s`, in a vector.
pub(crate) fn to_chars(s: &str) -> (v: Vec<char>)
    ensures
        v@ == s@,
{
    let mut v: Vec<char> = Vec::new();
    let mut it = s.chars();
    loop
        invariant
            it.obeys_prophetic_iter_laws(),
            v@ + it.remaining() == s@,
        ensures
            v@ == s@,
        decreases s@.len() - v@.len(),
    {
        match it.next() {
            Some(c) => {
                v.push(c);
                assert(v@ + it.remaining() =~= s@);
            },
            None => {
                assert(v@ =~= s@);
                break ;
            },
        }
    }
    v
}

/// The characters `v[from..to]` as a string.
pub(crate) fn string_of(v: &Vec<char>, from: usize, to: usize) -> (s: String)
    requires
        from <= to <= v.len(),
    ensures
        s@ == v@.subrange(from as int, to as int),
{
    let mut s = String::new();
    let mut i: usize = from;
    while i < to
        invariant
            from <= i <= to <= v.len(),
            s@ == v@.subrange(from as int, i as int),
        decreases to - i,
    {
        s.push(v[i]);
        i += 1;
        assert(s@ =~= v@.subrange(from as int, i as int));
    }
    s
}

/// The first position in `v[from..to]` that holds `c`, or `to`.
pub(crate) fn find(v: &Vec<char>, c: char, from: usize, to: usize) -> (at: usize)
    requires
        from <= to <= v.len(),
    ensures
        from <= at <= to,
        at - from == index_of(v@.subrange(from as int, to as int), c),
        at < to <==> occurs(v@.subrange(from as int, to as int), c),
        v@.subrange(from as int, at as int) == before(v@.subrange(from as int, to as int), c),
        at < to ==> v@.subrange(at + 1, to as int) == after(
            v@.subrange(from as int, to as int),
            c,
        ),
{
    let mut i: usize = from;
    while i < to && v[i] != c
        invariant
            from <= i <= to <= v.len(),
            forall|j: int| from <= j < i ==> v@[j] != c,
        decreases to - i,
    {
        i += 1;
    }
    proof {
        let sub = v@.subrange(from as int, to as int);
        lemma_index_of_unique(sub, c, i - from);
        assert(v@.subrange(from as int, i as int) =~= before(sub, c));
        if i < to {
            assert(v@.subrange(i + 1, to as int) =~= after(sub, c));
        }
    }
    i
}

/// Whether `pat` stands in `hay` at position `at`.
pub(crate) fn matches_at(hay: &Vec<char>, pat: &Vec<char>, at: usize) -> (r: bool)
    requires
        at + pat.len() <= hay.len(),
    ensures
        r == occurs_at(hay@, pat@, at as int),
{
    let mut k: usize = 0;
    while k < pat.len()
        invariant
            k <= pat.len(),
            at + pat.len() <= hay.len(),
            forall|j: int| 0 <= j < k ==> hay@[at + j] == pat@[j],
        decreases pat.len() - k,
    {
        if hay[at + k] != pat[k] {
            proof {
                let sub = hay@.subrange(at as int, at + pat.len());
                assert(sub[k as int] != pat@[k as int]);
            }
            return false;
        }
        k += 1;
    }
    assert(hay@.subrange(at as int, at + pat.len()) =~= pat@);
    true
}

/// Whether `pat` stands somewhere in `hay`.
pub(crate) fn contains(hay: &Vec<char>, pat: &Vec<char>) -> (r: bool)
    ensures
        r == contains_text(hay@, pat@),
{
    if pat.len() > hay.len() {
        return false;
    }
    let last: usize = hay.len() - pat.len();
    let mut i: usize = 0;
    loop
        invariant
            pat.len() <= hay.len(),
            last == hay.len() - pat.len(),
            i <= last,
            forall|j: int| 0 <= j < i ==> !occurs_at(hay@, pat@, j),
        decreases last - i,
    {
        if matches_at(hay, pat, i) {
            return true;
        }
        if i == last {
            return false;
        }
        i += 1;
    }
}

/// Whether `v[from..to]` spells `word`.
pub(crate) fn range_is(v: &Vec<char>, from: usize, to: usize, word: &str) -> (r: bool)
    requires
        from <= to <= v.len(),
    ensures
        r == (v@.subrange(from as int, to as int) == word@),
{
    let w = to_chars(word);
    if to - from != w.len() {
        return false;
    }
    matches_at(v, &w, from)
}

} // verus!
