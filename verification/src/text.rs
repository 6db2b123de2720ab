//! String helpers on the character view of `str` and `String`.
use vstd::prelude::*;

verus! {

/// `needle` occurs in `hay` starting at position `i`.
pub open spec fn occurs_at(hay: Seq<char>, needle: Seq<char>, i: int) -> bool {
    &&& 0 <= i
    &&& i + needle.len() <= hay.len()
    &&& hay.subrange(i, i + needle.len()) == needle
}

/// `needle` occurs somewhere in `hay` (the empty sequence occurs in every sequence).
pub open spec fn occurs_in(hay: Seq<char>, needle: Seq<char>) -> bool {
    exists|i: int| occurs_at(hay, needle, i)
}

/// A run placed anywhere inside a sequence occurs in it; a run longer than the
/// sequence never does; and an occurrence survives anything added around it.
pub proof fn lemma_occurs_in_meaning(front: Seq<char>, needle: Seq<char>, back: Seq<char>, hay: Seq<char>)
    ensures
        occurs_in(front + needle + back, needle),
        needle.len() > hay.len() ==> !occurs_in(hay, needle),
        occurs_in(hay, needle) ==> occurs_in(front + hay + back, needle),
{
    let whole = front + needle + back;
    assert(whole.subrange(front.len() as int, (front.len() + needle.len()) as int) =~= needle);
    assert(occurs_at(whole, needle, front.len() as int));
    if occurs_in(hay, needle) {
        let i = choose|i: int| occurs_at(hay, needle, i);
        let big = front + hay + back;
        assert(big.subrange(front.len() + i, front.len() + i + needle.len()) =~= hay.subrange(i, i + needle.len()));
        assert(occurs_at(big, needle, front.len() + i));
    }
}

/// Whether two strings hold the same characters.
pub fn str_eq(a: &str, b: &str) -> (res: bool)
    ensures
        res == (a@ == b@),
{
    let x: String = a.to_owned();
    let y: String = b.to_owned();
    x.eq(&y)
}

/// The characters of `s`, in order.
pub fn chars_of(s: &str) -> (res: Vec<char>)
    ensures
        res@ == s@,
{
    broadcast use vstd::string::axiom_spec_iter;

    let mut res: Vec<char> = Vec::new();
    for c in it: s.chars()
        invariant
            it.seq() == s@,
            res@ == it.seq().take(it.index() as int),
    {
        res.push(c);
        assert(res@ =~= it.seq().take(it.index() + 1));
    }
    assert(res@ =~= s@);
    res
}

/// Whether `needle` occurs as a contiguous run inside `hay`.
fn chars_contain(hay: &Vec<char>, needle: &Vec<char>) -> (res: bool)
    ensures
        res == occurs_in(hay@, needle@),
{
    let n: usize = needle.len();
    let h: usize = hay.len();
    if n == 0 {
        assert(hay@.subrange(0, 0) =~= needle@);
        assert(occurs_at(hay@, needle@, 0));
        return true;
    }
    if n > h {
        assert forall|i: int| !occurs_at(hay@, needle@, i) by {}
        return false;
    }
    let last: usize = h - n;
    let mut i: usize = 0;
    while i <= last
        invariant
            n == needle@.len(),
            h == hay@.len(),
            n > 0,
            last + n == h,
            i <= last + 1,
            forall|k: int| 0 <= k < i ==> !occurs_at(hay@, needle@, k),
        decreases last + 1 - i,
    {
        let mut j: usize = 0;
        let mut matched: bool = true;
        while j < n
            invariant
                n == needle@.len(),
                h == hay@.len(),
                i + n <= h,
                j <= n,
                matched ==> forall|m: int| 0 <= m < j ==> hay@[i + m] == needle@[m],
                !matched ==> !occurs_at(hay@, needle@, i as int),
            ensures
                matched ==> forall|m: int| 0 <= m < n ==> hay@[i + m] == needle@[m],
                !matched ==> !occurs_at(hay@, needle@, i as int),
            decreases n - j,
        {
            if hay[i + j] != needle[j] {
                assert(hay@.subrange(i as int, i + n)[j as int] == hay@[i + j]);
                matched = false;
                break;
            }
            j = j + 1;
        }
        if matched {
            assert(hay@.subrange(i as int, i + n) =~= needle@);
            assert(occurs_at(hay@, needle@, i as int));
            return true;
        }
        i = i + 1;
    }
    assert forall|k: int| !occurs_at(hay@, needle@, k) by {
        if 0 <= k < i {
        } else if k >= i {
            assert(k + n > h);
        }
    }
    false
}

/// Whether `needle` occurs as a substring of `hay`.
pub fn str_contains(hay: &str, needle: &str) -> (res: bool)
    ensures
        res == occurs_in(hay@, needle@),
{
    let h: Vec<char> = chars_of(hay);
    let n: Vec<char> = chars_of(needle);
    chars_contain(&h, &n)
}

/// The value bound to `key` in a list of name/value pairs: that of the first pair
/// whose name is `key`, or `None` where no pair has that name.
pub open spec fn first_value(pairs: Seq<(Seq<char>, Seq<char>)>, key: Seq<char>) -> Option<Seq<char>>
    decreases pairs.len(),
{
    if pairs.len() == 0 {
        None
    } else if pairs[0].0 == key {
        Some(pairs[0].1)
    } else {
        first_value(pairs.drop_first(), key)
    }
}

/// A found value, or the empty string where nothing was found.
pub open spec fn value_or_empty(v: Option<Seq<char>>) -> Seq<char> {
    match v {
        Some(s) => s,
        None => Seq::empty(),
    }
}

/// Stepping over a pair whose name differs from `key` does not change the lookup.
pub proof fn lemma_first_value_step(pairs: Seq<(Seq<char>, Seq<char>)>, key: Seq<char>, i: int)
    requires
        0 <= i < pairs.len(),
    ensures
        pairs[i].0 == key ==> first_value(pairs.skip(i), key) == Some(pairs[i].1),
        pairs[i].0 != key ==> first_value(pairs.skip(i), key) == first_value(pairs.skip(i + 1), key),
{
    assert(pairs.skip(i)[0] == pairs[i]);
    assert(pairs.skip(i).drop_first() =~= pairs.skip(i + 1));
}

/// The lookup finds the value of the first pair named `key`.
pub proof fn lemma_first_value_at(pairs: Seq<(Seq<char>, Seq<char>)>, key: Seq<char>, j: int)
    requires
        0 <= j < pairs.len(),
        pairs[j].0 == key,
        forall|k: int| 0 <= k < j ==> pairs[k].0 != key,
    ensures
        first_value(pairs, key) == Some(pairs[j].1),
    decreases j,
{
    if j > 0 {
        let rest = pairs.drop_first();
        assert(pairs[0].0 != key);
        assert forall|k: int| 0 <= k < j - 1 implies rest[k].0 != key by {
            assert(rest[k] == pairs[k + 1]);
        }
        lemma_first_value_at(rest, key, j - 1);
    }
}

/// Where no pair is named `key`, the lookup finds nothing.
pub proof fn lemma_first_value_none(pairs: Seq<(Seq<char>, Seq<char>)>, key: Seq<char>)
    requires
        forall|k: int| 0 <= k < pairs.len() ==> pairs[k].0 != key,
    ensures
        first_value(pairs, key) is None,
    decreases pairs.len(),
{
    if pairs.len() > 0 {
        let rest = pairs.drop_first();
        assert(pairs[0].0 != key);
        assert forall|k: int| 0 <= k < rest.len() implies rest[k].0 != key by {
            assert(rest[k] == pairs[k + 1]);
        }
        lemma_first_value_none(rest, key);
    }
}

/// Where some pair is named `key`, there is a first such pair.
pub proof fn lemma_first_match(pairs: Seq<(Seq<char>, Seq<char>)>, key: Seq<char>, k: int) -> (j: int)
    requires
        0 <= k < pairs.len(),
        pairs[k].0 == key,
    ensures
        0 <= j <= k,
        pairs[j].0 == key,
        forall|m: int| 0 <= m < j ==> pairs[m].0 != key,
    decreases k,
{
    if pairs[0].0 == key {
        0
    } else {
        let rest = pairs.drop_first();
        assert(rest[k - 1] == pairs[k]);
        let j0 = lemma_first_match(rest, key, k - 1);
        assert forall|m: int| 0 <= m < j0 + 1 implies pairs[m].0 != key by {
            if m > 0 {
                assert(pairs[m] == rest[m - 1]);
            }
        }
        j0 + 1
    }
}

/// What a lookup gives, in terms of the pairs alone: nothing exactly when no
/// pair is named `key`, and otherwise the value of the first pair so named.
pub proof fn lemma_first_value_meaning(pairs: Seq<(Seq<char>, Seq<char>)>, key: Seq<char>)
    ensures
        first_value(pairs, key) is None <==> (forall|k: int| 0 <= k < pairs.len() ==> pairs[k].0 != key),
        first_value(pairs, key) is Some ==> exists|j: int|
            0 <= j < pairs.len() && pairs[j].0 == key && (forall|m: int| 0 <= m < j ==> pairs[m].0 != key)
                && first_value(pairs, key) == Some(#[trigger] pairs[j].1),
{
    if forall|k: int| 0 <= k < pairs.len() ==> pairs[k].0 != key {
        lemma_first_value_none(pairs, key);
    } else {
        let k = choose|k: int| 0 <= k < pairs.len() && pairs[k].0 == key;
        let j = lemma_first_match(pairs, key, k);
        lemma_first_value_at(pairs, key, j);
    }
}

} // verus!
