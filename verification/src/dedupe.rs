//! Suppression of adjacent duplicates in a sequence.

use vstd::prelude::*;
use vstd::std_specs::cmp::PartialEqSpec;

verus! {

/// What is left of `s` when every element that equals the element just
/// before it is dropped. Of a run of equal elements only the first stays;
/// equal elements that are apart both stay.
pub open spec fn dedupe_seq<T: PartialEq>(s: Seq<T>) -> Seq<T>
    decreases s.len(),
{
    if s.len() <= 1 {
        s
    } else if s[s.len() - 2].eq_spec(&s.last()) {
        dedupe_seq(s.drop_last())
    } else {
        dedupe_seq(s.drop_last()).push(s.last())
    }
}

/// Whether no element of `s` equals the element just before it.
pub open spec fn no_adjacent_repeat<T: PartialEq>(s: Seq<T>) -> bool {
    forall|i: int| 0 < i < s.len() ==> !(#[trigger] s[i - 1]).eq_spec(&s[i])
}

/// Whether `==` on `T` holds of two values exactly when they are the same.
pub open spec fn eq_is_identity<T: PartialEq>() -> bool {
    forall|a: T, b: T| #[trigger] a.eq_spec(&b) <==> a == b
}

/// Drops every item that equals the item just before it, in one pass that
/// remembers only the item it saw last.
pub fn dedupe<T: PartialEq + Copy>(items: &Vec<T>) -> (kept: Vec<T>)
    ensures
        T::obeys_eq_spec() ==> kept@ == dedupe_seq(items@),
{
    let mut kept: Vec<T> = Vec::new();
    let mut last: Option<T> = None;
    let mut i: usize = 0;
    while i < items.len()
        invariant
            i <= items.len(),
            T::obeys_eq_spec() ==> kept@ == dedupe_seq(items@.take(i as int)),
            last == if i == 0 {
                None
            } else {
                Some(items@[i - 1])
            },
        decreases items.len() - i,
    {
        let item = items[i];
        let same = match last {
            Some(seen) => seen == item,
            None => false,
        };
        last = Some(item);
        if !same {
            kept.push(item);
        }
        proof {
            let next = items@.take(i + 1);
            assert(next.drop_last() == items@.take(i as int));
            assert(next.last() == item);
        }
        i += 1;
    }
    proof {
        assert(items@.take(items.len() as int) == items@);
    }
    kept
}

/// Deduplication keeps the first element and never lengthens a sequence.
pub proof fn lemma_dedupe_first<T: PartialEq>(s: Seq<T>)
    ensures
        dedupe_seq(s).len() <= s.len(),
        s.len() > 0 ==> dedupe_seq(s).len() > 0 && dedupe_seq(s)[0] == s[0],
    decreases s.len(),
{
    if s.len() > 1 {
        lemma_dedupe_first(s.drop_last());
    }
}

/// Where `==` is identity, deduplication keeps the value of the last
/// element.
pub proof fn lemma_dedupe_last<T: PartialEq>(s: Seq<T>)
    requires
        eq_is_identity::<T>(),
        s.len() > 0,
    ensures
        dedupe_seq(s).len() > 0,
        dedupe_seq(s).last() == s.last(),
    decreases s.len(),
{
    if s.len() > 1 {
        lemma_dedupe_last(s.drop_last());
    }
}

/// Where `==` is identity, no two neighbours in a deduplicated sequence
/// are equal.
pub proof fn lemma_dedupe_no_adjacent_repeat<T: PartialEq>(s: Seq<T>)
    requires
        eq_is_identity::<T>(),
    ensures
        no_adjacent_repeat(dedupe_seq(s)),
    decreases s.len(),
{
    if s.len() > 1 {
        let init = s.drop_last();
        lemma_dedupe_no_adjacent_repeat(init);
        lemma_dedupe_last(init);
    }
}

/// Where `==` is identity, a sequence without adjacent repeats holds no
/// value twice in a row.
pub proof fn lemma_no_adjacent_repeat_distinct<T: PartialEq>(s: Seq<T>)
    requires
        eq_is_identity::<T>(),
        no_adjacent_repeat(s),
    ensures
        forall|i: int| 0 < i < s.len() ==> s[i - 1] != #[trigger] s[i],
{
    assert forall|i: int| 0 < i < s.len() implies s[i - 1] != #[trigger] s[i] by {
        assert(!s[i - 1].eq_spec(&s[i]));
    }
}

/// Where `==` is identity, two neighbours in a deduplicated sequence are
/// neighbours in the sequence that it was made from.
pub proof fn lemma_dedupe_neighbours<T: PartialEq>(s: Seq<T>, j: int)
    requires
        eq_is_identity::<T>(),
        0 < j < dedupe_seq(s).len(),
    ensures
        exists|i: int|
            0 < i < s.len() && #[trigger] s[i] == dedupe_seq(s)[j] && s[i - 1] == dedupe_seq(s)[j
                - 1],
    decreases s.len(),
{
    if s.len() > 1 {
        let init = s.drop_last();
        let kept = dedupe_seq(init);
        lemma_dedupe_last(init);
        if j < kept.len() {
            lemma_dedupe_neighbours(init, j);
            let i = choose|i: int|
                0 < i < init.len() && #[trigger] init[i] == kept[j] && init[i - 1] == kept[j - 1];
            assert(s[i] == init[i] && s[i - 1] == init[i - 1]);
        } else {
            let i = s.len() - 1;
            assert(s[i] == dedupe_seq(s)[j]);
            assert(s[i - 1] == init.last());
        }
    }
}

/// A sequence without adjacent repeats is left as it is, so elements that
/// are equal but apart all stay.
pub proof fn lemma_dedupe_fixed<T: PartialEq>(s: Seq<T>)
    requires
        no_adjacent_repeat(s),
    ensures
        dedupe_seq(s) == s,
    decreases s.len(),
{
    if s.len() > 1 {
        let init = s.drop_last();
        assert forall|i: int| 0 < i < init.len() implies !(#[trigger] init[i - 1]).eq_spec(
            &init[i],
        ) by {
            assert(!s[i - 1].eq_spec(&s[i]));
        }
        lemma_dedupe_fixed(init);
        assert(!s[s.len() - 1 - 1].eq_spec(&s[s.len() - 1]));
        assert(init.push(s.last()) == s);
    }
}

/// Where `==` is identity, deduplicating twice is deduplicating once.
pub proof fn lemma_dedupe_idempotent<T: PartialEq>(s: Seq<T>)
    requires
        eq_is_identity::<T>(),
    ensures
        dedupe_seq(dedupe_seq(s)) == dedupe_seq(s),
{
    lemma_dedupe_no_adjacent_repeat(s);
    lemma_dedupe_fixed(dedupe_seq(s));
}

} // verus!
