//! Facts about filtered sequences.

use vstd::prelude::*;

verus! {

/// What a filtered sequence holds: the items of the sequence that pass the
/// test.
pub proof fn lemma_filter_members<A>(s: Seq<A>, keep: spec_fn(A) -> bool)
    ensures
        forall|x: A| #[trigger] s.filter(keep).contains(x) <==> s.contains(x) && keep(x),
    decreases s.len(),
{
    reveal(Seq::filter);
    if s.len() > 0 {
        let rest = s.drop_last();
        let last = s.last();
        lemma_filter_members(rest, keep);
        assert forall|x: A| #[trigger] s.filter(keep).contains(x) <==> s.contains(x) && keep(x) by {
            if s.filter(keep).contains(x) {
                let i = choose|i: int| 0 <= i < s.filter(keep).len() && s.filter(keep)[i] == x;
                if i < rest.filter(keep).len() {
                    assert(rest.filter(keep).contains(x));
                    let k = choose|k: int| 0 <= k < rest.len() && rest[k] == x;
                    assert(s[k] == x);
                } else {
                    assert(s[s.len() - 1] == x);
                }
            }
            if s.contains(x) && keep(x) {
                let k = choose|k: int| 0 <= k < s.len() && s[k] == x;
                if k < rest.len() {
                    assert(rest[k] == x);
                    assert(rest.filter(keep).contains(x));
                    let i = choose|i: int|
                        0 <= i < rest.filter(keep).len() && rest.filter(keep)[i] == x;
                    assert(s.filter(keep)[i] == x);
                } else {
                    assert(s.filter(keep)[s.filter(keep).len() - 1] == x);
                }
            }
        }
    }
}

/// Filtering by a test and by its opposite parts a sequence in two.
pub proof fn lemma_filter_parts<A>(s: Seq<A>, yes: spec_fn(A) -> bool, no: spec_fn(A) -> bool)
    requires
        forall|x: A| #[trigger] no(x) == !yes(x),
    ensures
        s.filter(yes).len() + s.filter(no).len() == s.len(),
    decreases s.len(),
{
    reveal(Seq::filter);
    if s.len() > 0 {
        lemma_filter_parts(s.drop_last(), yes, no);
        assert(no(s.last()) == !yes(s.last()));
    }
}

/// Filtering twice by the same test is filtering once.
pub proof fn lemma_filter_twice<A>(s: Seq<A>, keep: spec_fn(A) -> bool)
    ensures
        s.filter(keep).filter(keep) == s.filter(keep),
    decreases s.len(),
{
    reveal(Seq::filter);
    if s.len() > 0 {
        lemma_filter_twice(s.drop_last(), keep);
        if keep(s.last()) {
            s.drop_last().filter(keep).lemma_filter_push(s.last(), keep);
        }
    }
}

/// Filtering a sequence without repeated items leaves one without repeated
/// items.
pub proof fn lemma_filter_keeps_distinct<A>(s: Seq<A>, keep: spec_fn(A) -> bool)
    requires
        s.no_duplicates(),
    ensures
        s.filter(keep).no_duplicates(),
    decreases s.len(),
{
    reveal(Seq::filter);
    if s.len() > 0 {
        let rest = s.drop_last();
        let last = s.last();
        lemma_filter_keeps_distinct(rest, keep);
        lemma_filter_members(rest, keep);
        if keep(last) {
            let kept = rest.filter(keep);
            assert(!kept.contains(last)) by {
                if rest.contains(last) {
                    let k = choose|k: int| 0 <= k < rest.len() && rest[k] == last;
                    assert(s[k] == s[s.len() - 1]);
                }
            }
            assert forall|a: int, b: int|
                0 <= a < kept.push(last).len() && 0 <= b < kept.push(last).len() && a
                    != b implies kept.push(last)[a] != kept.push(last)[b] by {
                if a < kept.len() && b < kept.len() {
                    assert(kept[a] != kept[b]);
                } else if a < kept.len() {
                    assert(kept.contains(kept[a]));
                } else {
                    assert(kept.contains(kept[b]));
                }
            }
        }
    }
}

} // verus!
