//! Lists of identifiers in the order in which they were entered, each at
//! most once.

use vstd::prelude::*;

verus! {

/// `ids` without `id`, the rest in the order it had.
pub open spec fn without(ids: Seq<usize>, id: usize) -> Seq<usize>
    decreases ids.len(),
{
    if ids.len() == 0 {
        ids
    } else if ids.last() == id {
        without(ids.drop_last(), id)
    } else {
        without(ids.drop_last(), id).push(ids.last())
    }
}

/// What a list holds once one more identifier is added at its end.
pub proof fn lemma_push_contains(ids: Seq<usize>, id: usize)
    ensures
        forall|k: usize| #[trigger] ids.push(id).contains(k) <==> ids.contains(k) || k == id,
{
    let next = ids.push(id);
    assert forall|k: usize| #[trigger] next.contains(k) <==> ids.contains(k) || k == id by {
        if ids.contains(k) {
            let j = choose|j: int| 0 <= j < ids.len() && ids[j] == k;
            assert(next[j] == k);
        }
        if k == id {
            assert(next[ids.len() as int] == k);
        }
    }
}

/// Adding an identifier that a list does not hold keeps it free of
/// repetitions.
pub proof fn lemma_push_no_duplicates(ids: Seq<usize>, id: usize)
    requires
        ids.no_duplicates(),
        !ids.contains(id),
    ensures
        ids.push(id).no_duplicates(),
{
    let next = ids.push(id);
    assert forall|i: int, j: int| 0 <= i < next.len() && 0 <= j < next.len() && i != j implies next[i]
        != next[j] by {
        if i < ids.len() {
            assert(ids.contains(ids[i]));
        }
        if j < ids.len() {
            assert(ids.contains(ids[j]));
        }
    }
}

/// Taking an identifier out removes it and nothing else.
pub proof fn lemma_without_contains(ids: Seq<usize>, id: usize)
    ensures
        forall|k: usize| #[trigger] without(ids, id).contains(k) <==> ids.contains(k) && k != id,
    decreases ids.len(),
{
    if ids.len() == 0 {
    } else {
        let front = ids.drop_last();
        let last = ids.last();
        lemma_without_contains(front, id);
        assert(ids =~= front.push(last));
        lemma_push_contains(front, last);
        lemma_push_contains(without(front, id), last);
        assert forall|k: usize| #[trigger]
            without(ids, id).contains(k) <==> ids.contains(k) && k != id by {
            assert(ids.contains(k) <==> front.contains(k) || k == last);
            assert(without(front, id).contains(k) <==> front.contains(k) && k != id);
            if last != id {
                assert(without(ids, id) == without(front, id).push(last));
                assert(without(ids, id).contains(k) <==> without(front, id).contains(k) || k
                    == last);
            }
        }
    }
}

/// Taking an identifier out of a list that does not hold it changes
/// nothing.
pub proof fn lemma_without_absent(ids: Seq<usize>, id: usize)
    requires
        !ids.contains(id),
    ensures
        without(ids, id) == ids,
    decreases ids.len(),
{
    if ids.len() > 0 {
        let front = ids.drop_last();
        assert(ids =~= front.push(ids.last()));
        lemma_push_contains(front, ids.last());
        lemma_without_absent(front, id);
    }
}

/// Taking an identifier out keeps a list free of repetitions.
pub proof fn lemma_without_no_duplicates(ids: Seq<usize>, id: usize)
    requires
        ids.no_duplicates(),
    ensures
        without(ids, id).no_duplicates(),
    decreases ids.len(),
{
    if ids.len() > 0 {
        let front = ids.drop_last();
        assert(ids =~= front.push(ids.last()));
        assert forall|i: int, j: int| 0 <= i < front.len() && 0 <= j < front.len() && i
            != j implies front[i] != front[j] by {
            assert(front[i] == ids[i] && front[j] == ids[j]);
        }
        lemma_without_no_duplicates(front, id);
        if ids.last() != id {
            lemma_without_contains(front, id);
            if front.contains(ids.last()) {
                let j = choose|j: int| 0 <= j < front.len() && front[j] == ids.last();
                assert(ids[j] == ids[ids.len() - 1]);
            }
            lemma_push_no_duplicates(without(front, id), ids.last());
        }
    }
}

/// Taking an identifier out of a list that ends with another one.
pub proof fn lemma_without_push(ids: Seq<usize>, last: usize, id: usize)
    ensures
        without(ids.push(last), id) == if last == id {
            without(ids, id)
        } else {
            without(ids, id).push(last)
        },
{
    assert(ids.push(last).drop_last() =~= ids);
}

/// Takes the identifier out of the list.
pub fn take_out(ids: &mut Vec<usize>, id: usize)
    ensures
        final(ids)@ == without(old(ids)@, id),
{
    let mut kept: Vec<usize> = Vec::new();
    let mut i: usize = 0;
    assert(ids@.take(0) =~= Seq::<usize>::empty());
    while i < ids.len()
        invariant
            0 <= i <= ids.len(),
            ids@ == old(ids)@,
            kept@ == without(ids@.take(i as int), id),
        decreases ids.len() - i,
    {
        let next: usize = ids[i];
        proof {
            assert(ids@.take(i + 1) =~= ids@.take(i as int).push(next));
            lemma_without_push(ids@.take(i as int), next, id);
        }
        if next != id {
            kept.push(next);
        }
        i = i + 1;
    }
    assert(ids@.take(ids.len() as int) =~= ids@);
    *ids = kept;
}

} // verus!
