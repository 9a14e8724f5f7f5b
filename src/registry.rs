//! An ordered list of jobs keyed by id: the top-level registry and each job's children.
//! Jobs are appended at the end; removal keeps the order of the others.
use vstd::prelude::*;

verus! {

/// `ids` without the occurrences of `id`, in order.
pub open spec fn without(ids: Seq<usize>, id: usize) -> Seq<usize>
    decreases ids.len(),
{
    if ids.len() == 0 {
        Seq::empty()
    } else {
        (if ids[0] == id {
            Seq::empty()
        } else {
            seq![ids[0]]
        }) + without(ids.drop_first(), id)
    }
}

/// How many times `id` occurs in `ids`.
pub open spec fn count_of(ids: Seq<usize>, id: usize) -> nat
    decreases ids.len(),
{
    if ids.len() == 0 {
        0
    } else {
        (if ids[0] == id {
            1nat
        } else {
            0nat
        }) + count_of(ids.drop_first(), id)
    }
}

/// Jobs with their ids, in display order.
pub struct JobRegistry<T> {
    pub items: Vec<(usize, T)>,
}

impl<T> JobRegistry<T> {
    /// The ids of the jobs, in display order.
    pub open spec fn ids(&self) -> Seq<usize> {
        self.items@.map_values(|p: (usize, T)| p.0)
    }

    /// An empty registry.
    pub fn new() -> (r: Self)
        ensures
            r.ids() == Seq::<usize>::empty(),
    {
        let r = JobRegistry { items: Vec::new() };
        assert(r.ids() =~= Seq::<usize>::empty());
        r
    }

    /// Appends a job at the end.
    pub fn push(&mut self, id: usize, job: T)
        ensures
            final(self).ids() == old(self).ids().push(id),
    {
        self.items.push((id, job));
        assert(self.ids() =~= old(self).ids().push(id));
    }

    /// Removes every job with id `id`; the others keep their order.
    pub fn remove(&mut self, id: usize)
        ensures
            final(self).ids() == without(old(self).ids(), id),
    {
        let mut kept: Vec<(usize, T)> = Vec::new();
        let ghost orig = self.ids();
        assert(kept@.map_values(|p: (usize, T)| p.0) =~= Seq::<usize>::empty());
        while self.items.len() > 0
            invariant
                without(orig, id) == kept@.map_values(|p: (usize, T)| p.0) + without(
                    self.ids(),
                    id,
                ),
            decreases self.items.len(),
        {
            let ghost before = self.ids();
            let item = self.items.remove(0);
            assert(self.ids() =~= before.drop_first());
            let ghost kept_before = kept@.map_values(|p: (usize, T)| p.0);
            if item.0 != id {
                kept.push(item);
                assert(kept@.map_values(|p: (usize, T)| p.0) =~= kept_before.push(before[0]));
                assert(kept_before + (seq![before[0]] + without(before.drop_first(), id))
                    =~= kept_before.push(before[0]) + without(before.drop_first(), id));
            } else {
                assert(kept_before + (Seq::<usize>::empty() + without(before.drop_first(), id))
                    =~= kept_before + without(before.drop_first(), id));
            }
        }
        assert(without(self.ids(), id) =~= Seq::<usize>::empty());
        assert(kept@.map_values(|p: (usize, T)| p.0) + Seq::<usize>::empty() =~= kept@.map_values(
            |p: (usize, T)| p.0,
        ));
        self.items = kept;
    }

    /// Number of jobs.
    pub fn len(&self) -> (r: usize)
        ensures
            r == self.ids().len(),
    {
        self.items.len()
    }
}

/// Removing an id takes out exactly its occurrences: the count drops by how many times
/// it was there (by one for an id that occurs once), and is unchanged for an absent id.
pub proof fn lemma_remove_count(ids: Seq<usize>, id: usize)
    ensures
        without(ids, id).len() + count_of(ids, id) == ids.len(),
    decreases ids.len(),
{
    if ids.len() > 0 {
        lemma_remove_count(ids.drop_first(), id);
    }
}

/// Removal keeps the other jobs: none with the removed id is left, and every other id
/// occurs as often as before.
pub proof fn lemma_remove_keeps_others(ids: Seq<usize>, id: usize)
    ensures
        count_of(without(ids, id), id) == 0,
        forall|x: usize| x != id ==> count_of(without(ids, id), x) == count_of(ids, x),
    decreases ids.len(),
{
    if ids.len() > 0 {
        let h = ids[0];
        let head = if h == id {
            Seq::<usize>::empty()
        } else {
            seq![h]
        };
        let w = without(ids.drop_first(), id);
        lemma_remove_keeps_others(ids.drop_first(), id);
        lemma_count_concat(head, w);
        assert(seq![h].drop_first() =~= Seq::<usize>::empty());
        assert(without(ids, id) == head + w);
        assert forall|x: usize| x != id implies count_of(without(ids, id), x) == count_of(
            ids,
            x,
        ) by {
            assert(count_of(head + w, x) == count_of(head, x) + count_of(w, x));
            assert(count_of(w, x) == count_of(ids.drop_first(), x));
            assert(count_of(ids, x) == (if h == x {
                1nat
            } else {
                0nat
            }) + count_of(ids.drop_first(), x));
            assert(count_of(Seq::<usize>::empty(), x) == 0);
            if h != id {
                assert(count_of(seq![h], x) == (if h == x {
                    1nat
                } else {
                    0nat
                }) + count_of(seq![h].drop_first(), x));
            }
        }
        assert(count_of(head + w, id) == count_of(head, id) + count_of(w, id));
        assert(count_of(Seq::<usize>::empty(), id) == 0);
        if h != id {
            assert(count_of(seq![h], id) == 0nat + count_of(seq![h].drop_first(), id));
        }
    }
}

/// `ids` after removing each id of `removed` in turn.
pub open spec fn remove_all(ids: Seq<usize>, removed: Seq<usize>) -> Seq<usize>
    decreases removed.len(),
{
    if removed.len() == 0 {
        ids
    } else {
        remove_all(without(ids, removed[0]), removed.drop_first())
    }
}

/// Removing `r` distinct jobs, each registered once, leaves `r` fewer: a registry that
/// held `k0` jobs and then `a` more holds `k0 + a - r`.
pub proof fn lemma_count_after_removals(ids: Seq<usize>, removed: Seq<usize>)
    requires
        forall|i: int, j: int| 0 <= i < j < removed.len() ==> removed[i] != removed[j],
        forall|i: int| 0 <= i < removed.len() ==> count_of(ids, #[trigger] removed[i]) == 1,
    ensures
        remove_all(ids, removed).len() + removed.len() == ids.len(),
    decreases removed.len(),
{
    if removed.len() > 0 {
        let r = removed[0];
        let rest = removed.drop_first();
        let next = without(ids, r);
        lemma_remove_count(ids, r);
        lemma_remove_keeps_others(ids, r);
        assert forall|i: int| 0 <= i < rest.len() implies count_of(next, #[trigger] rest[i])
            == 1 by {
            assert(rest[i] == removed[i + 1]);
            assert(removed[0] != removed[i + 1]);
        }
        assert forall|i: int, j: int| 0 <= i < j < rest.len() implies rest[i] != rest[j] by {
            assert(rest[i] == removed[i + 1] && rest[j] == removed[j + 1]);
        }
        lemma_count_after_removals(next, rest);
    }
}

proof fn lemma_count_concat(a: Seq<usize>, b: Seq<usize>)
    ensures
        forall|x: usize| #[trigger] count_of(a + b, x) == count_of(a, x) + count_of(b, x),
    decreases a.len(),
{
    if a.len() > 0 {
        lemma_count_concat(a.drop_first(), b);
        assert((a + b).drop_first() =~= a.drop_first() + b);
        assert((a + b)[0] == a[0]);
        assert forall|x: usize| #[trigger] count_of(a + b, x) == count_of(a, x) + count_of(b, x) by {
            assert(count_of(a.drop_first() + b, x) == count_of(a.drop_first(), x) + count_of(b, x));
        }
    } else {
        assert(a + b =~= b);
    }
}

} // verus!
