//! The sweep phase: walk the heap list, free what carries no mark, clear
//! the marks of what stays.
use vstd::prelude::*;
use crate::heap::{member_of, Heap};
use crate::mark::lemma_counts;

verus! {

impl Heap {
    /// Frees every cell that carries no mark, clears the marks of the others,
    /// and says how many cells it freed. The cells that stay keep their
    /// places on the list and their addresses.
    pub fn sweep(&mut self) -> (reclaimed: u64)
        requires
            old(self).wf(),
        ensures
            final(self).wf(),
            final(self)@ == old(self)@.swept(),
            reclaimed == old(self)@.chain.len() - final(self)@.chain.len(),
            reclaimed == old(self)@.chain.len() - old(self)@.marks.len(),
    {
        let ghost start = self@;
        let ghost n = start.chain.len() as int;
        let ghost keep = member_of(start.marks);
        let ghost mut k: int = 0;
        let ghost mut kept: Seq<u64> = Seq::empty();
        let mut cur: u64 = self.get_head();
        let mut prev: Option<u64> = None;
        let mut reclaimed: u64 = 0;
        proof {
            self.lemma_consistent();
            self.lemma_link(0);
            assert(self@.chain =~= kept + start.chain.subrange(0, n));
            assert(kept =~= start.chain.subrange(0, 0).filter(keep));
        }
        while cur != 0
            invariant
                self.wf(),
                start.consistent(),
                n == start.chain.len(),
                keep == member_of(start.marks),
                self@.limit == start.limit,
                0 <= k <= n,
                self@.chain == kept + start.chain.subrange(k, n),
                kept == start.chain.subrange(0, k).filter(keep),
                cur == self.link(kept.len() as int),
                match prev {
                    None => kept.len() == 0,
                    Some(p) => kept.len() > 0 && kept.last() == p,
                },
                forall|a: u64| #[trigger]
                    self@.objects.dom().contains(a) ==> start.objects.dom().contains(a)
                        && self@.objects[a] == start.objects[a],
                forall|a: u64| #[trigger]
                    self@.marks.contains(a) <==> start.marks.contains(a) && start.chain.subrange(
                        k,
                        n,
                    ).contains(a),
                reclaimed == k - kept.len(),
            decreases n - k,
        {
            let ghost s = kept.len() as int;
            let ghost before = self@;
            proof {
                self.lemma_link(s);
                assert(before.chain[s] == start.chain[k]);
            }
            let step = self.sweep_step(cur, prev, Ghost(s));
            proof {
                let a = step.1;
                let here = start.chain.subrange(k, n);
                let rest = start.chain.subrange(k + 1, n);
                assert(here[0] == a);
                assert(start.chain.subrange(0, k + 1) =~= start.chain.subrange(0, k).push(a));
                start.chain.subrange(0, k).lemma_filter_push(a, keep);
                assert forall|x: u64| x != a implies here.contains(x) == rest.contains(x) by {
                    if here.contains(x) {
                        let j = choose|j: int| 0 <= j < here.len() && here[j] == x;
                        assert(rest[j - 1] == x);
                    }
                    if rest.contains(x) {
                        let j = choose|j: int| 0 <= j < rest.len() && rest[j] == x;
                        assert(here[j + 1] == x);
                    }
                }
                assert(!rest.contains(a)) by {
                    if rest.contains(a) {
                        let j = choose|j: int| 0 <= j < rest.len() && rest[j] == a;
                        assert(start.chain[k + 1 + j] == a);
                    }
                }
                if step.2 {
                    kept = kept.push(a);
                    assert(self@.chain =~= kept + rest);
                } else {
                    assert(self@.chain =~= kept + rest);
                }
                k = k + 1;
            }
            if step.2 {
                prev = Some(step.1);
            } else {
                reclaimed = reclaimed + 1;
            }
            cur = step.0;
        }
        proof {
            self.lemma_link(kept.len() as int);
            assert(k == n);
            assert(self@.chain =~= kept);
            assert(start.chain.subrange(0, n) =~= start.chain);
            self.lemma_consistent();
            let end = self@;
            assert(end.marks =~= Set::<u64>::empty());
            assert forall|a: u64| end.objects.dom().contains(a) <==> start.marks.contains(a) by {
                if end.objects.dom().contains(a) {
                    assert(end.chain.contains(a));
                    let j = choose|j: int| 0 <= j < end.chain.len() && end.chain[j] == a;
                    start.chain.lemma_filter_pred(keep, j);
                }
                if start.marks.contains(a) {
                    assert(start.chain.contains(a));
                    let j = choose|j: int| 0 <= j < start.chain.len() && start.chain[j] == a;
                    start.chain.lemma_filter_contains(keep, j);
                }
            }
            assert(end.objects =~= start.objects.restrict(start.marks));
            start.chain.lemma_filter_len(keep);
            lemma_counts(end);
            assert(end.objects.dom() =~= start.marks);
        }
        reclaimed
    }
}

} // verus!
