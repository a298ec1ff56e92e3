//! A whole collection: mark from every root, then sweep. What survives is
//! what the roots reach.
use vstd::prelude::*;
use crate::heap::{holds, Heap, HeapView};
use crate::heap_repr::Object;
use crate::mark::{
    child, closed, is_path, lemma_reach_child, marks_after, marks_after_all, points_to, reachable,
    reaches, step,
};
use crate::value::Value;

verus! {

/// Whether the cell at `b` can be reached from one of `roots`.
pub open spec fn reachable_from_any(objects: Map<u64, Object>, roots: Seq<Value>, b: u64) -> bool {
    exists|i: int| 0 <= i < roots.len() && reachable(objects, #[trigger] roots[i], b)
}

impl HeapView {
    /// The heap after each of `roots` was marked in turn.
    pub open spec fn marked_from(self, roots: Seq<Value>) -> HeapView {
        HeapView {
            objects: self.objects,
            marks: marks_after_all(self.objects, self.marks, roots),
            chain: self.chain,
            limit: self.limit,
        }
    }
}

/// In a closed set of marks, a path that enters a marked cell stays in
/// marked cells.
proof fn lemma_closed_path(
    objects: Map<u64, Object>,
    marks: Set<u64>,
    root: Value,
    path: Seq<u64>,
    k: int,
    m: int,
)
    requires
        closed(objects, marks),
        is_path(objects, Set::empty(), root, path),
        0 <= k <= m < path.len(),
        marks.contains(path[k]),
    ensures
        marks.contains(path[m]),
    decreases m - k,
{
    if m > k {
        lemma_closed_path(objects, marks, root, path, k, m - 1);
        assert(step(objects, path, m - 1));
        let j = choose|j: int|
            0 <= j < objects[path[m - 1]].children().len() && points_to(
                objects,
                #[trigger] child(objects, path[m - 1], j),
                path[m],
            );
        assert(holds(objects, child(objects, path[m - 1], j)));
    }
}

/// Mark completeness: where the marks were closed before `mark(root)` (as
/// they are when none is set, or after earlier calls of `mark` on such a
/// heap), every cell that `root` reaches carries the mark after it, and the
/// marks are closed again.
pub proof fn lemma_mark_complete(objects: Map<u64, Object>, marks: Set<u64>, root: Value)
    requires
        closed(objects, marks),
    ensures
        forall|b: u64| reachable(objects, root, b) ==> marks_after(objects, marks, root).contains(b),
        forall|b: u64|
            marks_after(objects, marks, root).contains(b) <==> marks.contains(b) || reachable(
                objects,
                root,
                b,
            ),
        closed(objects, marks_after(objects, marks, root)),
{
    let after = marks_after(objects, marks, root);
    assert forall|b: u64| reachable(objects, root, b) implies after.contains(b) by {
        let p = choose|p: Seq<u64>|
            #[trigger] is_path(objects, Set::empty(), root, p) && p.last() == b;
        if exists|k: int| 0 <= k < p.len() && marks.contains(#[trigger] p[k]) {
            let k = choose|k: int| 0 <= k < p.len() && marks.contains(#[trigger] p[k]);
            lemma_closed_path(objects, marks, root, p, k, p.len() - 1);
        } else {
            assert forall|k: int| 0 <= k < p.len() implies !marks.contains(#[trigger] p[k]) by {}
            assert(is_path(objects, marks, root, p));
        }
    }
    assert forall|b: u64| reaches(objects, marks, root, b) implies reachable(objects, root, b) by {
        let p = choose|p: Seq<u64>| #[trigger] is_path(objects, marks, root, p) && p.last() == b;
        assert(is_path(objects, Set::empty(), root, p));
    }
    assert forall|a: u64, j: int|
        after.contains(a) && objects.dom().contains(a) && 0 <= j < objects[a].children().len()
            && holds(objects, #[trigger] child(objects, a, j)) implies after.contains(
        child(objects, a, j).spec_to_pointer(),
    ) by {
        let c = child(objects, a, j);
        if !marks.contains(a) && !marks.contains(c.spec_to_pointer()) {
            lemma_reach_child(objects, marks, root, a, j);
        }
    }
}

/// Marking each of `roots` on a heap without marks sets the mark of exactly
/// the cells that one of them reaches.
pub proof fn lemma_mark_all(objects: Map<u64, Object>, roots: Seq<Value>)
    ensures
        closed(objects, marks_after_all(objects, Set::empty(), roots)),
        forall|b: u64|
            marks_after_all(objects, Set::empty(), roots).contains(b) <==> reachable_from_any(
                objects,
                roots,
                b,
            ),
    decreases roots.len(),
{
    let all = marks_after_all(objects, Set::empty(), roots);
    if roots.len() > 0 {
        let front = roots.drop_last();
        let inner = marks_after_all(objects, Set::empty(), front);
        lemma_mark_all(objects, front);
        lemma_mark_complete(objects, inner, roots.last());
        assert forall|b: u64| all.contains(b) <==> reachable_from_any(objects, roots, b) by {
            if reachable_from_any(objects, front, b) {
                let i = choose|i: int|
                    0 <= i < front.len() && reachable(objects, #[trigger] front[i], b);
                assert(roots[i] == front[i]);
            }
            if reachable(objects, roots.last(), b) {
                assert(roots[roots.len() - 1] == roots.last());
            }
            if reachable_from_any(objects, roots, b) {
                let i = choose|i: int|
                    0 <= i < roots.len() && reachable(objects, #[trigger] roots[i], b);
                if i < front.len() {
                    assert(front[i] == roots[i]);
                }
            }
        }
    }
}

/// Sweep soundness: after every root was marked on a heap without marks, a
/// sweep keeps exactly the cells that a root reaches, each holding what it
/// held, and frees the others.
pub proof fn lemma_sweep_sound(heap: HeapView, roots: Seq<Value>)
    requires
        heap.consistent(),
        heap.marks == Set::<u64>::empty(),
    ensures
        forall|a: u64|
            heap.marked_from(roots).swept().objects.dom().contains(a) <==> heap.objects.dom().contains(
                a,
            ) && reachable_from_any(heap.objects, roots, a),
        forall|a: u64| #[trigger]
            heap.marked_from(roots).swept().objects.dom().contains(a) ==> heap.marked_from(
                roots,
            ).swept().objects[a] == heap.objects[a],
        heap.marked_from(roots).swept().marks == Set::<u64>::empty(),
{
    lemma_mark_all(heap.objects, roots);
    assert forall|a: u64| reachable_from_any(heap.objects, roots, a) implies heap.objects.dom().contains(
        a,
    ) by {
        let i = choose|i: int|
            0 <= i < roots.len() && reachable(heap.objects, #[trigger] roots[i], a);
        lemma_reached_is_live(heap.objects, roots[i], a);
    }
}

/// After a sweep no cell that stays holds a handle to a cell that was freed,
/// where the marks were closed before it: what such a cell held a handle to,
/// it still does.
pub proof fn lemma_sweep_keeps_handles(heap: HeapView)
    requires
        heap.consistent(),
        closed(heap.objects, heap.marks),
    ensures
        forall|a: u64, j: int|
            heap.swept().objects.dom().contains(a) && 0 <= j < heap.objects[a].children().len()
                && holds(heap.objects, #[trigger] child(heap.objects, a, j)) ==> holds(
                heap.swept().objects,
                child(heap.objects, a, j),
            ),
        forall|a: u64| #[trigger]
            heap.swept().objects.dom().contains(a) ==> heap.swept().objects[a] == heap.objects[a],
{
}

/// What a root reaches is a live cell.
pub proof fn lemma_reached_is_live(objects: Map<u64, Object>, root: Value, b: u64)
    requires
        reachable(objects, root, b),
    ensures
        objects.dom().contains(b),
{
    let p = choose|p: Seq<u64>| #[trigger] is_path(objects, Set::empty(), root, p) && p.last() == b;
    if p.len() > 1 {
        assert(step(objects, p, p.len() - 2));
    }
}

impl Heap {
    /// Marks from each of `roots`, then sweeps, and says how many cells were
    /// freed. On a heap without marks, what stays is what the roots reach.
    pub fn collect(&mut self, roots: &Vec<Value>) -> (reclaimed: u64)
        requires
            old(self).wf(),
        ensures
            final(self).wf(),
            final(self)@ == old(self)@.marked_from(roots@).swept(),
            reclaimed == old(self)@.chain.len() - final(self)@.chain.len(),
    {
        let ghost start = self@;
        let mut i: usize = 0;
        while i < roots.len()
            invariant
                self.wf(),
                i <= roots.len(),
                self@ == start.marked_from(roots@.subrange(0, i as int)),
            decreases roots.len() - i,
        {
            let root = roots[i];
            root.mark(self);
            i = i + 1;
            proof {
                let now = roots@.subrange(0, i as int);
                assert(now.drop_last() =~= roots@.subrange(0, i - 1));
                assert(now.last() == roots@[i - 1]);
            }
        }
        assert(roots@.subrange(0, i as int) =~= roots@);
        self.sweep()
    }
}

} // verus!
