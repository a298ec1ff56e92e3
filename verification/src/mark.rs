//! The mark phase: from a root, set the mark bit of every cell that can be
//! reached through cells that do not carry it yet.
use vstd::prelude::*;
use vstd::seq_lib::seq_to_set_is_finite;
use vstd::set_lib::lemma_len_subset;
use crate::heap::{holds, Heap, HeapView};
use crate::heap_repr::{HeapCell, Object};
use crate::value::Value;

verus! {

/// Whether `v` is a handle to the live cell at `b`.
pub open spec fn points_to(objects: Map<u64, Object>, v: Value, b: u64) -> bool {
    holds(objects, v) && v.spec_to_pointer() == b
}

/// The `j`-th value that the cell at `a` holds.
pub open spec fn child(objects: Map<u64, Object>, a: u64, j: int) -> Value {
    objects[a].children()[j]
}

/// Whether the live cell at `a` holds a handle to the live cell at `b`.
pub open spec fn edge(objects: Map<u64, Object>, a: u64, b: u64) -> bool {
    objects.dom().contains(a) && exists|j: int|
        0 <= j < objects[a].children().len() && points_to(objects, #[trigger] child(objects, a, j), b)
}

/// Whether the cell at position `k` of `path` holds a handle to the next.
pub open spec fn step(objects: Map<u64, Object>, path: Seq<u64>, k: int) -> bool {
    edge(objects, path[k], path[k + 1])
}

/// A path leads from the cell that `root` is a handle to, from cell to cell
/// along the handles they hold, and touches no cell of `avoid`.
pub open spec fn is_path(
    objects: Map<u64, Object>,
    avoid: Set<u64>,
    root: Value,
    path: Seq<u64>,
) -> bool {
    &&& path.len() > 0
    &&& points_to(objects, root, path[0])
    &&& forall|k: int| 0 <= k < path.len() ==> !avoid.contains(#[trigger] path[k])
    &&& forall|k: int| 0 <= k < path.len() - 1 ==> #[trigger] step(objects, path, k)
}

/// Whether a path from `root` that avoids `avoid` ends at the cell at `b`.
pub open spec fn reaches(objects: Map<u64, Object>, avoid: Set<u64>, root: Value, b: u64) -> bool {
    exists|path: Seq<u64>| #[trigger] is_path(objects, avoid, root, path) && path.last() == b
}

/// Whether the cell at `b` can be reached from `root`.
pub open spec fn reachable(objects: Map<u64, Object>, root: Value, b: u64) -> bool {
    reaches(objects, Set::empty(), root, b)
}

/// The marks after `mark(root)`: those that were set, and every cell that a
/// path from `root` through unmarked cells leads to.
pub open spec fn marks_after(objects: Map<u64, Object>, marks: Set<u64>, root: Value) -> Set<u64> {
    Set::new(|b: u64| marks.contains(b) || reaches(objects, marks, root, b))
}

/// The marks after marking each of `roots` in turn.
pub open spec fn marks_after_all(
    objects: Map<u64, Object>,
    marks: Set<u64>,
    roots: Seq<Value>,
) -> Set<u64>
    decreases roots.len(),
{
    if roots.len() == 0 {
        marks
    } else {
        marks_after(objects, marks_after_all(objects, marks, roots.drop_last()), roots.last())
    }
}

/// A set of marks is closed when every live cell that a marked cell holds a
/// handle to is marked too.
pub open spec fn closed(objects: Map<u64, Object>, marks: Set<u64>) -> bool {
    forall|a: u64, j: int|
        marks.contains(a) && objects.dom().contains(a) && 0 <= j < objects[a].children().len()
            && holds(objects, #[trigger] child(objects, a, j)) ==> marks.contains(
            child(objects, a, j).spec_to_pointer(),
        )
}

// ----- what the traversal keeps true -----

spec fn sound(objects: Map<u64, Object>, m0: Set<u64>, marks: Set<u64>, root: Value) -> bool {
    forall|b: u64| #[trigger] marks.contains(b) ==> m0.contains(b) || reaches(objects, m0, root, b)
}

spec fn target_ok(objects: Map<u64, Object>, m0: Set<u64>, root: Value, v: Value) -> bool {
    holds(objects, v) && !m0.contains(v.spec_to_pointer()) ==> reaches(
        objects,
        m0,
        root,
        v.spec_to_pointer(),
    )
}

spec fn stack_ok(objects: Map<u64, Object>, m0: Set<u64>, root: Value, stack: Seq<Value>) -> bool {
    forall|i: int| 0 <= i < stack.len() ==> target_ok(objects, m0, root, #[trigger] stack[i])
}

spec fn covered(
    objects: Map<u64, Object>,
    m0: Set<u64>,
    marks: Set<u64>,
    stack: Seq<Value>,
    v: Value,
) -> bool {
    holds(objects, v) && !m0.contains(v.spec_to_pointer()) ==> marks.contains(v.spec_to_pointer())
        || stack.contains(v)
}

spec fn grey(
    objects: Map<u64, Object>,
    m0: Set<u64>,
    marks: Set<u64>,
    stack: Seq<Value>,
    root: Value,
) -> bool {
    &&& covered(objects, m0, marks, stack, root)
    &&& forall|a: u64, j: int|
        marks.contains(a) && !m0.contains(a) && 0 <= j < objects[a].children().len() ==> covered(
            objects,
            m0,
            marks,
            stack,
            #[trigger] child(objects, a, j),
        )
}

proof fn lemma_root(objects: Map<u64, Object>, m0: Set<u64>, root: Value)
    ensures
        target_ok(objects, m0, root, root),
{
    if holds(objects, root) && !m0.contains(root.spec_to_pointer()) {
        let path = seq![root.spec_to_pointer()];
        assert(is_path(objects, m0, root, path));
        assert(path.last() == root.spec_to_pointer());
    }
}

/// A path that avoids `avoid` goes on to every live cell outside `avoid`
/// that its last cell holds a handle to.
pub proof fn lemma_reach_child(
    objects: Map<u64, Object>,
    avoid: Set<u64>,
    root: Value,
    a: u64,
    j: int,
)
    requires
        reaches(objects, avoid, root, a),
        objects.dom().contains(a),
        0 <= j < objects[a].children().len(),
        holds(objects, child(objects, a, j)),
        !avoid.contains(child(objects, a, j).spec_to_pointer()),
    ensures
        reaches(objects, avoid, root, child(objects, a, j).spec_to_pointer()),
{
    let c = child(objects, a, j);
    let p = choose|p: Seq<u64>| #[trigger] is_path(objects, avoid, root, p) && p.last() == a;
    let q = p.push(c.spec_to_pointer());
    assert forall|k: int| 0 <= k < q.len() - 1 implies #[trigger] step(objects, q, k) by {
        if k < p.len() - 1 {
            assert(step(objects, p, k));
        } else {
            assert(points_to(objects, child(objects, a, j), c.spec_to_pointer()));
        }
    }
    assert forall|k: int| 0 <= k < q.len() implies !avoid.contains(#[trigger] q[k]) by {
        if k < p.len() {
            assert(q[k] == p[k]);
        }
    }
    assert(is_path(objects, avoid, root, q));
    assert(q.last() == c.spec_to_pointer());
}

proof fn lemma_extend(objects: Map<u64, Object>, m0: Set<u64>, root: Value, a: u64, j: int)
    requires
        reaches(objects, m0, root, a),
        objects.dom().contains(a),
        0 <= j < objects[a].children().len(),
    ensures
        target_ok(objects, m0, root, child(objects, a, j)),
{
    let c = child(objects, a, j);
    if holds(objects, c) && !m0.contains(c.spec_to_pointer()) {
        lemma_reach_child(objects, m0, root, a, j);
    }
}

/// With nothing left to visit, every cell on a path through cells that were
/// unmarked is marked.
proof fn lemma_complete(
    objects: Map<u64, Object>,
    m0: Set<u64>,
    marks: Set<u64>,
    root: Value,
    path: Seq<u64>,
    k: int,
)
    requires
        is_path(objects, m0, root, path),
        grey(objects, m0, marks, Seq::empty(), root),
        0 <= k < path.len(),
    ensures
        marks.contains(path[k]),
    decreases k,
{
    if k == 0 {
        assert(!m0.contains(path[0]));
        assert(covered(objects, m0, marks, Seq::empty(), root));
        assert(!Seq::<Value>::empty().contains(root));
    } else {
        lemma_complete(objects, m0, marks, root, path, k - 1);
        assert(step(objects, path, k - 1));
        assert(!m0.contains(path[k - 1]));
        assert(!m0.contains(path[k]));
        let j = choose|j: int|
            0 <= j < objects[path[k - 1]].children().len() && points_to(
                objects,
                #[trigger] child(objects, path[k - 1], j),
                path[k],
            );
        let c = child(objects, path[k - 1], j);
        assert(covered(objects, m0, marks, Seq::empty(), c));
        assert(!Seq::<Value>::empty().contains(c));
    }
}

/// What the view of a heap says of the sizes of its sets.
pub proof fn lemma_counts(view: HeapView)
    requires
        view.consistent(),
    ensures
        view.objects.dom().finite(),
        view.objects.dom().len() == view.chain.len(),
        view.marks.finite(),
        view.marks.len() <= view.chain.len(),
{
    seq_to_set_is_finite(view.chain);
    assert(view.objects.dom() =~= view.chain.to_set());
    view.chain.unique_seq_to_set();
    assert(view.marks.subset_of(view.objects.dom()));
    lemma_len_subset(view.marks, view.objects.dom());
}

/// Pushes the values that the cell at `a` holds.
fn push_children(heap: &Heap, a: u64, stack: &mut Vec<Value>)
    requires
        heap.wf(),
        heap@.objects.dom().contains(a),
    ensures
        final(stack)@ == old(stack)@ + heap@.objects[a].children(),
{
    match heap.cell_at(a) {
        HeapCell::Lambda(c) => {
            push_all(stack, &c.env.values);
        },
        HeapCell::Pair(c) => {
            stack.push(c.car);
            stack.push(c.cdr);
            assert(stack@ =~= old(stack)@ + seq![c.car, c.cdr]);
        },
        HeapCell::Vec(c) => {
            push_all(stack, &c.vec);
        },
        HeapCell::String(_) => {
            assert(stack@ =~= old(stack)@ + Seq::<Value>::empty());
        },
    }
}

fn push_all(stack: &mut Vec<Value>, items: &Vec<Value>)
    ensures
        final(stack)@ == old(stack)@ + items@,
{
    let mut i: usize = 0;
    while i < items.len()
        invariant
            i <= items.len(),
            stack@ == old(stack)@ + items@.subrange(0, i as int),
        decreases items.len() - i,
    {
        stack.push(items[i]);
        i = i + 1;
        assert(stack@ =~= old(stack)@ + items@.subrange(0, i as int));
    }
    assert(items@.subrange(0, i as int) =~= items@);
}

impl Value {
    /// Marks every cell that a path from `self` through unmarked cells leads
    /// to, and says how many cells it marked. A cell that carries the mark is
    /// not entered, so that a cycle is walked once.
    ///
    /// The cells to visit are kept on a stack of values, not on the call
    /// stack. It never holds more values than the cells that this call marks
    /// hold together, plus one.
    pub fn mark(self, heap: &mut Heap) -> (count: u64)
        requires
            old(heap).wf(),
        ensures
            final(heap).wf(),
            final(heap)@.objects == old(heap)@.objects,
            final(heap)@.chain == old(heap)@.chain,
            final(heap)@.limit == old(heap)@.limit,
            final(heap)@.marks == marks_after(old(heap)@.objects, old(heap)@.marks, self),
            count == final(heap)@.marks.len() - old(heap)@.marks.len(),
    {
        let ghost objects = heap@.objects;
        let ghost m0 = heap@.marks;
        let ghost chain = heap@.chain;
        let ghost limit = heap@.limit;
        let mut stack: Vec<Value> = Vec::new();
        stack.push(self);
        let mut count: u64 = 0;
        proof {
            heap.lemma_consistent();
            lemma_counts(heap@);
            lemma_root(objects, m0, self);
            assert(stack@[0] == self);
        }
        while stack.len() > 0
            invariant
                heap.wf(),
                heap@.objects == objects,
                heap@.chain == chain,
                heap@.limit == limit,
                objects.dom().finite(),
                m0.finite(),
                m0.subset_of(heap@.marks),
                count == heap@.marks.len() - m0.len(),
                sound(objects, m0, heap@.marks, self),
                stack_ok(objects, m0, self, stack@),
                grey(objects, m0, heap@.marks, stack@, self),
            decreases objects.dom().difference(heap@.marks).len(), stack.len(),
        {
            let ghost before = stack@;
            let ghost marks = heap@.marks;
            let v = stack.pop().unwrap();
            proof {
                heap.lemma_consistent();
                lemma_counts(heap@);
                assert(before[before.len() - 1] == v);
                assert(target_ok(objects, m0, self, v));
                assert forall|u: Value| before.contains(u) && u != v implies stack@.contains(u) by {
                    let i = choose|i: int| 0 <= i < before.len() && before[i] == u;
                    assert(stack@[i] == u);
                }
            }
            if heap.holds(v) && !heap.is_marked(v.to_pointer()) {
                let a = v.to_pointer();
                heap.set_mark(a);
                count = count + 1;
                let ghost popped = stack@;
                push_children(heap, a, &mut stack);
                proof {
                    let kids = objects[a].children();
                    assert(objects.dom().difference(heap@.marks) =~= objects.dom().difference(
                        marks,
                    ).remove(a));
                    assert(reaches(objects, m0, self, a));
                    assert forall|i: int| 0 <= i < stack@.len() implies target_ok(
                        objects,
                        m0,
                        self,
                        #[trigger] stack@[i],
                    ) by {
                        if i < popped.len() {
                            assert(stack@[i] == before[i]);
                        } else {
                            let j = i - popped.len();
                            assert(stack@[i] == child(objects, a, j));
                            lemma_extend(objects, m0, self, a, j);
                        }
                    }
                    assert forall|u: Value| popped.contains(u) implies stack@.contains(u) by {
                        let i = choose|i: int| 0 <= i < popped.len() && popped[i] == u;
                        assert(stack@[i] == u);
                    }
                    assert forall|j: int| 0 <= j < kids.len() implies stack@.contains(
                        #[trigger] child(objects, a, j),
                    ) by {
                        assert(stack@[popped.len() + j] == kids[j]);
                    }
                    assert forall|u: Value| covered(objects, m0, marks, before, u) implies covered(
                        objects,
                        m0,
                        heap@.marks,
                        stack@,
                        u,
                    ) by {}
                    assert forall|x: u64, j: int|
                        heap@.marks.contains(x) && !m0.contains(x) && 0 <= j
                            < objects[x].children().len() implies covered(
                        objects,
                        m0,
                        heap@.marks,
                        stack@,
                        #[trigger] child(objects, x, j),
                    ) by {
                        if x != a {
                            assert(covered(objects, m0, marks, before, child(objects, x, j)));
                        }
                    }
                }
            } else {
                proof {
                    assert forall|u: Value| covered(objects, m0, marks, before, u) implies covered(
                        objects,
                        m0,
                        heap@.marks,
                        stack@,
                        u,
                    ) by {}
                    assert forall|x: u64, j: int|
                        heap@.marks.contains(x) && !m0.contains(x) && 0 <= j
                            < objects[x].children().len() implies covered(
                        objects,
                        m0,
                        heap@.marks,
                        stack@,
                        #[trigger] child(objects, x, j),
                    ) by {
                        assert(covered(objects, m0, marks, before, child(objects, x, j)));
                    }
                    assert forall|i: int| 0 <= i < stack@.len() implies target_ok(
                        objects,
                        m0,
                        self,
                        #[trigger] stack@[i],
                    ) by {
                        assert(stack@[i] == before[i]);
                    }
                }
            }
        }
        proof {
            assert(stack@ =~= Seq::<Value>::empty());
            assert forall|b: u64| reaches(objects, m0, self, b) implies heap@.marks.contains(b) by {
                let p = choose|p: Seq<u64>| #[trigger] is_path(objects, m0, self, p) && p.last() == b;
                lemma_complete(objects, m0, heap@.marks, self, p, p.len() - 1);
            }
            assert(heap@.marks =~= marks_after(objects, m0, self));
        }
        count
    }
}

} // verus!
