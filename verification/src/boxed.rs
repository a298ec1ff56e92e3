//! Values that live in heap cells: their constructors, which allocate a
//! cell and link it into the heap list, and the projections that read or
//! overwrite a cell through its handle.
use vstd::prelude::*;
use crate::heap::{holds, lemma_address_slot, Heap, HeapView};
use crate::heap_repr::{Environment, HeapCell, Lambda, Object, Operation, Pair, SString, SVec};
use crate::layout::{LAMBDA_TAG, NAN, PAIR_TAG, POINTER_MASK, STRING_TAG, VEC_TAG};
use crate::value::{lemma_handle, VType, Value, ValueError};

verus! {

impl HeapView {
    /// The heap after a cell holding `object` was allocated at `a`: the cell
    /// is live, unmarked, and the first of the list.
    pub open spec fn with_cell(self, a: u64, object: Object) -> HeapView {
        HeapView {
            objects: self.objects.insert(a, object),
            marks: self.marks,
            chain: seq![a] + self.chain,
            limit: self.limit,
        }
    }

    /// The heap after each of `cells` was allocated, the first of them
    /// first.
    pub open spec fn with_cells(self, cells: Seq<(u64, Object)>) -> HeapView
        decreases cells.len(),
    {
        if cells.len() == 0 {
            self
        } else {
            self.with_cells(cells.drop_last()).with_cell(cells.last().0, cells.last().1)
        }
    }

    /// The heap after the cell at `a` was overwritten with `object`.
    pub open spec fn with_object(self, a: u64, object: Object) -> HeapView {
        HeapView {
            objects: self.objects.insert(a, object),
            marks: self.marks,
            chain: self.chain,
            limit: self.limit,
        }
    }

    /// Whether `v` is a handle to a live cell of kind `kind`.
    pub open spec fn holds_kind(self, v: Value, kind: VType) -> bool {
        holds(self.objects, v) && v.kind_of() == Some(kind)
    }

    /// What `car` returns.
    pub open spec fn car(self, v: Value) -> Result<Value, ValueError> {
        if self.holds_kind(v, VType::Pair) {
            Ok(self.objects[v.spec_to_pointer()]->Pair_car)
        } else {
            Err(ValueError::KindMismatch)
        }
    }

    /// What `cdr` returns.
    pub open spec fn cdr(self, v: Value) -> Result<Value, ValueError> {
        if self.holds_kind(v, VType::Pair) {
            Ok(self.objects[v.spec_to_pointer()]->Pair_cdr)
        } else {
            Err(ValueError::KindMismatch)
        }
    }

    /// The heap after `set_car(v, x)`, for a pair `v`.
    pub open spec fn with_car(self, v: Value, x: Value) -> HeapView {
        let a = v.spec_to_pointer();
        self.with_object(a, Object::Pair { car: x, cdr: self.objects[a]->Pair_cdr })
    }

    /// The heap after `set_cdr(v, x)`, for a pair `v`.
    pub open spec fn with_cdr(self, v: Value, x: Value) -> HeapView {
        let a = v.spec_to_pointer();
        self.with_object(a, Object::Pair { car: self.objects[a]->Pair_car, cdr: x })
    }
}

/// What an allocation does: `v` is the handle, of the object's kind, to a
/// cell at an address that was free, and the heap has gained that cell.
pub open spec fn allocated(before: HeapView, after: HeapView, v: Value, object: Object) -> bool {
    let a = v.spec_to_pointer();
    &&& v == Value::spec_handle(object.kind(), a)
    &&& v.kind_of() == Some(object.kind())
    &&& !before.objects.dom().contains(a)
    &&& after == before.with_cell(a, object)
}

/// What every constructor of a heap value promises of its result.
pub open spec fn allocation(
    before: HeapView,
    after: HeapView,
    r: Result<Value, ValueError>,
    object: Object,
) -> bool {
    &&& r is Ok <==> before.chain.len() < before.limit
    &&& r matches Ok(v) ==> allocated(before, after, v, object)
    &&& r matches Err(e) ==> e == ValueError::AllocationFailure && after == before
}

impl Heap {
    /// Allocates `cell`, which is linked to the present head, and gives the
    /// handle to it.
    fn allocate(&mut self, cell: HeapCell) -> (r: Result<Value, ValueError>)
        requires
            old(self).wf(),
            cell.spec_gc() == old(self)@.head(),
        ensures
            final(self).wf(),
            allocation(old(self)@, final(self)@, r, cell.object()),
    {
        let kind = cell.kind();
        let tag = match kind {
            VType::Lambda => LAMBDA_TAG,
            VType::Pair => PAIR_TAG,
            VType::Vec => VEC_TAG,
            _ => STRING_TAG,
        };
        let ghost object = cell.object();
        match self.publish(cell) {
            Ok(p) => {
                proof {
                    lemma_address_slot(p);
                    lemma_handle(kind, p);
                }
                Ok(Value(NAN | tag | (p & POINTER_MASK)))
            },
            Err(e) => Err(e),
        }
    }
}

impl Value {
    /// A procedure with its captured values and its code.
    pub fn Lambda(heap: &mut Heap, env: Environment, code: Vec<Operation>) -> (r: Result<
        Value,
        ValueError,
    >)
        requires
            old(heap).wf(),
        ensures
            final(heap).wf(),
            allocation(
                old(heap)@,
                final(heap)@,
                r,
                Object::Lambda { captured: env.values@, code: code@ },
            ),
    {
        let next = heap.get_head();
        heap.allocate(HeapCell::Lambda(Lambda::new(next, env, code)))
    }

    /// A pair of two values.
    pub fn Pair(heap: &mut Heap, car: Value, cdr: Value) -> (r: Result<Value, ValueError>)
        requires
            old(heap).wf(),
        ensures
            final(heap).wf(),
            allocation(old(heap)@, final(heap)@, r, Object::Pair { car, cdr }),
    {
        let next = heap.get_head();
        heap.allocate(HeapCell::Pair(Pair::new(next, car, cdr)))
    }

    /// A vector of values.
    pub fn Vec(heap: &mut Heap, v: Vec<Value>) -> (r: Result<Value, ValueError>)
        requires
            old(heap).wf(),
        ensures
            final(heap).wf(),
            allocation(old(heap)@, final(heap)@, r, Object::Vector { items: v@ }),
    {
        let next = heap.get_head();
        heap.allocate(HeapCell::Vec(SVec::new(next, v)))
    }

    /// A string.
    pub fn String(heap: &mut Heap, s: String) -> (r: Result<Value, ValueError>)
        requires
            old(heap).wf(),
        ensures
            final(heap).wf(),
            allocation(old(heap)@, final(heap)@, r, Object::Text { text: s@ }),
    {
        let next = heap.get_head();
        heap.allocate(HeapCell::String(SString::new(next, s)))
    }

    /// The procedure that `self` is a handle to, borrowed from the heap.
    pub fn to_lambda<'a>(self, heap: &'a Heap) -> (r: Result<&'a Lambda, ValueError>)
        requires
            heap.wf(),
        ensures
            r is Ok <==> heap@.holds_kind(self, VType::Lambda),
            r matches Ok(c) ==> heap@.objects[self.spec_to_pointer()] == (Object::Lambda {
                captured: c.env.values@,
                code: c.code@,
            }),
            r matches Err(e) ==> e == ValueError::KindMismatch,
    {
        if !heap.holds(self) {
            return Err(ValueError::KindMismatch);
        }
        match heap.cell_at(self.to_pointer()) {
            HeapCell::Lambda(c) => Ok(c),
            _ => Err(ValueError::KindMismatch),
        }
    }

    /// The pair that `self` is a handle to, borrowed from the heap.
    pub fn to_pair<'a>(self, heap: &'a Heap) -> (r: Result<&'a Pair, ValueError>)
        requires
            heap.wf(),
        ensures
            r is Ok <==> heap@.holds_kind(self, VType::Pair),
            r matches Ok(c) ==> heap@.objects[self.spec_to_pointer()] == (Object::Pair {
                car: c.car,
                cdr: c.cdr,
            }),
            r matches Err(e) ==> e == ValueError::KindMismatch,
    {
        if !heap.holds(self) {
            return Err(ValueError::KindMismatch);
        }
        match heap.cell_at(self.to_pointer()) {
            HeapCell::Pair(c) => Ok(c),
            _ => Err(ValueError::KindMismatch),
        }
    }

    /// The vector that `self` is a handle to, borrowed from the heap.
    pub fn to_vec<'a>(self, heap: &'a Heap) -> (r: Result<&'a SVec, ValueError>)
        requires
            heap.wf(),
        ensures
            r is Ok <==> heap@.holds_kind(self, VType::Vec),
            r matches Ok(c) ==> heap@.objects[self.spec_to_pointer()] == (Object::Vector {
                items: c.vec@,
            }),
            r matches Err(e) ==> e == ValueError::KindMismatch,
    {
        if !heap.holds(self) {
            return Err(ValueError::KindMismatch);
        }
        match heap.cell_at(self.to_pointer()) {
            HeapCell::Vec(c) => Ok(c),
            _ => Err(ValueError::KindMismatch),
        }
    }

    /// The string that `self` is a handle to, borrowed from the heap.
    pub fn to_string<'a>(self, heap: &'a Heap) -> (r: Result<&'a SString, ValueError>)
        requires
            heap.wf(),
        ensures
            r is Ok <==> heap@.holds_kind(self, VType::String),
            r matches Ok(c) ==> heap@.objects[self.spec_to_pointer()] == (Object::Text {
                text: c.str@,
            }),
            r matches Err(e) ==> e == ValueError::KindMismatch,
    {
        if !heap.holds(self) {
            return Err(ValueError::KindMismatch);
        }
        match heap.cell_at(self.to_pointer()) {
            HeapCell::String(c) => Ok(c),
            _ => Err(ValueError::KindMismatch),
        }
    }

    /// The first field of a pair: `KindMismatch` for anything that is not a
    /// handle to a pair of this heap.
    pub fn car(self, heap: &Heap) -> (r: Result<Value, ValueError>)
        requires
            heap.wf(),
        ensures
            r == heap@.car(self),
    {
        match self.to_pair(heap) {
            Ok(p) => Ok(p.car),
            Err(e) => Err(e),
        }
    }

    /// The second field of a pair: `KindMismatch` for anything that is not a
    /// handle to a pair of this heap.
    pub fn cdr(self, heap: &Heap) -> (r: Result<Value, ValueError>)
        requires
            heap.wf(),
        ensures
            r == heap@.cdr(self),
    {
        match self.to_pair(heap) {
            Ok(p) => Ok(p.cdr),
            Err(e) => Err(e),
        }
    }

    /// Overwrites the first field of a pair. Anything that is not a handle
    /// to a pair of this heap is refused, and the heap stays as it is.
    pub fn set_car(self, heap: &mut Heap, v: Value) -> (r: Result<(), ValueError>)
        requires
            old(heap).wf(),
        ensures
            final(heap).wf(),
            r is Ok <==> old(heap)@.holds_kind(self, VType::Pair),
            r is Ok ==> final(heap)@ == old(heap)@.with_car(self, v),
            r matches Err(e) ==> e == ValueError::KindMismatch && final(heap)@ == old(heap)@,
    {
        if !heap.holds(self) || !self.is_pair() {
            return Err(ValueError::KindMismatch);
        }
        heap.store_pair(self.to_pointer(), true, v);
        Ok(())
    }

    /// Overwrites the second field of a pair. Anything that is not a handle
    /// to a pair of this heap is refused, and the heap stays as it is.
    pub fn set_cdr(self, heap: &mut Heap, v: Value) -> (r: Result<(), ValueError>)
        requires
            old(heap).wf(),
        ensures
            final(heap).wf(),
            r is Ok <==> old(heap)@.holds_kind(self, VType::Pair),
            r is Ok ==> final(heap)@ == old(heap)@.with_cdr(self, v),
            r matches Err(e) ==> e == ValueError::KindMismatch && final(heap)@ == old(heap)@,
    {
        if !heap.holds(self) || !self.is_pair() {
            return Err(ValueError::KindMismatch);
        }
        heap.store_pair(self.to_pointer(), false, v);
        Ok(())
    }
}

/// A pair gives back the two values it was made of.
pub proof fn lemma_pair_identity(before: HeapView, after: HeapView, p: Value, a: Value, b: Value)
    requires
        allocated(before, after, p, Object::Pair { car: a, cdr: b }),
    ensures
        after.car(p) == Ok::<Value, ValueError>(a),
        after.cdr(p) == Ok::<Value, ValueError>(b),
{
}

/// After `set_car(p, x)` on a pair, `car(p)` is `x` and `cdr(p)` is what it
/// was; after `set_cdr(p, x)`, `cdr(p)` is `x` and `car(p)` is what it was.
pub proof fn lemma_mutation_visible(heap: HeapView, p: Value, x: Value)
    requires
        heap.holds_kind(p, VType::Pair),
    ensures
        heap.with_car(p, x).car(p) == Ok::<Value, ValueError>(x),
        heap.with_car(p, x).cdr(p) == heap.cdr(p),
        heap.with_cdr(p, x).cdr(p) == Ok::<Value, ValueError>(x),
        heap.with_cdr(p, x).car(p) == heap.car(p),
{
}

/// After `n` allocations the heap list is `n` cells longer, whatever was
/// allocated and wherever: from an empty heap it has exactly `n` cells.
pub proof fn lemma_heap_linkage(start: HeapView, cells: Seq<(u64, Object)>)
    ensures
        start.with_cells(cells).chain.len() == start.chain.len() + cells.len(),
    decreases cells.len(),
{
    if cells.len() > 0 {
        lemma_heap_linkage(start, cells.drop_last());
    }
}

} // verus!
