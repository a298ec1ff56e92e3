//! The records that live in heap cells. Each begins with the `gc` word:
//! bit 0 is the mark, the bits above it link the cell to the one that was
//! allocated before it.
use vstd::prelude::*;
use crate::value::{VType, Value};

verus! {

/// One instruction of a procedure's body. The value layer carries it and
/// never looks inside.
#[derive(Copy, Clone, Debug, PartialEq, Eq, Structural)]
pub struct Operation(pub u64);

/// The values that a procedure has captured. The collector keeps alive what
/// they refer to.
pub struct Environment {
    pub values: Vec<Value>,
}

impl Environment {
    /// An environment that has captured `values`.
    pub fn new(values: Vec<Value>) -> (env: Self)
        ensures
            env.values == values,
    {
        Environment { values }
    }
}

/// A procedure: what it has captured, and its code.
pub struct Lambda {
    pub gc: u64,
    pub env: Environment,
    pub code: Vec<Operation>,
}

impl Lambda {
    /// The cell of a procedure, linked to the cell that `root` names.
    pub fn new(root: u64, env: Environment, code: Vec<Operation>) -> (cell: Self)
        ensures
            cell.gc == root,
            cell.env == env,
            cell.code == code,
    {
        Lambda { gc: root, env, code }
    }
}

/// A pair of two values.
pub struct Pair {
    pub gc: u64,
    pub car: Value,
    pub cdr: Value,
}

impl Pair {
    /// The cell of a pair, with `gc` as its `gc` word.
    pub fn new(gc: u64, car: Value, cdr: Value) -> (cell: Self)
        ensures
            cell.gc == gc,
            cell.car == car,
            cell.cdr == cdr,
    {
        Pair { gc, car, cdr }
    }
}

/// A string.
pub struct SString {
    pub gc: u64,
    pub str: String,
}

impl SString {
    /// The cell of a string, with `gc` as its `gc` word.
    pub fn new(gc: u64, s: String) -> (cell: Self)
        ensures
            cell.gc == gc,
            cell.str == s,
    {
        SString { gc, str: s }
    }
}

/// A vector of values.
pub struct SVec {
    pub gc: u64,
    pub vec: Vec<Value>,
}

impl SVec {
    /// The cell of a vector, with `gc` as its `gc` word.
    pub fn new(gc: u64, v: Vec<Value>) -> (cell: Self)
        ensures
            cell.gc == gc,
            cell.vec == v,
    {
        SVec { gc, vec: v }
    }
}

/// What a cell holds, without its `gc` word.
pub enum Object {
    Lambda { captured: Seq<Value>, code: Seq<Operation> },
    Pair { car: Value, cdr: Value },
    Vector { items: Seq<Value> },
    Text { text: Seq<char> },
}

impl Object {
    /// The kind of value that is a handle to such a cell.
    pub open spec fn kind(self) -> VType {
        match self {
            Object::Lambda { .. } => VType::Lambda,
            Object::Pair { .. } => VType::Pair,
            Object::Vector { .. } => VType::Vec,
            Object::Text { .. } => VType::String,
        }
    }

    /// The values that the cell holds, in the order in which the collector
    /// visits them.
    pub open spec fn children(self) -> Seq<Value> {
        match self {
            Object::Lambda { captured, .. } => captured,
            Object::Pair { car, cdr } => seq![car, cdr],
            Object::Vector { items } => items,
            Object::Text { .. } => Seq::empty(),
        }
    }
}

/// A heap cell: one record of one of the four heap kinds.
pub enum HeapCell {
    Lambda(Lambda),
    Pair(Pair),
    Vec(SVec),
    String(SString),
}

impl HeapCell {
    /// The `gc` word: the link, and the mark in bit 0.
    pub open spec fn spec_gc(&self) -> u64 {
        match self {
            HeapCell::Lambda(c) => c.gc,
            HeapCell::Pair(c) => c.gc,
            HeapCell::Vec(c) => c.gc,
            HeapCell::String(c) => c.gc,
        }
    }

    pub open spec fn spec_kind(&self) -> VType {
        match self {
            HeapCell::Lambda(_) => VType::Lambda,
            HeapCell::Pair(_) => VType::Pair,
            HeapCell::Vec(_) => VType::Vec,
            HeapCell::String(_) => VType::String,
        }
    }

    /// What the cell holds.
    pub open spec fn object(self) -> Object {
        match self {
            HeapCell::Lambda(c) => Object::Lambda { captured: c.env.values@, code: c.code@ },
            HeapCell::Pair(c) => Object::Pair { car: c.car, cdr: c.cdr },
            HeapCell::Vec(c) => Object::Vector { items: c.vec@ },
            HeapCell::String(c) => Object::Text { text: c.str@ },
        }
    }

    /// The same record under another `gc` word.
    pub open spec fn with_gc(self, gc: u64) -> HeapCell {
        match self {
            HeapCell::Lambda(c) => HeapCell::Lambda(Lambda { gc, env: c.env, code: c.code }),
            HeapCell::Pair(c) => HeapCell::Pair(Pair { gc, car: c.car, cdr: c.cdr }),
            HeapCell::Vec(c) => HeapCell::Vec(SVec { gc, vec: c.vec }),
            HeapCell::String(c) => HeapCell::String(SString { gc, str: c.str }),
        }
    }

    #[verifier::when_used_as_spec(spec_gc)]
    pub fn gc(&self) -> (gc: u64)
        ensures
            gc == self.spec_gc(),
    {
        match self {
            HeapCell::Lambda(c) => c.gc,
            HeapCell::Pair(c) => c.gc,
            HeapCell::Vec(c) => c.gc,
            HeapCell::String(c) => c.gc,
        }
    }

    #[verifier::when_used_as_spec(spec_kind)]
    pub fn kind(&self) -> (kind: VType)
        ensures
            kind == self.spec_kind(),
            kind == self.object().kind(),
            kind.spec_is_heap(),
    {
        match self {
            HeapCell::Lambda(_) => VType::Lambda,
            HeapCell::Pair(_) => VType::Pair,
            HeapCell::Vec(_) => VType::Vec,
            HeapCell::String(_) => VType::String,
        }
    }

    pub(crate) fn set_gc(&mut self, gc: u64)
        ensures
            *final(self) == old(self).with_gc(gc),
            final(self).spec_gc() == gc,
            final(self).spec_kind() == old(self).spec_kind(),
            final(self).object() == old(self).object(),
    {
        match self {
            HeapCell::Lambda(c) => {
                c.gc = gc;
            },
            HeapCell::Pair(c) => {
                c.gc = gc;
            },
            HeapCell::Vec(c) => {
                c.gc = gc;
            },
            HeapCell::String(c) => {
                c.gc = gc;
            },
        }
    }
}

} // verus!
