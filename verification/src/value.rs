//! The value word: its kinds, the constructors of immediates, and the
//! projections that need no heap.
use vstd::prelude::*;
use crate::layout::{
    canonical, lemma_pointer_round_trip, pointer_word, unpack_pointer, BOOL_TAG, FALSE,
    IMMEDIATE_MASK, IMMEDIATE_TAG, INT_MASK, INT_TAG, LAMBDA_TAG, NAN, NIL_TAG, PAIR_TAG,
    POINTER_HIGH, POINTER_MASK, STRING_TAG, SYMBOL_LIMIT, SYMBOL_MASK, SYMBOL_TAG, TAG_MASK, TRUE,
    VEC_TAG, VOID_TAG,
};

verus! {

/// What can go wrong in the value layer.
#[derive(Copy, Clone, Debug, PartialEq, Eq, Structural)]
pub enum ValueError {
    /// The input has no encoding: an integer outside 32 bits, a symbol
    /// identifier that would reach the tag bits, a double whose bits lie in
    /// the tagged space.
    LayoutViolation,
    /// A projection was applied to a value of another kind, or to a handle
    /// that holds no cell of its kind.
    KindMismatch,
    /// A symbol that the interner does not know was to be printed.
    UnknownSymbol,
    /// The heap is full.
    AllocationFailure,
    /// The word carries a tag that stands for no kind.
    ReservedTag,
    /// Printing went deeper than the heap has cells: the value holds itself.
    TooDeep,
}

/// The kinds of value.
#[derive(Copy, Clone, Debug, PartialEq, Eq, Structural)]
pub enum VType {
    Void,
    Nil,
    Bool,
    Integer,
    Float,
    Symbol,
    Lambda,
    Pair,
    Vec,
    String,
}

impl VType {
    /// The number that stands for a kind in a head word.
    pub open spec fn spec_code(self) -> u64 {
        match self {
            VType::Void => 0,
            VType::Nil => 1,
            VType::Bool => 2,
            VType::Integer => 3,
            VType::Float => 4,
            VType::Symbol => 5,
            VType::Lambda => 6,
            VType::Pair => 7,
            VType::Vec => 8,
            VType::String => 9,
        }
    }

    #[verifier::when_used_as_spec(spec_code)]
    pub fn code(self) -> (c: u64)
        ensures
            c == self.spec_code(),
    {
        match self {
            VType::Void => 0,
            VType::Nil => 1,
            VType::Bool => 2,
            VType::Integer => 3,
            VType::Float => 4,
            VType::Symbol => 5,
            VType::Lambda => 6,
            VType::Pair => 7,
            VType::Vec => 8,
            VType::String => 9,
        }
    }

    /// Whether values of this kind live in a heap cell.
    pub open spec fn spec_is_heap(self) -> bool {
        self == VType::Lambda || self == VType::Pair || self == VType::Vec || self
            == VType::String
    }

    #[verifier::when_used_as_spec(spec_is_heap)]
    pub fn is_heap(self) -> (b: bool)
        ensures
            b == self.spec_is_heap(),
    {
        match self {
            VType::Lambda | VType::Pair | VType::Vec | VType::String => true,
            _ => false,
        }
    }

    /// The tag that a value of this heap kind carries in bits 50:48.
    pub open spec fn spec_tag(self) -> u64
        recommends
            self.spec_is_heap(),
    {
        match self {
            VType::Lambda => LAMBDA_TAG,
            VType::Pair => PAIR_TAG,
            VType::Vec => VEC_TAG,
            _ => STRING_TAG,
        }
    }

    /// The codes that a head word can carry: a heap kind, or `Void` for the
    /// empty list.
    pub open spec fn head_code_ok(p: u64) -> bool {
        p == 0 || (6 <= p && p <= 9)
    }

    /// The kind that a head word's code stands for.
    pub fn from(p: u64) -> (t: VType)
        requires
            Self::head_code_ok(p),
        ensures
            t.spec_code() == p,
            p != 0 ==> t.spec_is_heap(),
    {
        if p == 9 {
            VType::String
        } else if p == 8 {
            VType::Vec
        } else if p == 6 {
            VType::Lambda
        } else if p == 7 {
            VType::Pair
        } else {
            VType::Void
        }
    }
}

/// One 64-bit word: a double, an immediate, or a handle to a heap cell.
#[derive(Copy, Clone, Debug, PartialEq, Eq, PartialOrd, Structural)]
pub struct Value(pub u64);

impl From<u64> for Value {
    /// The value whose word is `v`, whatever it stands for.
    fn from(v: u64) -> (ret: Value)
        ensures
            ret.0 == v,
    {
        Value(v)
    }
}

impl vstd::std_specs::convert::FromSpecImpl<u64> for Value {
    open spec fn obeys_from_spec() -> bool {
        true
    }

    open spec fn from_spec(v: u64) -> Value {
        Value(v)
    }
}

impl std::ops::Deref for Value {
    type Target = u64;

    fn deref(&self) -> (word: &u64)
        ensures
            *word == self.0,
    {
        &self.0
    }
}

/// The low 32 bits that stand for a signed integer (two's complement).
pub open spec fn int_payload(i: i32) -> u64 {
    if i >= 0 {
        i as u64
    } else {
        (i + 0x1_0000_0000) as u64
    }
}

/// The signed integer that 32 low bits stand for.
pub open spec fn int_of_payload(low: u64) -> i32
    recommends
        low <= INT_MASK,
{
    if low < 0x8000_0000 {
        low as i32
    } else {
        (low - 0x1_0000_0000) as i32
    }
}

/// One where the predicate holds, zero where it does not.
pub open spec fn one_if(b: bool) -> nat {
    if b {
        1
    } else {
        0
    }
}

impl Value {
    // ----- the words of the immediates -----

    pub open spec fn spec_void() -> Value {
        Value(NAN | VOID_TAG)
    }

    pub open spec fn spec_nil() -> Value {
        Value(NAN | NIL_TAG)
    }

    pub open spec fn spec_true() -> Value {
        Value(NAN | BOOL_TAG | TRUE)
    }

    pub open spec fn spec_false() -> Value {
        Value(NAN | BOOL_TAG | FALSE)
    }

    pub open spec fn spec_bool(b: bool) -> Value {
        if b {
            Self::spec_true()
        } else {
            Self::spec_false()
        }
    }

    pub open spec fn spec_integer(i: i32) -> Value {
        Value(NAN | INT_TAG | int_payload(i))
    }

    pub open spec fn spec_symbol(id: u64) -> Value
        recommends
            id < SYMBOL_LIMIT,
    {
        Value(NAN | SYMBOL_TAG | id)
    }

    /// The handle of kind `kind` to the cell at `address`.
    pub open spec fn spec_handle(kind: VType, address: u64) -> Value
        recommends
            kind.spec_is_heap(),
    {
        Value(pointer_word(kind.spec_tag(), address))
    }

    // ----- predicates -----

    pub open spec fn spec_is_float(self) -> bool {
        (self.0 & NAN) != NAN
    }

    pub open spec fn spec_is_imm(self, tag: u64) -> bool {
        (self.0 & NAN) == NAN && (self.0 & TAG_MASK) == IMMEDIATE_TAG && (self.0
            & IMMEDIATE_MASK) == tag
    }

    pub open spec fn spec_is_tagged(self, tag: u64) -> bool {
        (self.0 & NAN) == NAN && (self.0 & TAG_MASK) == tag
    }

    pub open spec fn spec_is_void(self) -> bool {
        self.spec_is_imm(VOID_TAG)
    }

    pub open spec fn spec_is_nil(self) -> bool {
        self.spec_is_imm(NIL_TAG)
    }

    pub open spec fn spec_is_bool(self) -> bool {
        self.spec_is_imm(BOOL_TAG)
    }

    pub open spec fn spec_is_true(self) -> bool {
        self.spec_is_bool() && (self.0 & TRUE) == TRUE
    }

    pub open spec fn spec_is_false(self) -> bool {
        self.spec_is_bool() && (self.0 & TRUE) == FALSE
    }

    pub open spec fn spec_is_integer(self) -> bool {
        self.spec_is_imm(INT_TAG)
    }

    pub open spec fn spec_is_symbol(self) -> bool {
        self.spec_is_imm(SYMBOL_TAG)
    }

    pub open spec fn spec_is_lambda(self) -> bool {
        self.spec_is_tagged(LAMBDA_TAG)
    }

    pub open spec fn spec_is_pair(self) -> bool {
        self.spec_is_tagged(PAIR_TAG)
    }

    pub open spec fn spec_is_vec(self) -> bool {
        self.spec_is_tagged(VEC_TAG)
    }

    pub open spec fn spec_is_string(self) -> bool {
        self.spec_is_tagged(STRING_TAG)
    }

    /// The kind of the word, where it has one.
    pub open spec fn kind_of(self) -> Option<VType> {
        if self.spec_is_void() {
            Some(VType::Void)
        } else if self.spec_is_nil() {
            Some(VType::Nil)
        } else if self.spec_is_bool() {
            Some(VType::Bool)
        } else if self.spec_is_integer() {
            Some(VType::Integer)
        } else if self.spec_is_float() {
            Some(VType::Float)
        } else if self.spec_is_symbol() {
            Some(VType::Symbol)
        } else if self.spec_is_lambda() {
            Some(VType::Lambda)
        } else if self.spec_is_pair() {
            Some(VType::Pair)
        } else if self.spec_is_vec() {
            Some(VType::Vec)
        } else if self.spec_is_string() {
            Some(VType::String)
        } else {
            None
        }
    }

    /// A word is well formed when it has a kind: it is a double outside the
    /// tagged space, or it carries one of the ten tags in use.
    pub open spec fn spec_is_well_formed(self) -> bool {
        self.kind_of() is Some
    }

    /// How many of the eleven predicates hold of the word.
    pub open spec fn predicates_holding(self) -> nat {
        one_if(self.spec_is_float()) + one_if(self.spec_is_void()) + one_if(self.spec_is_nil())
            + one_if(self.spec_is_true()) + one_if(self.spec_is_false()) + one_if(
            self.spec_is_integer(),
        ) + one_if(self.spec_is_symbol()) + one_if(self.spec_is_lambda()) + one_if(
            self.spec_is_pair(),
        ) + one_if(self.spec_is_vec()) + one_if(self.spec_is_string())
    }

    #[verifier::when_used_as_spec(spec_is_float)]
    pub fn is_float(self) -> (b: bool)
        ensures
            b == self.spec_is_float(),
    {
        (self.0 & NAN) != NAN
    }

    #[verifier::when_used_as_spec(spec_is_void)]
    pub fn is_void(self) -> (b: bool)
        ensures
            b == self.spec_is_void(),
    {
        (self.0 & NAN) == NAN && (self.0 & TAG_MASK) == IMMEDIATE_TAG && (self.0 & IMMEDIATE_MASK)
            == VOID_TAG
    }

    #[verifier::when_used_as_spec(spec_is_nil)]
    pub fn is_nil(self) -> (b: bool)
        ensures
            b == self.spec_is_nil(),
    {
        (self.0 & NAN) == NAN && (self.0 & TAG_MASK) == IMMEDIATE_TAG && (self.0 & IMMEDIATE_MASK)
            == NIL_TAG
    }

    #[verifier::when_used_as_spec(spec_is_bool)]
    pub fn is_bool(self) -> (b: bool)
        ensures
            b == self.spec_is_bool(),
    {
        (self.0 & NAN) == NAN && (self.0 & TAG_MASK) == IMMEDIATE_TAG && (self.0 & IMMEDIATE_MASK)
            == BOOL_TAG
    }

    /// A boolean whose bit 0 is set. No other kind of value is true.
    #[verifier::when_used_as_spec(spec_is_true)]
    pub fn is_true(self) -> (b: bool)
        ensures
            b == self.spec_is_true(),
    {
        self.is_bool() && (self.0 & TRUE) == TRUE
    }

    /// A boolean whose bit 0 is clear.
    #[verifier::when_used_as_spec(spec_is_false)]
    pub fn is_false(self) -> (b: bool)
        ensures
            b == self.spec_is_false(),
    {
        self.is_bool() && (self.0 & TRUE) == FALSE
    }

    #[verifier::when_used_as_spec(spec_is_integer)]
    pub fn is_integer(self) -> (b: bool)
        ensures
            b == self.spec_is_integer(),
    {
        (self.0 & NAN) == NAN && (self.0 & TAG_MASK) == IMMEDIATE_TAG && (self.0 & IMMEDIATE_MASK)
            == INT_TAG
    }

    #[verifier::when_used_as_spec(spec_is_symbol)]
    pub fn is_symbol(self) -> (b: bool)
        ensures
            b == self.spec_is_symbol(),
    {
        (self.0 & NAN) == NAN && (self.0 & TAG_MASK) == IMMEDIATE_TAG && (self.0 & IMMEDIATE_MASK)
            == SYMBOL_TAG
    }

    #[verifier::when_used_as_spec(spec_is_lambda)]
    pub fn is_lambda(self) -> (b: bool)
        ensures
            b == self.spec_is_lambda(),
    {
        (self.0 & NAN) == NAN && (self.0 & TAG_MASK) == LAMBDA_TAG
    }

    #[verifier::when_used_as_spec(spec_is_pair)]
    pub fn is_pair(self) -> (b: bool)
        ensures
            b == self.spec_is_pair(),
    {
        (self.0 & NAN) == NAN && (self.0 & TAG_MASK) == PAIR_TAG
    }

    #[verifier::when_used_as_spec(spec_is_vec)]
    pub fn is_vec(self) -> (b: bool)
        ensures
            b == self.spec_is_vec(),
    {
        (self.0 & NAN) == NAN && (self.0 & TAG_MASK) == VEC_TAG
    }

    #[verifier::when_used_as_spec(spec_is_string)]
    pub fn is_string(self) -> (b: bool)
        ensures
            b == self.spec_is_string(),
    {
        (self.0 & NAN) == NAN && (self.0 & TAG_MASK) == STRING_TAG
    }

    #[verifier::when_used_as_spec(spec_is_well_formed)]
    pub fn is_well_formed(self) -> (b: bool)
        ensures
            b == self.spec_is_well_formed(),
    {
        self.is_float() || self.is_void() || self.is_nil() || self.is_bool() || self.is_integer()
            || self.is_symbol() || self.is_lambda() || self.is_pair() || self.is_vec()
            || self.is_string()
    }

    // ----- classification -----

    /// The kind of a well-formed word.
    pub fn to_type(self) -> (t: VType)
        requires
            self.spec_is_well_formed(),
        ensures
            Some(t) == self.kind_of(),
    {
        if self.is_void() {
            VType::Void
        } else if self.is_nil() {
            VType::Nil
        } else if self.is_bool() {
            VType::Bool
        } else if self.is_integer() {
            VType::Integer
        } else if self.is_float() {
            VType::Float
        } else if self.is_symbol() {
            VType::Symbol
        } else if self.is_lambda() {
            VType::Lambda
        } else if self.is_pair() {
            VType::Pair
        } else if self.is_vec() {
            VType::Vec
        } else {
            VType::String
        }
    }

    /// The kind of any word: `ReservedTag` for the words that have none.
    pub fn kind(self) -> (r: Result<VType, ValueError>)
        ensures
            r == (match self.kind_of() {
                Some(t) => Ok::<VType, ValueError>(t),
                None => Err::<VType, ValueError>(ValueError::ReservedTag),
            }),
    {
        if self.is_well_formed() {
            Ok(self.to_type())
        } else {
            Err(ValueError::ReservedTag)
        }
    }

    // ----- immediates -----

    pub fn Void() -> (v: Value)
        ensures
            v == Self::spec_void(),
            v.spec_is_void(),
    {
        proof {
            lemma_immediate_words();
        }
        Value(NAN | VOID_TAG)
    }

    pub fn Nil() -> (v: Value)
        ensures
            v == Self::spec_nil(),
            v.spec_is_nil(),
    {
        proof {
            lemma_immediate_words();
        }
        Value(NAN | NIL_TAG)
    }

    pub fn True() -> (v: Value)
        ensures
            v == Self::spec_true(),
            v.spec_is_true(),
    {
        proof {
            lemma_immediate_words();
        }
        Value(NAN | BOOL_TAG | TRUE)
    }

    pub fn False() -> (v: Value)
        ensures
            v == Self::spec_false(),
            v.spec_is_false(),
    {
        proof {
            lemma_immediate_words();
        }
        Value(NAN | BOOL_TAG | FALSE)
    }

    pub fn Bool(b: bool) -> (v: Value)
        ensures
            v == Self::spec_bool(b),
            v.spec_is_bool(),
            v.spec_to_bool() == b,
            v.spec_is_true() == b,
            v.spec_is_false() == !b,
    {
        proof {
            lemma_immediate_words();
        }
        if b {
            Self::True()
        } else {
            Self::False()
        }
    }

    /// The bit that tells the booleans apart.
    pub open spec fn spec_to_bool(self) -> bool {
        (self.0 & TRUE) == TRUE
    }

    /// The truth value of a boolean. Of a word of another kind it says
    /// whether bit 0 is set.
    #[verifier::when_used_as_spec(spec_to_bool)]
    pub fn to_bool(self) -> (b: bool)
        ensures
            b == self.spec_to_bool(),
    {
        (self.0 & TRUE) == TRUE
    }

    pub fn Integer(i: i32) -> (v: Value)
        ensures
            v == Self::spec_integer(i),
            v.spec_is_integer(),
            v.spec_to_integer() == i,
    {
        proof {
            lemma_integer_round_trip(i);
        }
        let payload: u64 = if i >= 0 {
            i as u64
        } else {
            (i as i64 + 0x1_0000_0000) as u64
        };
        Value(NAN | INT_TAG | payload)
    }

    /// The integer for a number of any size: `LayoutViolation` for one that
    /// 32 bits cannot hold.
    pub fn try_integer(i: i64) -> (r: Result<Value, ValueError>)
        ensures
            -0x8000_0000 <= i <= 0x7FFF_FFFF ==> r == Ok::<Value, ValueError>(
                Self::spec_integer(i as i32),
            ),
            !(-0x8000_0000 <= i <= 0x7FFF_FFFF) ==> r == Err::<Value, ValueError>(
                ValueError::LayoutViolation,
            ),
    {
        if -0x8000_0000 <= i && i <= 0x7FFF_FFFF {
            Ok(Self::Integer(i as i32))
        } else {
            Err(ValueError::LayoutViolation)
        }
    }

    /// The low 32 bits of the word, read as a signed integer.
    pub open spec fn spec_to_integer(self) -> i32 {
        int_of_payload(self.0 & INT_MASK)
    }

    #[verifier::when_used_as_spec(spec_to_integer)]
    pub fn to_integer(self) -> (i: i32)
        ensures
            i == self.spec_to_integer(),
    {
        let word: u64 = self.0;
        let low: u64 = word & INT_MASK;
        assert(low <= INT_MASK) by (bit_vector)
            requires
                low == word & INT_MASK,
        ;
        if low < 0x8000_0000 {
            low as i32
        } else {
            (low as i64 - 0x1_0000_0000) as i32
        }
    }

    /// The symbol with the identifier `id`: `LayoutViolation` for an
    /// identifier that does not fit below the tag bits.
    pub fn Symbol(id: u64) -> (r: Result<Value, ValueError>)
        ensures
            id < SYMBOL_LIMIT ==> r == Ok::<Value, ValueError>(Self::spec_symbol(id)),
            id >= SYMBOL_LIMIT ==> r == Err::<Value, ValueError>(ValueError::LayoutViolation),
            r matches Ok(v) ==> v.spec_is_symbol() && v.spec_to_symbol() == id,
    {
        if id < SYMBOL_LIMIT {
            proof {
                lemma_symbol_round_trip(id);
            }
            Ok(Value(NAN | SYMBOL_TAG | id))
        } else {
            Err(ValueError::LayoutViolation)
        }
    }

    /// The identifier that the word carries below its tag bits.
    pub open spec fn spec_to_symbol(self) -> u64 {
        self.0 & SYMBOL_MASK
    }

    #[verifier::when_used_as_spec(spec_to_symbol)]
    pub fn to_symbol(self) -> (id: u64)
        ensures
            id == self.spec_to_symbol(),
    {
        self.0 & SYMBOL_MASK
    }

    /// The value whose word is the bit pattern of a double: `LayoutViolation`
    /// for a pattern inside the tagged space (an infinity or a NaN), which no
    /// float value can hold.
    pub fn from_float_bits(bits: u64) -> (r: Result<Value, ValueError>)
        ensures
            (bits & NAN) != NAN ==> r == Ok::<Value, ValueError>(Value(bits)),
            (bits & NAN) == NAN ==> r == Err::<Value, ValueError>(ValueError::LayoutViolation),
            r matches Ok(v) ==> v.spec_is_float() && v.spec_to_float_bits() == bits,
    {
        if (bits & NAN) != NAN {
            Ok(Value(bits))
        } else {
            Err(ValueError::LayoutViolation)
        }
    }

    /// The bit pattern of the double that the word is.
    pub open spec fn spec_to_float_bits(self) -> u64 {
        self.0
    }

    #[verifier::when_used_as_spec(spec_to_float_bits)]
    pub fn to_float_bits(self) -> (bits: u64)
        ensures
            bits == self.spec_to_float_bits(),
    {
        self.0
    }

    // ----- pointers -----

    /// Whether the word is a handle to a heap cell.
    pub open spec fn spec_is_pointer(self) -> bool {
        self.spec_is_lambda() || self.spec_is_pair() || self.spec_is_vec()
            || self.spec_is_string()
    }

    #[verifier::when_used_as_spec(spec_is_pointer)]
    pub fn is_pointer(self) -> (b: bool)
        ensures
            b == self.spec_is_pointer(),
    {
        self.is_lambda() || self.is_pair() || self.is_vec() || self.is_string()
    }

    /// The address in bits 47:0, with bits 63:48 set to what bit 47 is.
    pub open spec fn spec_to_pointer(self) -> u64 {
        unpack_pointer(self.0)
    }

    #[verifier::when_used_as_spec(spec_to_pointer)]
    pub fn to_pointer(self) -> (p: u64)
        ensures
            p == self.spec_to_pointer(),
    {
        if 1 == (self.0 >> 47) & 1 {
            self.0 | POINTER_HIGH
        } else {
            self.0 & POINTER_MASK
        }
    }
}

/// The four constant immediates are of the kind their name says.
pub proof fn lemma_immediate_words()
    ensures
        Value::spec_void().spec_is_void(),
        Value::spec_nil().spec_is_nil(),
        Value::spec_true().spec_is_true(),
        Value::spec_true().spec_to_bool(),
        Value::spec_false().spec_is_false(),
        !Value::spec_false().spec_to_bool(),
{
    assert((NAN | VOID_TAG) & NAN == NAN && (NAN | VOID_TAG) & TAG_MASK == IMMEDIATE_TAG && (NAN
        | VOID_TAG) & IMMEDIATE_MASK == VOID_TAG) by (bit_vector);
    assert((NAN | NIL_TAG) & NAN == NAN && (NAN | NIL_TAG) & TAG_MASK == IMMEDIATE_TAG && (NAN
        | NIL_TAG) & IMMEDIATE_MASK == NIL_TAG) by (bit_vector);
    assert((NAN | BOOL_TAG | TRUE) & NAN == NAN && (NAN | BOOL_TAG | TRUE) & TAG_MASK
        == IMMEDIATE_TAG && (NAN | BOOL_TAG | TRUE) & IMMEDIATE_MASK == BOOL_TAG && (NAN | BOOL_TAG
        | TRUE) & TRUE == TRUE) by (bit_vector);
    assert((NAN | BOOL_TAG | FALSE) & NAN == NAN && (NAN | BOOL_TAG | FALSE) & TAG_MASK
        == IMMEDIATE_TAG && (NAN | BOOL_TAG | FALSE) & IMMEDIATE_MASK == BOOL_TAG && (NAN
        | BOOL_TAG | FALSE) & TRUE == FALSE) by (bit_vector);
}

/// The primary tag of a word, bits 50:48.
pub open spec fn primary_tag(w: u64) -> u64 {
    (w >> 48) & 7
}

/// The immediate tag of a word, bits 47:44.
pub open spec fn immediate_tag(w: u64) -> u64 {
    (w >> 44) & 15
}

/// The kind that the tags of a word stand for: a double where the exponent
/// bits are not all set, else what the primary tag says, and under primary
/// tag zero what the immediate tag says.
pub open spec fn kind_by_tags(w: u64) -> Option<VType> {
    if (w & NAN) != NAN {
        Some(VType::Float)
    } else if primary_tag(w) == 0 {
        if immediate_tag(w) == 1 {
            Some(VType::Void)
        } else if immediate_tag(w) == 2 {
            Some(VType::Nil)
        } else if immediate_tag(w) == 3 {
            Some(VType::Bool)
        } else if immediate_tag(w) == 4 {
            Some(VType::Integer)
        } else if immediate_tag(w) == 5 {
            Some(VType::Symbol)
        } else {
            None
        }
    } else if primary_tag(w) == 1 {
        Some(VType::Lambda)
    } else if primary_tag(w) == 2 {
        Some(VType::Pair)
    } else if primary_tag(w) == 3 {
        Some(VType::Vec)
    } else if primary_tag(w) == 4 {
        Some(VType::String)
    } else {
        None
    }
}

/// The kind of a word is what its tags stand for. The primary tags five to
/// seven and the immediate tags zero and six to fifteen stand for nothing.
pub proof fn lemma_kind_by_tags(v: Value)
    ensures
        v.kind_of() == kind_by_tags(v.0),
{
    let w = v.0;
    assert(((w & TAG_MASK) == IMMEDIATE_TAG) == (primary_tag(w) == 0) && ((w & TAG_MASK)
        == LAMBDA_TAG) == (primary_tag(w) == 1) && ((w & TAG_MASK) == PAIR_TAG) == (primary_tag(w)
        == 2) && ((w & TAG_MASK) == VEC_TAG) == (primary_tag(w) == 3) && ((w & TAG_MASK)
        == STRING_TAG) == (primary_tag(w) == 4)) by (bit_vector);
    assert(((w & IMMEDIATE_MASK) == VOID_TAG) == (immediate_tag(w) == 1) && ((w & IMMEDIATE_MASK)
        == NIL_TAG) == (immediate_tag(w) == 2) && ((w & IMMEDIATE_MASK) == BOOL_TAG) == (
    immediate_tag(w) == 3) && ((w & IMMEDIATE_MASK) == INT_TAG) == (immediate_tag(w) == 4) && ((w
        & IMMEDIATE_MASK) == SYMBOL_TAG) == (immediate_tag(w) == 5)) by (bit_vector);
}

/// Exactly one of the eleven predicates (float, void, nil, true, false,
/// integer, symbol, lambda, pair, vector, string) holds of a well-formed
/// word, and none holds of any other word.
pub proof fn lemma_exclusive_classification(v: Value)
    ensures
        v.spec_is_well_formed() ==> v.predicates_holding() == 1,
        !v.spec_is_well_formed() ==> v.predicates_holding() == 0,
{
    let w = v.0;
    assert((w & TRUE) == TRUE || (w & TRUE) == FALSE) by (bit_vector);
}

/// An integer that was made into a value is read back unchanged, for every
/// 32-bit integer.
pub proof fn lemma_integer_round_trip(i: i32)
    ensures
        Value::spec_integer(i).spec_is_integer(),
        Value::spec_integer(i).spec_to_integer() == i,
{
    let p = int_payload(i);
    assert(p <= INT_MASK);
    assert((NAN | INT_TAG | p) & NAN == NAN && (NAN | INT_TAG | p) & TAG_MASK == IMMEDIATE_TAG
        && (NAN | INT_TAG | p) & IMMEDIATE_MASK == INT_TAG && (NAN | INT_TAG | p) & INT_MASK == p)
        by (bit_vector)
        requires
            p <= INT_MASK,
    ;
}

/// A double whose bit pattern lies outside the tagged space is read back bit
/// for bit. Every finite double is such a pattern.
pub proof fn lemma_float_round_trip(bits: u64)
    requires
        (bits & NAN) != NAN,
    ensures
        Value(bits).spec_is_float(),
        Value(bits).spec_to_float_bits() == bits,
        Value(bits).kind_of() == Some(VType::Float),
{
}

/// A symbol identifier below the limit is read back unchanged.
pub proof fn lemma_symbol_round_trip(id: u64)
    requires
        id < SYMBOL_LIMIT,
    ensures
        Value::spec_symbol(id).spec_is_symbol(),
        Value::spec_symbol(id).spec_to_symbol() == id,
{
    assert((NAN | SYMBOL_TAG | id) & NAN == NAN && (NAN | SYMBOL_TAG | id) & TAG_MASK
        == IMMEDIATE_TAG && (NAN | SYMBOL_TAG | id) & IMMEDIATE_MASK == SYMBOL_TAG && (NAN
        | SYMBOL_TAG | id) & SYMBOL_MASK == id) by (bit_vector)
        requires
            id < SYMBOL_LIMIT,
    ;
}

/// A handle is of the kind it was made for and gives back the address it was
/// made of, for every canonical address.
pub proof fn lemma_handle(kind: VType, address: u64)
    requires
        kind.spec_is_heap(),
        canonical(address),
    ensures
        Value::spec_handle(kind, address).kind_of() == Some(kind),
        Value::spec_handle(kind, address).spec_is_pointer(),
        Value::spec_handle(kind, address).spec_to_pointer() == address,
{
    lemma_pointer_round_trip(kind.spec_tag(), address);
}

} // verus!
