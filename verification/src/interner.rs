//! The table of symbols: every text that was interned, by the number it was
//! given. The table itself is the `string-interner` crate's.
use vstd::prelude::*;
use string_interner::symbol::SymbolU32;
use string_interner::DefaultStringInterner;
use string_interner::Symbol;
use crate::value::ValueError;

verus! {

/// The most texts that a table holds: its symbols are 32 bits wide, and one
/// of their values stands for no symbol.
pub const MAX_SYMBOLS: u64 = 0xFFFF_FFFF;

/// A table of interned texts.
#[verifier::external_body]
pub struct Interner {
    table: DefaultStringInterner,
}

/// The texts that a table holds, each at the index that is its symbol.
pub uninterp spec fn interned_texts(interner: Interner) -> Seq<Seq<char>>;

impl View for Interner {
    type V = Seq<Seq<char>>;

    open spec fn view(&self) -> Seq<Seq<char>> {
        interned_texts(*self)
    }
}

impl Interner {
    /// `StringInterner::new` with the default backend: a table that holds no
    /// text.
    #[verifier::external_body]
    fn empty_table() -> (interner: Interner)
        ensures
            interned_texts(interner) == Seq::<Seq<char>>::empty(),
    {
        Interner { table: DefaultStringInterner::new() }
    }

    /// `StringInterner::len`: how many texts the table holds. There are
    /// never more than `MAX_SYMBOLS`: the crate panics before it would give
    /// out a symbol that 32 bits cannot hold.
    #[verifier::external_body]
    fn table_len(&self) -> (n: usize)
        ensures
            n == interned_texts(*self).len(),
            n <= MAX_SYMBOLS,
    {
        self.table.len()
    }

    /// `StringInterner::get_or_intern`, then `Symbol::to_usize`. A text that
    /// the table holds keeps its index and the table stays as it is; a new
    /// text is put behind the others, so that its index is the number of
    /// texts before it. The table must have room: with `MAX_SYMBOLS` texts in
    /// it the crate panics on a new one.
    #[verifier::external_body]
    fn get_or_intern(&mut self, text: &str) -> (index: usize)
        requires
            interned_texts(*old(self)).len() < MAX_SYMBOLS,
        ensures
            interned_texts(*old(self)).contains(text@) ==> interned_texts(*final(self))
                == interned_texts(*old(self)),
            !interned_texts(*old(self)).contains(text@) ==> interned_texts(*final(self))
                == interned_texts(*old(self)).push(text@),
            index < interned_texts(*final(self)).len(),
            interned_texts(*final(self))[index as int] == text@,
    {
        self.table.get_or_intern(text).to_usize()
    }

    /// `Symbol::try_from_usize`, then `StringInterner::resolve`: the text at
    /// `index`, or nothing where the table holds no text there.
    #[verifier::external_body]
    fn resolve(&self, index: u32) -> (text: Option<String>)
        ensures
            text is Some <==> index < interned_texts(*self).len(),
            text matches Some(s) ==> s@ == interned_texts(*self)[index as int],
    {
        let symbol = SymbolU32::try_from_usize(index as usize)?;
        let text = self.table.resolve(symbol)?;
        Some(text.to_string())
    }

    /// A table that holds no text.
    pub fn new() -> (interner: Interner)
        ensures
            interner@ == Seq::<Seq<char>>::empty(),
    {
        Self::empty_table()
    }

    /// How many texts the table holds.
    pub fn len(&self) -> (n: usize)
        ensures
            n == self@.len(),
            n <= MAX_SYMBOLS,
    {
        self.table_len()
    }

    /// The symbol identifier of `text`, which is interned if it was not:
    /// `AllocationFailure` where the table is full, and then it stays as it
    /// is.
    pub fn intern(&mut self, text: &str) -> (r: Result<u64, ValueError>)
        ensures
            r is Ok <==> old(self)@.len() < MAX_SYMBOLS,
            r matches Ok(id) ==> {
                &&& id < final(self)@.len()
                &&& final(self)@[id as int] == text@
                &&& old(self)@.contains(text@) ==> final(self)@ == old(self)@
                &&& !old(self)@.contains(text@) ==> final(self)@ == old(self)@.push(text@)
            },
            r matches Err(e) ==> e == ValueError::AllocationFailure && final(self)@ == old(self)@,
    {
        if (self.table_len() as u64) < MAX_SYMBOLS {
            let index = self.get_or_intern(text);
            Ok(index as u64)
        } else {
            Err(ValueError::AllocationFailure)
        }
    }

    /// The text of the symbol `id`, where the table holds one.
    pub fn text_of(&self, id: u64) -> (text: Option<String>)
        ensures
            text is Some <==> id < self@.len(),
            text matches Some(s) ==> s@ == self@[id as int],
    {
        if id <= 0xFFFF_FFFF {
            self.resolve(id as u32)
        } else {
            let n = self.table_len();
            assert(id >= n);
            None
        }
    }
}

} // verus!
