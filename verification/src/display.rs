//! Printing. A value is written as a run of pieces: bytes, and doubles whose
//! decimal form is left to whoever owns the sink.
use vstd::prelude::*;
use vstd::string::StringSliceAdditionalSpecFns;
use vstd::utf8::encode_utf8;
use crate::heap::{holds, Heap, HeapView};
use crate::heap_repr::Object;
use crate::interner::Interner;
use crate::mark::{child, is_path, points_to, reachable, step};
use crate::value::{Value, ValueError};

verus! {

/// One item of output.
#[derive(Copy, Clone, Debug, PartialEq, Eq, Structural)]
pub enum Piece {
    /// One byte of text.
    Byte(u8),
    /// The decimal form of the double with this bit pattern.
    Float(u64),
}

/// The pieces that stand for a run of bytes.
pub open spec fn bytes(s: Seq<u8>) -> Seq<Piece> {
    Seq::new(s.len(), |i: int| Piece::Byte(s[i]))
}

/// The pieces that stand for a text.
pub open spec fn text(s: &str) -> Seq<Piece> {
    bytes(s.spec_bytes())
}

/// The decimal digits of a natural number, most significant first.
pub open spec fn digits(n: nat) -> Seq<u8>
    decreases n,
{
    if n < 10 {
        seq![(48 + n) as u8]
    } else {
        digits(n / 10).push((48 + n % 10) as u8)
    }
}

/// The decimal form of an integer.
pub open spec fn decimal(i: int) -> Seq<u8> {
    if i < 0 {
        seq![45u8] + digits((-i) as nat)
    } else {
        digits(i as nat)
    }
}

/// `rest` behind `prefix`, where `rest` was written.
pub open spec fn after(prefix: Seq<Piece>, rest: Result<Seq<Piece>, ValueError>) -> Result<
    Seq<Piece>,
    ValueError,
> {
    match rest {
        Ok(s) => Ok(prefix + s),
        Err(e) => Err(e),
    }
}

/// `second` behind `first`, where both were written: else the error that
/// came first.
pub open spec fn then(
    first: Result<Seq<Piece>, ValueError>,
    second: Result<Seq<Piece>, ValueError>,
) -> Result<Seq<Piece>, ValueError> {
    match first {
        Ok(s) => after(s, second),
        Err(e) => Err(e),
    }
}

/// What printing `v` writes, by the rules of the language, or the error that
/// stops it. `fuel` bounds how many pairs and vectors can be open at once.
pub open spec fn render(
    objects: Map<u64, Object>,
    texts: Seq<Seq<char>>,
    v: Value,
    fuel: nat,
) -> Result<Seq<Piece>, ValueError>
    decreases fuel, 0nat, 0nat,
{
    if v.spec_is_float() {
        Ok(seq![Piece::Float(v.0)])
    } else if v.spec_is_integer() {
        Ok(bytes(decimal(v.spec_to_integer() as int)))
    } else if v.spec_is_symbol() {
        if v.spec_to_symbol() < texts.len() {
            Ok(bytes(encode_utf8(texts[v.spec_to_symbol() as int])))
        } else {
            Err(ValueError::UnknownSymbol)
        }
    } else if v.spec_is_true() {
        Ok(text("#t"))
    } else if v.spec_is_false() {
        Ok(text("#f"))
    } else if v.spec_is_nil() {
        Ok(text("()"))
    } else if v.spec_is_void() {
        Ok(Seq::empty())
    } else if v.spec_is_lambda() {
        Ok(text("#<procedure>"))
    } else if v.spec_is_pair() {
        if !holds(objects, v) {
            Err(ValueError::KindMismatch)
        } else if fuel == 0 {
            Err(ValueError::TooDeep)
        } else {
            after(
                text("("),
                then(
                    render(
                        objects,
                        texts,
                        objects[v.spec_to_pointer()]->Pair_car,
                        (fuel - 1) as nat,
                    ),
                    render_tail(
                        objects,
                        texts,
                        objects[v.spec_to_pointer()]->Pair_cdr,
                        (fuel - 1) as nat,
                    ),
                ),
            )
        }
    } else if v.spec_is_string() {
        if !holds(objects, v) {
            Err(ValueError::KindMismatch)
        } else {
            Ok(
                text("\"") + bytes(encode_utf8(objects[v.spec_to_pointer()]->Text_text)) + text(
                    "\"",
                ),
            )
        }
    } else if v.spec_is_vec() {
        if !holds(objects, v) {
            Err(ValueError::KindMismatch)
        } else if fuel == 0 {
            Err(ValueError::TooDeep)
        } else {
            after(
                text("#("),
                render_items(
                    objects,
                    texts,
                    objects[v.spec_to_pointer()]->Vector_items,
                    0,
                    (fuel - 1) as nat,
                ),
            )
        }
    } else {
        Err(ValueError::ReservedTag)
    }
}

/// What is written behind the first element of a list whose rest is `c`:
/// the further elements, each behind a space, then the closing bracket, with
/// a dot before a last value that is not the empty list.
pub open spec fn render_tail(
    objects: Map<u64, Object>,
    texts: Seq<Seq<char>>,
    c: Value,
    fuel: nat,
) -> Result<Seq<Piece>, ValueError>
    decreases fuel, 1nat, 0nat,
{
    if c.spec_is_pair() {
        if !holds(objects, c) {
            Err(ValueError::KindMismatch)
        } else if fuel == 0 {
            Err(ValueError::TooDeep)
        } else {
            after(
                text(" "),
                then(
                    render(
                        objects,
                        texts,
                        objects[c.spec_to_pointer()]->Pair_car,
                        (fuel - 1) as nat,
                    ),
                    render_tail(
                        objects,
                        texts,
                        objects[c.spec_to_pointer()]->Pair_cdr,
                        (fuel - 1) as nat,
                    ),
                ),
            )
        }
    } else if c.spec_is_nil() {
        Ok(text(")"))
    } else {
        after(text(" . "), then(render(objects, texts, c, fuel), Ok(text(")"))))
    }
}

/// What is written for the elements of a vector from index `from` on: each
/// but the last with a comma and a space behind it, then the closing
/// bracket.
pub open spec fn render_items(
    objects: Map<u64, Object>,
    texts: Seq<Seq<char>>,
    items: Seq<Value>,
    from: int,
    fuel: nat,
) -> Result<Seq<Piece>, ValueError>
    decreases fuel, 2nat, items.len() - from,
{
    if from < 0 || from >= items.len() {
        Ok(text(")"))
    } else {
        then(
            render(objects, texts, items[from], fuel),
            after(
                if from + 1 < items.len() {
                    text(", ")
                } else {
                    Seq::empty()
                },
                render_items(objects, texts, items, from + 1, fuel),
            ),
        )
    }
}

/// What `display` writes for `v`: as deep as the heap has cells.
pub open spec fn displayed(heap: HeapView, texts: Seq<Seq<char>>, v: Value) -> Result<
    Seq<Piece>,
    ValueError,
> {
    render(heap.objects, texts, v, heap.chain.len())
}

/// Writes the bytes of `s`.
fn push_str(out: &mut Vec<Piece>, s: &str)
    ensures
        final(out)@ == old(out)@ + text(s),
{
    let b = s.as_bytes();
    let mut i: usize = 0;
    while i < b.len()
        invariant
            i <= b@.len(),
            b@ == s.spec_bytes(),
            out@ == old(out)@ + bytes(b@.subrange(0, i as int)),
        decreases b@.len() - i,
    {
        out.push(Piece::Byte(b[i]));
        i = i + 1;
        assert(out@ =~= old(out)@ + bytes(b@.subrange(0, i as int)));
    }
    assert(b@.subrange(0, i as int) =~= b@);
}

/// Writes the decimal digits of `n`.
fn push_digits(out: &mut Vec<Piece>, n: u64)
    ensures
        final(out)@ == old(out)@ + bytes(digits(n as nat)),
    decreases n,
{
    if n >= 10 {
        push_digits(out, n / 10);
    }
    out.push(Piece::Byte((48 + n % 10) as u8));
    assert(out@ =~= old(out)@ + bytes(digits(n as nat)));
}

/// Writes the decimal form of `i`.
fn push_decimal(out: &mut Vec<Piece>, i: i32)
    ensures
        final(out)@ == old(out)@ + bytes(decimal(i as int)),
{
    if i < 0 {
        out.push(Piece::Byte(45));
        push_digits(out, (-(i as i64)) as u64);
        assert(out@ =~= old(out)@ + bytes(decimal(i as int)));
    } else {
        push_digits(out, i as u64);
    }
}

/// Writes `v`, or stops at the first error. What was written before an error
/// stays in `out`.
fn render_value(v: Value, heap: &Heap, interner: &Interner, fuel: u64, out: &mut Vec<Piece>) -> (r:
    Result<(), ValueError>)
    requires
        heap.wf(),
    ensures
        match render(heap@.objects, interner@, v, fuel as nat) {
            Ok(s) => r is Ok && final(out)@ == old(out)@ + s,
            Err(e) => r == Err::<(), ValueError>(e),
        },
    decreases fuel,
{
    let ghost objects = heap@.objects;
    let ghost texts = interner@;
    let ghost goal = render(objects, texts, v, fuel as nat);
    if v.is_float() {
        out.push(Piece::Float(v.to_float_bits()));
        assert(out@ =~= old(out)@ + seq![Piece::Float(v.0)]);
        Ok(())
    } else if v.is_integer() {
        push_decimal(out, v.to_integer());
        Ok(())
    } else if v.is_symbol() {
        match interner.text_of(v.to_symbol()) {
            Some(name) => {
                push_str(out, name.as_str());
                Ok(())
            },
            None => Err(ValueError::UnknownSymbol),
        }
    } else if v.is_true() {
        push_str(out, "#t");
        Ok(())
    } else if v.is_false() {
        push_str(out, "#f");
        Ok(())
    } else if v.is_nil() {
        push_str(out, "()");
        Ok(())
    } else if v.is_void() {
        assert(out@ =~= old(out)@ + Seq::<Piece>::empty());
        Ok(())
    } else if v.is_lambda() {
        push_str(out, "#<procedure>");
        Ok(())
    } else if v.is_pair() {
        let p = match v.to_pair(heap) {
            Ok(p) => p,
            Err(_) => {
                return Err(ValueError::KindMismatch);
            },
        };
        if fuel == 0 {
            return Err(ValueError::TooDeep);
        }
        push_str(out, "(");
        match render_value(p.car, heap, interner, fuel - 1, out) {
            Ok(()) => {},
            Err(e) => {
                return Err(e);
            },
        }
        let ghost n0 = old(out)@.len() as int;
        let mut c = p.cdr;
        let mut f = fuel - 1;
        proof {
            let head = render(objects, texts, p.car, (fuel - 1) as nat);
            let rest = render_tail(objects, texts, p.cdr, (fuel - 1) as nat);
            assert(out@.subrange(0, n0) =~= old(out)@);
            assert(out@.subrange(n0, out@.len() as int) =~= text("(") + head->Ok_0);
            assert(goal == after(text("("), then(head, rest)));
            if rest is Ok {
                assert(text("(") + (head->Ok_0 + rest->Ok_0) =~= (text("(") + head->Ok_0)
                    + rest->Ok_0);
            }
        }
        while c.is_pair()
            invariant
                heap.wf(),
                goal == render(objects, texts, v, fuel as nat),
                objects == heap@.objects,
                texts == interner@,
                0 <= n0 <= out@.len(),
                out@.subrange(0, n0) == old(out)@,
                goal == after(
                    out@.subrange(n0, out@.len() as int),
                    render_tail(objects, texts, c, f as nat),
                ),
                f < fuel,
            decreases f,
        {
            let ghost before = out@;
            let q = match c.to_pair(heap) {
                Ok(q) => q,
                Err(_) => {
                    return Err(ValueError::KindMismatch);
                },
            };
            if f == 0 {
                return Err(ValueError::TooDeep);
            }
            push_str(out, " ");
            match render_value(q.car, heap, interner, f - 1, out) {
                Ok(()) => {},
                Err(e) => {
                    return Err(e);
                },
            }
            proof {
                let done = before.subrange(n0, before.len() as int);
                let head = render(objects, texts, q.car, (f - 1) as nat);
                let rest = render_tail(objects, texts, q.cdr, (f - 1) as nat);
                assert(out@.subrange(0, n0) =~= before.subrange(0, n0));
                assert(out@.subrange(n0, out@.len() as int) =~= done + text(" ") + head->Ok_0);
                if rest is Ok {
                    assert(done + (text(" ") + (head->Ok_0 + rest->Ok_0)) =~= (done + text(" ")
                        + head->Ok_0) + rest->Ok_0);
                }
            }
            c = q.cdr;
            f = f - 1;
        }
        let ghost before = out@;
        if c.is_nil() {
            push_str(out, ")");
        } else {
            push_str(out, " . ");
            match render_value(c, heap, interner, f, out) {
                Ok(()) => {},
                Err(e) => {
                    return Err(e);
                },
            }
            push_str(out, ")");
        }
        proof {
            let done = before.subrange(n0, before.len() as int);
            let tail = render_tail(objects, texts, c, f as nat);
            assert(before =~= old(out)@ + done);
            assert(out@ =~= before + tail->Ok_0);
            assert(out@ =~= old(out)@ + (done + tail->Ok_0));
        }
        Ok(())
    } else if v.is_string() {
        let s = match v.to_string(heap) {
            Ok(s) => s,
            Err(_) => {
                return Err(ValueError::KindMismatch);
            },
        };
        push_str(out, "\"");
        push_str(out, s.str.as_str());
        push_str(out, "\"");
        assert(out@ =~= old(out)@ + (text("\"") + bytes(encode_utf8(s.str@)) + text("\"")));
        Ok(())
    } else if v.is_vec() {
        let cell = match v.to_vec(heap) {
            Ok(cell) => cell,
            Err(_) => {
                return Err(ValueError::KindMismatch);
            },
        };
        if fuel == 0 {
            return Err(ValueError::TooDeep);
        }
        push_str(out, "#(");
        let ghost n0 = old(out)@.len() as int;
        let ghost items = cell.vec@;
        let mut i: usize = 0;
        proof {
            assert(out@.subrange(0, n0) =~= old(out)@);
            assert(out@.subrange(n0, out@.len() as int) =~= text("#("));
            assert(goal == after(
                text("#("),
                render_items(objects, texts, items, 0, (fuel - 1) as nat),
            ));
        }
        while i < cell.vec.len()
            invariant
                heap.wf(),
                goal == render(objects, texts, v, fuel as nat),
                objects == heap@.objects,
                texts == interner@,
                items == cell.vec@,
                fuel > 0,
                i <= items.len(),
                0 <= n0 <= out@.len(),
                out@.subrange(0, n0) == old(out)@,
                goal == after(
                    out@.subrange(n0, out@.len() as int),
                    render_items(objects, texts, items, i as int, (fuel - 1) as nat),
                ),
            decreases items.len() - i,
        {
            let ghost before = out@;
            match render_value(cell.vec[i], heap, interner, fuel - 1, out) {
                Ok(()) => {},
                Err(e) => {
                    return Err(e);
                },
            }
            if i + 1 < cell.vec.len() {
                push_str(out, ", ");
            }
            proof {
                let done = before.subrange(n0, before.len() as int);
                let head = render(objects, texts, items[i as int], (fuel - 1) as nat);
                let gap = if i + 1 < items.len() {
                    text(", ")
                } else {
                    Seq::<Piece>::empty()
                };
                let rest = render_items(objects, texts, items, i + 1, (fuel - 1) as nat);
                assert(out@.subrange(0, n0) =~= before.subrange(0, n0));
                assert(out@.subrange(n0, out@.len() as int) =~= done + head->Ok_0 + gap);
                if rest is Ok {
                    assert(done + (head->Ok_0 + (gap + rest->Ok_0)) =~= (done + head->Ok_0 + gap)
                        + rest->Ok_0);
                }
            }
            i = i + 1;
        }
        let ghost before = out@;
        push_str(out, ")");
        proof {
            let done = before.subrange(n0, before.len() as int);
            assert(before =~= old(out)@ + done);
            assert(out@ =~= old(out)@ + (done + text(")")));
        }
        Ok(())
    } else {
        Err(ValueError::ReservedTag)
    }
}

impl Value {
    /// Writes `self` to `sink` as the language prints it. Where printing
    /// stops at an error the sink stays as it was.
    ///
    /// A pair or vector can be open inside another as deep as the heap has
    /// cells. A value that holds itself goes deeper and ends in `TooDeep`.
    pub fn display(self, heap: &Heap, interner: &Interner, sink: &mut Vec<Piece>) -> (r: Result<
        (),
        ValueError,
    >)
        requires
            heap.wf(),
        ensures
            match displayed(heap@, interner@, self) {
                Ok(s) => r is Ok && final(sink)@ == old(sink)@ + s,
                Err(e) => r == Err::<(), ValueError>(e) && final(sink)@ == old(sink)@,
            },
    {
        let mut out: Vec<Piece> = Vec::new();
        let fuel = heap.len();
        match render_value(self, heap, interner, fuel, &mut out) {
            Ok(()) => {
                assert(out@ =~= displayed(heap@, interner@, self)->Ok_0);
                sink.append(&mut out);
                Ok(())
            },
            Err(e) => Err(e),
        }
    }
}

/// Two heaps hold the same at every cell that `v` reaches in either.
pub open spec fn same_reach(first: Map<u64, Object>, second: Map<u64, Object>, v: Value) -> bool {
    &&& forall|b: u64| #[trigger]
        reachable(first, v, b) ==> second.dom().contains(b) && second[b] == first[b]
    &&& forall|b: u64| #[trigger]
        reachable(second, v, b) ==> first.dom().contains(b) && first[b] == second[b]
}

/// What a value held by the cell of `v` reaches, `v` reaches.
proof fn lemma_reach_through(objects: Map<u64, Object>, v: Value, j: int, b: u64)
    requires
        holds(objects, v),
        0 <= j < objects[v.spec_to_pointer()].children().len(),
        reachable(objects, child(objects, v.spec_to_pointer(), j), b),
    ensures
        reachable(objects, v, b),
{
    let a = v.spec_to_pointer();
    let c = child(objects, a, j);
    let p = choose|p: Seq<u64>|
        #[trigger] is_path(objects, Set::empty(), c, p) && p.last() == b;
    let q = seq![a] + p;
    assert(points_to(objects, child(objects, a, j), p[0]));
    assert forall|k: int| 0 <= k < q.len() - 1 implies #[trigger] step(objects, q, k) by {
        if k > 0 {
            assert(step(objects, p, k - 1));
            assert(q[k] == p[k - 1] && q[k + 1] == p[k]);
        } else {
            assert(q[0] == a && q[1] == p[0]);
        }
    }
    assert(is_path(objects, Set::empty(), v, q));
    assert(q.last() == b);
}

/// Heaps that agree on what `v` reaches agree on whether `v` is a handle of
/// theirs, on the cell it is a handle to, and on what each value in that
/// cell reaches.
proof fn lemma_same_cell(first: Map<u64, Object>, second: Map<u64, Object>, v: Value)
    requires
        same_reach(first, second, v),
    ensures
        holds(first, v) == holds(second, v),
        holds(first, v) ==> first[v.spec_to_pointer()] == second[v.spec_to_pointer()],
        holds(first, v) ==> forall|j: int|
            0 <= j < first[v.spec_to_pointer()].children().len() ==> same_reach(
                first,
                second,
                #[trigger] child(first, v.spec_to_pointer(), j),
            ),
{
    let a = v.spec_to_pointer();
    if holds(first, v) {
        assert(is_path(first, Set::empty(), v, seq![a]));
        assert(seq![a].last() == a);
        assert(reachable(first, v, a));
    }
    if holds(second, v) {
        assert(is_path(second, Set::empty(), v, seq![a]));
        assert(seq![a].last() == a);
        assert(reachable(second, v, a));
    }
    if holds(first, v) {
        assert forall|j: int| 0 <= j < first[a].children().len() implies same_reach(
            first,
            second,
            #[trigger] child(first, a, j),
        ) by {
            let c = child(first, a, j);
            assert(c == child(second, a, j));
            assert forall|b: u64| #[trigger] reachable(first, c, b) implies second.dom().contains(
                b,
            ) && second[b] == first[b] by {
                lemma_reach_through(first, v, j, b);
            }
            assert forall|b: u64| #[trigger] reachable(second, c, b) implies first.dom().contains(
                b,
            ) && first[b] == second[b] by {
                lemma_reach_through(second, v, j, b);
            }
        }
    }
}

/// What is written for `v` depends on the heap only through the cells that
/// `v` reaches.
pub proof fn lemma_render_same(
    first: Map<u64, Object>,
    second: Map<u64, Object>,
    texts: Seq<Seq<char>>,
    v: Value,
    fuel: nat,
)
    requires
        same_reach(first, second, v),
    ensures
        render(first, texts, v, fuel) == render(second, texts, v, fuel),
    decreases fuel, 0nat, 0nat,
{
    lemma_same_cell(first, second, v);
    let a = v.spec_to_pointer();
    if holds(first, v) && fuel > 0 {
        if v.spec_is_pair() {
            assert(first[a].children() =~= seq![first[a]->Pair_car, first[a]->Pair_cdr]);
            assert(child(first, a, 0) == first[a]->Pair_car);
            assert(child(first, a, 1) == first[a]->Pair_cdr);
            lemma_render_same(first, second, texts, first[a]->Pair_car, (fuel - 1) as nat);
            lemma_tail_same(first, second, texts, first[a]->Pair_cdr, (fuel - 1) as nat);
        } else if v.spec_is_vec() {
            let items = first[a]->Vector_items;
            assert forall|j: int| 0 <= j < items.len() implies same_reach(
                first,
                second,
                #[trigger] items[j],
            ) by {
                assert(items[j] == child(first, a, j));
            }
            lemma_items_same(first, second, texts, items, 0, (fuel - 1) as nat);
        }
    }
}

proof fn lemma_tail_same(
    first: Map<u64, Object>,
    second: Map<u64, Object>,
    texts: Seq<Seq<char>>,
    c: Value,
    fuel: nat,
)
    requires
        same_reach(first, second, c),
    ensures
        render_tail(first, texts, c, fuel) == render_tail(second, texts, c, fuel),
    decreases fuel, 1nat, 0nat,
{
    lemma_same_cell(first, second, c);
    let a = c.spec_to_pointer();
    if c.spec_is_pair() {
        if holds(first, c) && fuel > 0 {
            assert(first[a].children() =~= seq![first[a]->Pair_car, first[a]->Pair_cdr]);
            assert(child(first, a, 0) == first[a]->Pair_car);
            assert(child(first, a, 1) == first[a]->Pair_cdr);
            lemma_render_same(first, second, texts, first[a]->Pair_car, (fuel - 1) as nat);
            lemma_tail_same(first, second, texts, first[a]->Pair_cdr, (fuel - 1) as nat);
        }
    } else if !c.spec_is_nil() {
        lemma_render_same(first, second, texts, c, fuel);
    }
}

proof fn lemma_items_same(
    first: Map<u64, Object>,
    second: Map<u64, Object>,
    texts: Seq<Seq<char>>,
    items: Seq<Value>,
    from: int,
    fuel: nat,
)
    requires
        forall|j: int| 0 <= j < items.len() ==> same_reach(first, second, #[trigger] items[j]),
    ensures
        render_items(first, texts, items, from, fuel) == render_items(
            second,
            texts,
            items,
            from,
            fuel,
        ),
    decreases fuel, 2nat, items.len() - from,
{
    if 0 <= from < items.len() {
        lemma_render_same(first, second, texts, items[from], fuel);
        lemma_items_same(first, second, texts, items, from + 1, fuel);
    }
}

/// Where printing does not end in `TooDeep`, a deeper bound changes nothing.
pub proof fn lemma_render_deeper(
    objects: Map<u64, Object>,
    texts: Seq<Seq<char>>,
    v: Value,
    fuel: nat,
    more: nat,
)
    requires
        render(objects, texts, v, fuel) != Err::<Seq<Piece>, ValueError>(ValueError::TooDeep),
        fuel <= more,
    ensures
        render(objects, texts, v, more) == render(objects, texts, v, fuel),
    decreases fuel, 0nat, 0nat,
{
    let a = v.spec_to_pointer();
    if holds(objects, v) && fuel > 0 {
        if v.spec_is_pair() {
            let head = render(objects, texts, objects[a]->Pair_car, (fuel - 1) as nat);
            lemma_render_deeper(
                objects,
                texts,
                objects[a]->Pair_car,
                (fuel - 1) as nat,
                (more - 1) as nat,
            );
            if head is Ok {
                lemma_tail_deeper(
                    objects,
                    texts,
                    objects[a]->Pair_cdr,
                    (fuel - 1) as nat,
                    (more - 1) as nat,
                );
            }
        } else if v.spec_is_vec() {
            lemma_items_deeper(
                objects,
                texts,
                objects[a]->Vector_items,
                0,
                (fuel - 1) as nat,
                (more - 1) as nat,
            );
        }
    }
}

proof fn lemma_tail_deeper(
    objects: Map<u64, Object>,
    texts: Seq<Seq<char>>,
    c: Value,
    fuel: nat,
    more: nat,
)
    requires
        render_tail(objects, texts, c, fuel) != Err::<Seq<Piece>, ValueError>(ValueError::TooDeep),
        fuel <= more,
    ensures
        render_tail(objects, texts, c, more) == render_tail(objects, texts, c, fuel),
    decreases fuel, 1nat, 0nat,
{
    let a = c.spec_to_pointer();
    if c.spec_is_pair() {
        if holds(objects, c) && fuel > 0 {
            let head = render(objects, texts, objects[a]->Pair_car, (fuel - 1) as nat);
            lemma_render_deeper(
                objects,
                texts,
                objects[a]->Pair_car,
                (fuel - 1) as nat,
                (more - 1) as nat,
            );
            if head is Ok {
                lemma_tail_deeper(
                    objects,
                    texts,
                    objects[a]->Pair_cdr,
                    (fuel - 1) as nat,
                    (more - 1) as nat,
                );
            }
        }
    } else if !c.spec_is_nil() {
        lemma_render_deeper(objects, texts, c, fuel, more);
    }
}

proof fn lemma_items_deeper(
    objects: Map<u64, Object>,
    texts: Seq<Seq<char>>,
    items: Seq<Value>,
    from: int,
    fuel: nat,
    more: nat,
)
    requires
        render_items(objects, texts, items, from, fuel) != Err::<Seq<Piece>, ValueError>(
            ValueError::TooDeep,
        ),
        fuel <= more,
    ensures
        render_items(objects, texts, items, from, more) == render_items(
            objects,
            texts,
            items,
            from,
            fuel,
        ),
    decreases fuel, 2nat, items.len() - from,
{
    if 0 <= from < items.len() {
        let head = render(objects, texts, items[from], fuel);
        lemma_render_deeper(objects, texts, items[from], fuel, more);
        if head is Ok {
            lemma_items_deeper(objects, texts, items, from + 1, fuel, more);
        }
    }
}

/// Display determinism: with the same texts interned, what `display` writes
/// for `v` is the same on two heaps that hold the same at every cell that
/// `v` reaches, whatever else they hold. A value that holds itself is left
/// out: there printing ends in `TooDeep`.
pub proof fn lemma_display_determined(
    first: HeapView,
    second: HeapView,
    texts: Seq<Seq<char>>,
    v: Value,
)
    requires
        same_reach(first.objects, second.objects, v),
        displayed(first, texts, v) != Err::<Seq<Piece>, ValueError>(ValueError::TooDeep),
        displayed(second, texts, v) != Err::<Seq<Piece>, ValueError>(ValueError::TooDeep),
    ensures
        displayed(first, texts, v) == displayed(second, texts, v),
{
    let n = first.chain.len();
    let m = second.chain.len();
    lemma_render_same(first.objects, second.objects, texts, v, n);
    lemma_render_same(first.objects, second.objects, texts, v, m);
    if n <= m {
        lemma_render_deeper(first.objects, texts, v, n, m);
    } else {
        lemma_render_deeper(second.objects, texts, v, m, n);
    }
}

} // verus!
