//! The heap: an arena of cells, each at an address of its own, threaded on
//! an intrusive list through the `gc` words, newest cell first. The head word
//! names the newest cell together with its kind.
use vstd::prelude::*;
use crate::heap_repr::{HeapCell, Object};
use crate::layout::{
    canonical, head_code, head_pointer, head_word, lemma_head_round_trip, HEAD_LOW_MASK,
    LINK_MASK, MARK_BIT, POINTER_HIGH,
};
use crate::value::{VType, Value, ValueError};

verus! {

/// The most cells that a heap can hold: with eight bytes to a slot every
/// address stays below bit 47, so that packing a pointer loses nothing.
pub const MAX_CELLS: u64 = 0x0000_0800_0000_0000;

/// The address of the cell in slot `i`. Address zero is no cell.
pub open spec fn slot_address(i: int) -> u64 {
    ((i + 1) * 8) as u64
}

/// The addresses at which a cell can live.
pub open spec fn is_slot_address(a: u64) -> bool {
    a >= 8 && a % 8 == 0 && a / 8 <= MAX_CELLS
}

/// The slot of the cell at address `a`.
pub open spec fn address_slot(a: u64) -> int {
    a / 8 - 1
}

/// Slot and address stand for each other, and every address of a slot is
/// canonical with a clear bit 0.
pub proof fn lemma_slot_address(i: int)
    requires
        0 <= i < MAX_CELLS,
    ensures
        is_slot_address(slot_address(i)),
        address_slot(slot_address(i)) == i,
        canonical(slot_address(i)),
        slot_address(i) & MARK_BIT == 0,
{
    let a = slot_address(i);
    assert(a == (i + 1) * 8);
    assert(canonical(a) && a & MARK_BIT == 0) by (bit_vector)
        requires
            a % 8 == 0,
            a <= 0x0000_4000_0000_0000,
    ;
}

/// The address of a slot names that slot.
pub proof fn lemma_address_slot(a: u64)
    requires
        is_slot_address(a),
    ensures
        0 <= address_slot(a) < MAX_CELLS,
        slot_address(address_slot(a)) == a,
        canonical(a),
        a & MARK_BIT == 0,
{
    lemma_slot_address(address_slot(a));
}

/// The heap as the contracts see it.
pub struct HeapView {
    /// The live cells by address, each without its `gc` word.
    pub objects: Map<u64, Object>,
    /// The addresses of the cells whose mark bit is set.
    pub marks: Set<u64>,
    /// The addresses on the heap list, newest first.
    pub chain: Seq<u64>,
    /// How many cells the heap may hold.
    pub limit: nat,
}

/// Whether `v` is a handle to a live cell of its own kind.
pub open spec fn holds(objects: Map<u64, Object>, v: Value) -> bool {
    &&& v.spec_is_pointer()
    &&& objects.dom().contains(v.spec_to_pointer())
    &&& v.kind_of() == Some(objects[v.spec_to_pointer()].kind())
}

impl HeapView {
    /// What every heap's view satisfies.
    pub open spec fn consistent(self) -> bool {
        &&& self.chain.no_duplicates()
        &&& forall|a: u64| self.objects.dom().contains(a) <==> self.chain.contains(a)
        &&& forall|a: u64| self.marks.contains(a) ==> self.objects.dom().contains(a)
        &&& forall|a: u64| self.objects.dom().contains(a) ==> is_slot_address(a)
        &&& self.chain.len() <= self.limit
        &&& self.limit <= MAX_CELLS
    }

    /// The head word of such a heap: zero for the empty list, else the
    /// address of the newest cell under the code of its kind.
    pub open spec fn head(self) -> u64 {
        if self.chain.len() == 0 {
            0
        } else {
            head_word(self.chain[0], self.objects[self.chain[0]].kind().spec_code())
        }
    }

    /// Whether `v` is a handle to a live cell of its own kind.
    pub open spec fn holds(self, v: Value) -> bool {
        holds(self.objects, v)
    }

    /// The heap after a sweep: the marked cells stay, in the order they had,
    /// and no cell carries a mark.
    pub open spec fn swept(self) -> HeapView {
        HeapView {
            objects: self.objects.restrict(self.marks),
            marks: Set::empty(),
            chain: self.chain.filter(member_of(self.marks)),
            limit: self.limit,
        }
    }
}

/// The predicate that holds of the members of `set`.
pub open spec fn member_of(set: Set<u64>) -> spec_fn(u64) -> bool {
    |a: u64| set.contains(a)
}

/// The heap. Its cells are reached through the handles that the
/// constructors of heap values give out.
pub struct Heap {
    /// The arena. The cell in slot `i` lives at address `(i + 1) * 8`.
    cells: Vec<Option<HeapCell>>,
    /// The empty slots, to be used again before the arena grows.
    free: Vec<usize>,
    /// The head word.
    head: u64,
    limit: u64,
    /// The slots on the list, newest first.
    order: Ghost<Seq<int>>,
}

/// Whether slot `i` holds a cell.
spec fn live(cells: Seq<Option<HeapCell>>, i: int) -> bool {
    0 <= i < cells.len() && cells[i] is Some
}

/// The head-word form of the pointer to the cell in slot `i`.
spec fn cell_word(cells: Seq<Option<HeapCell>>, i: int) -> u64 {
    head_word(slot_address(i), cells[i]->0.spec_kind().spec_code())
}

/// The word that links to position `k` of the list: zero behind its end.
spec fn link_word(cells: Seq<Option<HeapCell>>, order: Seq<int>, k: int) -> u64 {
    if 0 <= k < order.len() {
        cell_word(cells, order[k])
    } else {
        0
    }
}

/// The list is threaded as `order` says: the head word names its first cell,
/// and the link of each cell names the next.
spec fn linked(cells: Seq<Option<HeapCell>>, order: Seq<int>, head: u64) -> bool {
    &&& head == link_word(cells, order, 0)
    &&& forall|k: int|
        0 <= k < order.len() ==> (cells[#[trigger] order[k]]->0.spec_gc() & LINK_MASK) == link_word(
            cells,
            order,
            k + 1,
        )
}

/// The representation invariant without the head word and the links.
spec fn arena_ok(
    cells: Seq<Option<HeapCell>>,
    free: Seq<usize>,
    order: Seq<int>,
    limit: u64,
) -> bool {
    &&& limit <= MAX_CELLS
    &&& cells.len() <= limit
    &&& forall|k: int| 0 <= k < order.len() ==> live(cells, #[trigger] order[k])
    &&& order.no_duplicates()
    &&& forall|i: int| #[trigger] live(cells, i) ==> order.contains(i)
    &&& forall|j: int|
        0 <= j < free.len() ==> 0 <= (#[trigger] free[j]) < cells.len() && cells[free[j] as int]
            is None
    &&& free.no_duplicates()
    &&& cells.len() == order.len() + free.len()
}

/// What the cells of an arena hold, by address.
spec fn objects_of(cells: Seq<Option<HeapCell>>) -> Map<u64, Object> {
    Map::new(
        |a: u64| is_slot_address(a) && live(cells, address_slot(a)),
        |a: u64| cells[address_slot(a)]->0.object(),
    )
}

/// The addresses of the cells of an arena that carry the mark.
spec fn marks_of(cells: Seq<Option<HeapCell>>) -> Set<u64> {
    Set::new(
        |a: u64|
            is_slot_address(a) && live(cells, address_slot(a)) && (cells[address_slot(
                a,
            )]->0.spec_gc() & MARK_BIT) == MARK_BIT,
    )
}

/// The addresses of the slots on the list.
spec fn chain_of(order: Seq<int>) -> Seq<u64> {
    Seq::new(order.len(), |k: int| slot_address(order[k]))
}

impl View for Heap {
    type V = HeapView;

    closed spec fn view(&self) -> HeapView {
        HeapView {
            objects: objects_of(self.cells@),
            marks: marks_of(self.cells@),
            chain: chain_of(self.order@),
            limit: self.limit as nat,
        }
    }
}

/// A link word names the slot it was made for.
proof fn lemma_cell_word(cells: Seq<Option<HeapCell>>, i: int)
    requires
        0 <= i < MAX_CELLS,
        live(cells, i),
    ensures
        head_pointer(cell_word(cells, i)) == slot_address(i),
        head_code(cell_word(cells, i)) == cells[i]->0.spec_kind().spec_code(),
        cell_word(cells, i) & MARK_BIT == 0,
        cell_word(cells, i) & LINK_MASK == cell_word(cells, i),
        cell_word(cells, i) != 0,
{
    lemma_slot_address(i);
    let a = slot_address(i);
    let c = cells[i]->0.spec_kind().spec_code();
    lemma_head_round_trip(a, c);
    let w = head_word(a, c);
    assert(w & LINK_MASK == w) by (bit_vector)
        requires
            w & MARK_BIT == 0,
    ;
    assert(head_code(0) == 0) by (bit_vector);
    assert(c != 0);
}

/// The chain of a well-formed arena holds exactly the addresses of its live
/// cells, each once.
proof fn lemma_chain(cells: Seq<Option<HeapCell>>, free: Seq<usize>, order: Seq<int>, limit: u64)
    requires
        arena_ok(cells, free, order, limit),
    ensures
        chain_of(order).no_duplicates(),
        forall|a: u64| objects_of(cells).dom().contains(a) <==> chain_of(order).contains(a),
        forall|a: u64| marks_of(cells).contains(a) ==> objects_of(cells).dom().contains(a),
        forall|a: u64| objects_of(cells).dom().contains(a) ==> is_slot_address(a),
        chain_of(order).len() <= limit,
{
    let chain = chain_of(order);
    assert forall|i: int, j: int| 0 <= i < chain.len() && 0 <= j < chain.len() && i != j implies chain[i]
        != chain[j] by {
        assert(live(cells, order[i]) && live(cells, order[j]));
        lemma_slot_address(order[i]);
        lemma_slot_address(order[j]);
    }
    assert forall|a: u64| objects_of(cells).dom().contains(a) implies chain.contains(a) by {
        lemma_address_slot(a);
        let i = address_slot(a);
        assert(live(cells, i));
        let k = choose|k: int| 0 <= k < order.len() && order[k] == i;
        assert(chain[k] == a);
    }
    assert forall|a: u64| chain.contains(a) implies objects_of(cells).dom().contains(a) by {
        let k = choose|k: int| 0 <= k < chain.len() && chain[k] == a;
        assert(live(cells, order[k]));
        lemma_slot_address(order[k]);
    }
}

/// Rewriting cells in place, each keeping its kind and its link, keeps the
/// arena and the list as they are.
proof fn lemma_same_links(
    cells: Seq<Option<HeapCell>>,
    after: Seq<Option<HeapCell>>,
    free: Seq<usize>,
    order: Seq<int>,
    limit: u64,
    head: u64,
)
    requires
        arena_ok(cells, free, order, limit),
        linked(cells, order, head),
        after.len() == cells.len(),
        forall|i: int| 0 <= i < cells.len() ==> (#[trigger] after[i] is Some) == (cells[i] is Some),
        forall|i: int|
            live(cells, i) ==> (#[trigger] after[i])->0.spec_kind() == cells[i]->0.spec_kind()
                && (after[i]->0.spec_gc() & LINK_MASK) == (cells[i]->0.spec_gc() & LINK_MASK),
    ensures
        arena_ok(after, free, order, limit),
        linked(after, order, head),
{
    assert forall|k: int| 0 <= k < order.len() implies live(after, #[trigger] order[k]) by {
        assert(live(cells, order[k]));
    }
    assert forall|i: int| #[trigger] live(after, i) implies order.contains(i) by {
        assert(live(cells, i));
    }
    assert forall|k: int| 0 <= k < order.len() implies link_word(after, order, k) == link_word(
        cells,
        order,
        k,
    ) by {
        assert(live(cells, order[k]));
    }
    assert forall|k: int| 0 <= k < order.len() implies (after[#[trigger] order[k]]->0.spec_gc()
        & LINK_MASK) == link_word(after, order, k + 1) by {
        assert(live(cells, order[k]));
        if k + 1 < order.len() {
            assert(live(cells, order[k + 1]));
        }
    }
}

/// Rewriting one live cell, which keeps its `gc` word, changes the objects
/// at its address and nothing else of the view.
proof fn lemma_store_view(cells: Seq<Option<HeapCell>>, i: int, cell: HeapCell)
    requires
        0 <= i < MAX_CELLS,
        live(cells, i),
        cell.spec_gc() == cells[i]->0.spec_gc(),
    ensures
        objects_of(cells.update(i, Some(cell))) == objects_of(cells).insert(
            slot_address(i),
            cell.object(),
        ),
        marks_of(cells.update(i, Some(cell))) == marks_of(cells),
{
    let after = cells.update(i, Some(cell));
    lemma_slot_address(i);
    assert forall|a: u64| is_slot_address(a) && a != slot_address(i) implies address_slot(a)
        != i by {
        lemma_address_slot(a);
    }
    assert(objects_of(after) =~= objects_of(cells).insert(slot_address(i), cell.object()));
    assert(marks_of(after) =~= marks_of(cells));
}

/// Setting or clearing the mark of one live cell changes the marks at its
/// address and nothing else of the view.
proof fn lemma_mark_view(cells: Seq<Option<HeapCell>>, i: int, gc: u64)
    requires
        0 <= i < MAX_CELLS,
        live(cells, i),
    ensures
        objects_of(cells.update(i, Some(cells[i]->0.with_gc(gc)))) == objects_of(cells),
        (gc & MARK_BIT) == MARK_BIT ==> marks_of(cells.update(i, Some(cells[i]->0.with_gc(gc))))
            == marks_of(cells).insert(slot_address(i)),
        (gc & MARK_BIT) != MARK_BIT ==> marks_of(cells.update(i, Some(cells[i]->0.with_gc(gc))))
            == marks_of(cells).remove(slot_address(i)),
{
    let after = cells.update(i, Some(cells[i]->0.with_gc(gc)));
    lemma_slot_address(i);
    assert forall|a: u64| is_slot_address(a) && a != slot_address(i) implies address_slot(a)
        != i by {
        lemma_address_slot(a);
    }
    assert(objects_of(after) =~= objects_of(cells));
    if (gc & MARK_BIT) == MARK_BIT {
        assert(marks_of(after) =~= marks_of(cells).insert(slot_address(i)));
    } else {
        assert(marks_of(after) =~= marks_of(cells).remove(slot_address(i)));
    }
}

/// Putting a new cell, linked to the old head, into an empty slot makes it
/// the first of the list.
proof fn lemma_publish(
    cells: Seq<Option<HeapCell>>,
    after: Seq<Option<HeapCell>>,
    free: Seq<usize>,
    free_after: Seq<usize>,
    order: Seq<int>,
    limit: u64,
    head: u64,
    i: int,
    cell: HeapCell,
)
    requires
        arena_ok(cells, free, order, limit),
        linked(cells, order, head),
        cell.spec_gc() == head,
        0 <= i < limit,
        ({
            ||| (i == cells.len() && free.len() == 0 && free_after == free && after == cells.push(
                Some(cell),
            ))
            ||| (i < cells.len() && free.len() > 0 && free.last() == i && free_after
                == free.drop_last() && after == cells.update(i, Some(cell)))
        }),
    ensures
        arena_ok(after, free_after, seq![i] + order, limit),
        linked(after, seq![i] + order, cell_word(after, i)),
        objects_of(after) == objects_of(cells).insert(slot_address(i), cell.object()),
        marks_of(after) == marks_of(cells),
        chain_of(seq![i] + order) == seq![slot_address(i)] + chain_of(order),
        !objects_of(cells).dom().contains(slot_address(i)),
{
    let order_after = seq![i] + order;
    assert(!live(cells, i)) by {
        if i < cells.len() {
            assert(free[free.len() - 1] == i);
        }
    }
    assert(!order.contains(i)) by {
        if order.contains(i) {
            let k = choose|k: int| 0 <= k < order.len() && order[k] == i;
            assert(live(cells, order[k]));
        }
    }
    assert forall|x: int| 0 <= x < cells.len() && x != i implies #[trigger] after[x] == cells[x] by {}
    assert(after[i] == Some(cell));
    assert forall|k: int| 0 <= k < order_after.len() implies live(
        after,
        #[trigger] order_after[k],
    ) by {
        if k > 0 {
            assert(order_after[k] == order[k - 1]);
            assert(live(cells, order[k - 1]));
        }
    }
    assert forall|a: int, b: int|
        0 <= a < order_after.len() && 0 <= b < order_after.len() && a != b implies order_after[a]
        != order_after[b] by {
        if a > 0 {
            assert(order_after[a] == order[a - 1]);
        }
        if b > 0 {
            assert(order_after[b] == order[b - 1]);
        }
    }
    assert forall|x: int| #[trigger] live(after, x) implies order_after.contains(x) by {
        if x == i {
            assert(order_after[0] == i);
        } else {
            assert(live(cells, x));
            let k = choose|k: int| 0 <= k < order.len() && order[k] == x;
            assert(order_after[k + 1] == x);
        }
    }
    assert forall|j: int| 0 <= j < free_after.len() implies 0 <= (#[trigger] free_after[j])
        < after.len() && after[free_after[j] as int] is None by {
        assert(free_after[j] == free[j]);
    }
    assert forall|k: int| 0 <= k < order.len() implies #[trigger] link_word(
        after,
        order_after,
        k + 1,
    ) == link_word(cells, order, k) by {
        assert(order_after[k + 1] == order[k]);
        assert(live(cells, order[k]));
    }
    assert(link_word(after, order_after, order.len() as int + 1) == 0);
    assert(head & LINK_MASK == head) by {
        if order.len() > 0 {
            assert(live(cells, order[0]));
            lemma_cell_word(cells, order[0]);
        } else {
            assert(0u64 & LINK_MASK == 0) by (bit_vector);
        }
    }
    assert(head & MARK_BIT == 0) by {
        if order.len() > 0 {
            assert(live(cells, order[0]));
            lemma_cell_word(cells, order[0]);
        } else {
            assert(0u64 & MARK_BIT == 0) by (bit_vector);
        }
    }
    assert forall|k: int| 0 <= k < order_after.len() implies (after[#[trigger] order_after[k]]->0.spec_gc()
        & LINK_MASK) == link_word(after, order_after, k + 1) by {
        if k == 0 {
            assert(link_word(after, order_after, 1) == link_word(cells, order, 0));
        } else {
            assert(order_after[k] == order[k - 1]);
            assert(live(cells, order[k - 1]));
            if k < order.len() {
                assert(link_word(after, order_after, k + 1) == link_word(cells, order, k));
            }
        }
    }
    lemma_slot_address(i);
    assert forall|a: u64| is_slot_address(a) && a != slot_address(i) implies address_slot(a)
        != i by {
        lemma_address_slot(a);
    }
    assert(objects_of(after) =~= objects_of(cells).insert(slot_address(i), cell.object()));
    assert(marks_of(after) =~= marks_of(cells));
    assert(chain_of(order_after) =~= seq![slot_address(i)] + chain_of(order));
}

/// What unlinking the cell at position `s` changes in the arena.
spec fn unlinked(
    cells: Seq<Option<HeapCell>>,
    after: Seq<Option<HeapCell>>,
    order: Seq<int>,
    s: int,
) -> bool {
    &&& 0 <= s < order.len()
    &&& after.len() == cells.len()
    &&& after[order[s]] is None
    &&& forall|x: int|
        0 <= x < cells.len() && x != order[s] && (s == 0 || x != order[s - 1])
            ==> #[trigger] after[x] == cells[x]
    &&& s > 0 ==> after[order[s - 1]] is Some && after[order[s - 1]]->0.spec_kind()
        == cells[order[s - 1]]->0.spec_kind() && (after[order[s - 1]]->0.spec_gc() & LINK_MASK)
        == (cells[order[s]]->0.spec_gc() & LINK_MASK)
}

/// The cells that stay on the list after an unlinking are live and of the
/// kind they were.
proof fn lemma_unlink_cells(
    cells: Seq<Option<HeapCell>>,
    after: Seq<Option<HeapCell>>,
    free: Seq<usize>,
    order: Seq<int>,
    limit: u64,
    s: int,
    j: int,
)
    requires
        arena_ok(cells, free, order, limit),
        unlinked(cells, after, order, s),
        0 <= j < order.len(),
        j != s,
    ensures
        live(after, order[j]),
        live(cells, order[j]),
        order[j] != order[s],
        after[order[j]]->0.spec_kind() == cells[order[j]]->0.spec_kind(),
        j != s - 1 ==> after[order[j]] == cells[order[j]],
        cell_word(after, order[j]) == cell_word(cells, order[j]),
{
    let x = order[j];
    assert(live(cells, x));
    if s > 0 && x == order[s - 1] {
    } else {
        assert(after[x] == cells[x]);
    }
}

/// Taking the cell at position `s` off the list keeps the arena in order.
proof fn lemma_unlink_arena(
    cells: Seq<Option<HeapCell>>,
    after: Seq<Option<HeapCell>>,
    free: Seq<usize>,
    order: Seq<int>,
    limit: u64,
    s: int,
    slot: usize,
)
    requires
        arena_ok(cells, free, order, limit),
        unlinked(cells, after, order, s),
        slot == order[s],
    ensures
        arena_ok(after, free.push(slot), order.remove(s), limit),
{
    let i = order[s];
    let rest = order.remove(s);
    let free_after = free.push(slot);
    assert(live(cells, i));
    assert forall|j: int| 0 <= j < rest.len() implies live(after, #[trigger] rest[j]) by {
        let m = if j < s {
            j
        } else {
            j + 1
        };
        assert(rest[j] == order[m]);
        lemma_unlink_cells(cells, after, free, order, limit, s, m);
    }
    assert forall|a: int, b: int|
        0 <= a < rest.len() && 0 <= b < rest.len() && a != b implies rest[a] != rest[b] by {
        let ma = if a < s {
            a
        } else {
            a + 1
        };
        let mb = if b < s {
            b
        } else {
            b + 1
        };
        assert(rest[a] == order[ma] && rest[b] == order[mb]);
    }
    assert forall|x: int| #[trigger] live(after, x) implies rest.contains(x) by {
        assert(x != i);
        if s > 0 && x == order[s - 1] {
            assert(rest[s - 1] == x);
        } else {
            assert(after[x] == cells[x]);
            assert(live(cells, x));
            let j = choose|j: int| 0 <= j < order.len() && order[j] == x;
            if j < s {
                assert(rest[j] == x);
            } else {
                assert(rest[j - 1] == x);
            }
        }
    }
    assert forall|j: int| 0 <= j < free_after.len() implies 0 <= (#[trigger] free_after[j])
        < after.len() && after[free_after[j] as int] is None by {
        if j < free.len() {
            let x = free[j] as int;
            assert(cells[x] is None);
            if s > 0 {
                assert(live(cells, order[s - 1]));
            }
            assert(after[x] == cells[x]);
        }
    }
    assert forall|a: int, b: int|
        0 <= a < free_after.len() && 0 <= b < free_after.len() && a != b implies free_after[a]
        != free_after[b] by {
        if a < free.len() {
            assert(cells[free[a] as int] is None);
        }
        if b < free.len() {
            assert(cells[free[b] as int] is None);
        }
    }
}

/// Taking the cell at position `s` off the list: the link that named it
/// (the head word, or the link of the cell before it) names its successor
/// instead, and the list is threaded as before.
proof fn lemma_unlink(
    cells: Seq<Option<HeapCell>>,
    after: Seq<Option<HeapCell>>,
    free: Seq<usize>,
    order: Seq<int>,
    limit: u64,
    head: u64,
    head_after: u64,
    s: int,
    slot: usize,
)
    requires
        arena_ok(cells, free, order, limit),
        linked(cells, order, head),
        unlinked(cells, after, order, s),
        slot == order[s],
        s > 0 ==> head_after == head,
        s == 0 ==> head_after == (cells[order[s]]->0.spec_gc() & LINK_MASK),
    ensures
        arena_ok(after, free.push(slot), order.remove(s), limit),
        linked(after, order.remove(s), head_after),
        link_word(after, order.remove(s), s) == (cells[order[s]]->0.spec_gc() & LINK_MASK),
        chain_of(order.remove(s)) == chain_of(order).remove(s),
{
    lemma_unlink_arena(cells, after, free, order, limit, s, slot);
    let rest = order.remove(s);
    let next = cells[order[s]]->0.spec_gc() & LINK_MASK;
    assert(next == link_word(cells, order, s + 1));
    assert forall|j: int| 0 <= j <= rest.len() implies #[trigger] link_word(after, rest, j) == (if j
        < s {
        link_word(cells, order, j)
    } else {
        link_word(cells, order, j + 1)
    }) by {
        if j < rest.len() {
            let m = if j < s {
                j
            } else {
                j + 1
            };
            assert(rest[j] == order[m]);
            lemma_unlink_cells(cells, after, free, order, limit, s, m);
        }
    }
    assert forall|j: int| 0 <= j < rest.len() implies (after[#[trigger] rest[j]]->0.spec_gc()
        & LINK_MASK) == link_word(after, rest, j + 1) by {
        let m = if j < s {
            j
        } else {
            j + 1
        };
        assert(rest[j] == order[m]);
        lemma_unlink_cells(cells, after, free, order, limit, s, m);
        assert(link_word(after, rest, j + 1) == (if j + 1 < s {
            link_word(cells, order, j + 1)
        } else {
            link_word(cells, order, j + 2)
        }));
        assert((cells[order[m]]->0.spec_gc() & LINK_MASK) == link_word(cells, order, m + 1));
    }
    assert(link_word(after, rest, 0) == (if 0 < s {
        link_word(cells, order, 0)
    } else {
        link_word(cells, order, 1)
    }));
    assert(link_word(after, rest, s) == link_word(cells, order, s + 1));
    assert(chain_of(rest) =~= chain_of(order).remove(s));
}

/// What unlinking the cell in slot `i` does to the view, where the cell in
/// slot `p` (if there is one) keeps its mark and what it holds.
proof fn lemma_unlink_view(
    cells: Seq<Option<HeapCell>>,
    after: Seq<Option<HeapCell>>,
    i: int,
    p: int,
)
    requires
        0 <= i < MAX_CELLS,
        live(cells, i),
        after.len() == cells.len(),
        after[i] is None,
        forall|x: int| 0 <= x < cells.len() && x != i && x != p ==> #[trigger] after[x] == cells[x],
        0 <= p < cells.len() && p != i ==> (after[p] is Some) == (cells[p] is Some) && (cells[p]
            is Some ==> after[p]->0.object() == cells[p]->0.object() && (after[p]->0.spec_gc()
            & MARK_BIT) == (cells[p]->0.spec_gc() & MARK_BIT)),
    ensures
        objects_of(after) == objects_of(cells).remove(slot_address(i)),
        marks_of(after) == marks_of(cells).remove(slot_address(i)),
{
    lemma_slot_address(i);
    assert forall|a: u64| is_slot_address(a) && a != slot_address(i) implies address_slot(a)
        != i by {
        lemma_address_slot(a);
    }
    assert(objects_of(after) =~= objects_of(cells).remove(slot_address(i)));
    assert(marks_of(after) =~= marks_of(cells).remove(slot_address(i)));
}

/// The head word for the cell at `ptr`, of kind `kind`.
fn pack_head(ptr: u64, kind: VType) -> (w: u64)
    ensures
        w == head_word(ptr, kind.spec_code()),
{
    let code = kind.code();
    assert(head_word(ptr, code) == (code << 56) | (((ptr >> 47) & 1) << 55) | (ptr
        & 0x007F_FFFF_FFFF_FFFE)) by (bit_vector);
    (code << 56) | (((ptr >> 47) & 1) << 55) | (ptr & 0x007F_FFFF_FFFF_FFFE)
}

impl Value {
    /// Writes the `gc` word of the cell that `p` names. `p` is a pointer in
    /// the form of a head word: the kind of the cell above its address.
    fn set_gc(heap: &mut Heap, p: u64, gc: u64)
        requires
            is_slot_address(head_pointer(p)),
            live(old(heap).cells@, address_slot(head_pointer(p))),
            head_code(p) == old(heap).cells@[address_slot(head_pointer(p))]->0.spec_kind().spec_code(),
        ensures
            final(heap).cells@ == old(heap).cells@.update(
                address_slot(head_pointer(p)),
                Some(old(heap).cells@[address_slot(head_pointer(p))]->0.with_gc(gc)),
            ),
            final(heap).free == old(heap).free,
            final(heap).head == old(heap).head,
            final(heap).limit == old(heap).limit,
            final(heap).order == old(heap).order,
    {
        let ty = VType::from(p >> 56);
        let ptr = if (p >> 55) & 1 == 1 {
            (p & HEAD_LOW_MASK) | POINTER_HIGH
        } else {
            p & HEAD_LOW_MASK
        };
        assert(ptr == head_pointer(p));
        assert(address_slot(ptr) < heap.cells.len());
        let i = (ptr / 8 - 1) as usize;
        let ghost before = heap.cells@;
        match &mut heap.cells[i] {
            Some(c) => {
                if c.kind() == ty {
                    c.set_gc(gc);
                }
            },
            None => {},
        }
        assert(heap.cells@ =~= before.update(i as int, Some(before[i as int]->0.with_gc(gc))));
    }
}

impl Heap {
    /// The representation invariant.
    pub closed spec fn wf(&self) -> bool {
        &&& arena_ok(self.cells@, self.free@, self.order@, self.limit)
        &&& linked(self.cells@, self.order@, self.head)
    }

    /// What the invariant says of the view.
    pub proof fn lemma_consistent(&self)
        requires
            self.wf(),
        ensures
            self@.consistent(),
    {
        lemma_chain(self.cells@, self.free@, self.order@, self.limit);
    }

    /// An empty heap for at most `limit` cells, and never more than
    /// `MAX_CELLS`.
    pub fn new(limit: u64) -> (heap: Heap)
        ensures
            heap.wf(),
            heap@.objects == Map::<u64, Object>::empty(),
            heap@.marks == Set::<u64>::empty(),
            heap@.chain == Seq::<u64>::empty(),
            heap@.limit == (if limit <= MAX_CELLS {
                limit
            } else {
                MAX_CELLS
            }),
    {
        let limit = if limit <= MAX_CELLS {
            limit
        } else {
            MAX_CELLS
        };
        let heap = Heap {
            cells: Vec::new(),
            free: Vec::new(),
            head: 0,
            limit,
            order: Ghost(Seq::empty()),
        };
        assert(heap@.objects =~= Map::<u64, Object>::empty());
        assert(heap@.marks =~= Set::<u64>::empty());
        assert(heap@.chain =~= Seq::<u64>::empty());
        heap
    }

    /// The head word.
    pub fn get_head(&self) -> (w: u64)
        requires
            self.wf(),
        ensures
            w == self@.head(),
    {
        proof {
            if self.order@.len() > 0 {
                assert(live(self.cells@, self.order@[0]));
                lemma_slot_address(self.order@[0]);
            }
        }
        self.head
    }

    /// How many cells the heap may hold.
    pub fn limit(&self) -> (n: u64)
        ensures
            n == self@.limit,
    {
        self.limit
    }

    /// The slot that the head-word pointer `w` names.
    fn word_slot(&self, w: u64, Ghost(k): Ghost<int>) -> (i: usize)
        requires
            self.wf(),
            0 <= k < self.order@.len(),
            w & LINK_MASK == link_word(self.cells@, self.order@, k),
        ensures
            i == self.order@[k],
            live(self.cells@, i as int),
    {
        proof {
            assert(live(self.cells@, self.order@[k]));
            lemma_cell_word(self.cells@, self.order@[k]);
            lemma_slot_address(self.order@[k]);
        }
        let link = w & LINK_MASK;
        let ptr = if (link >> 55) & 1 == 1 {
            (link & HEAD_LOW_MASK) | POINTER_HIGH
        } else {
            link & HEAD_LOW_MASK
        };
        assert(ptr == head_pointer(link));
        assert(ptr == slot_address(self.order@[k]));
        assert(ptr / 8 - 1 == self.order@[k]);
        assert(self.order@[k] < self.cells.len());
        (ptr / 8 - 1) as usize
    }

    /// The number of cells on the heap list, found by walking it.
    pub fn len(&self) -> (n: u64)
        requires
            self.wf(),
        ensures
            n == self@.chain.len(),
    {
        let mut n: u64 = 0;
        let mut cur: u64 = self.head;
        while cur != 0
            invariant
                self.wf(),
                0 <= n <= self.order@.len(),
                cur == link_word(self.cells@, self.order@, n as int),
            decreases self.order@.len() - n,
        {
            proof {
                if n == self.order@.len() {
                    assert(cur == 0);
                }
                assert(live(self.cells@, self.order@[n as int]));
                lemma_cell_word(self.cells@, self.order@[n as int]);
            }
            let i = self.word_slot(cur, Ghost(n as int));
            let gc = match &self.cells[i] {
                Some(c) => c.gc(),
                None => 0,
            };
            cur = gc & LINK_MASK;
            n = n + 1;
        }
        proof {
            if n < self.order@.len() {
                assert(live(self.cells@, self.order@[n as int]));
                lemma_cell_word(self.cells@, self.order@[n as int]);
            }
        }
        n
    }

    /// The slot of the cell at `a`.
    fn slot(&self, a: u64) -> (i: usize)
        requires
            self.wf(),
            self@.objects.dom().contains(a),
        ensures
            i == address_slot(a),
            live(self.cells@, i as int),
            slot_address(i as int) == a,
            0 <= i < MAX_CELLS,
    {
        proof {
            lemma_address_slot(a);
            assert(address_slot(a) < self.cells.len());
        }
        (a / 8 - 1) as usize
    }

    /// Whether `v` is a handle to a live cell of its own kind.
    pub fn holds(&self, v: Value) -> (b: bool)
        requires
            self.wf(),
        ensures
            b == self@.holds(v),
    {
        if !v.is_pointer() {
            return false;
        }
        let a = v.to_pointer();
        if a < 8 || a % 8 != 0 {
            return false;
        }
        let q = a / 8;
        if q > self.cells.len() as u64 {
            return false;
        }
        let i = (q - 1) as usize;
        match &self.cells[i] {
            Some(c) => c.kind() == v.to_type(),
            None => false,
        }
    }

    /// The cell at `a`.
    pub fn cell_at(&self, a: u64) -> (c: &HeapCell)
        requires
            self.wf(),
            self@.objects.dom().contains(a),
        ensures
            c.object() == self@.objects[a],
            ((c.spec_gc() & MARK_BIT) == MARK_BIT) == self@.marks.contains(a),
    {
        let i = self.slot(a);
        self.cells[i].as_ref().unwrap()
    }

    /// Puts `cell` into the heap and makes it the head of the list.
    pub(crate) fn publish(&mut self, cell: HeapCell) -> (r: Result<u64, ValueError>)
        requires
            old(self).wf(),
            cell.spec_gc() == old(self)@.head(),
        ensures
            final(self).wf(),
            final(self)@.limit == old(self)@.limit,
            r is Ok <==> old(self)@.chain.len() < old(self)@.limit,
            r matches Ok(a) ==> {
                &&& !old(self)@.objects.dom().contains(a)
                &&& is_slot_address(a)
                &&& final(self)@.objects == old(self)@.objects.insert(a, cell.object())
                &&& final(self)@.marks == old(self)@.marks
                &&& final(self)@.chain == seq![a] + old(self)@.chain
            },
            r matches Err(e) ==> e == ValueError::AllocationFailure && final(self)@ == old(self)@,
    {
        let head = self.get_head();
        let kind = cell.kind();
        let ghost object = cell.object();
        let ghost before = self.cells@;
        let ghost free_before = self.free@;
        let i: usize;
        if self.free.len() > 0 {
            i = self.free.pop().unwrap();
            assert(i == free_before[free_before.len() - 1]);
            self.cells[i] = Some(cell);
        } else if (self.cells.len() as u64) < self.limit {
            i = self.cells.len();
            self.cells.push(Some(cell));
        } else {
            return Err(ValueError::AllocationFailure);
        }
        proof {
            lemma_publish(
                before,
                self.cells@,
                free_before,
                self.free@,
                self.order@,
                self.limit,
                head,
                i as int,
                self.cells@[i as int]->0,
            );
            lemma_slot_address(i as int);
        }
        let ptr: u64 = (i as u64 + 1) * 8;
        self.set_head(ptr, kind);
        self.order = Ghost(seq![i as int] + self.order@);
        Ok(ptr)
    }

    /// Makes the head word name the cell at `ptr`, of kind `kind`.
    fn set_head(&mut self, ptr: u64, kind: VType)
        ensures
            final(self).head == head_word(ptr, kind.spec_code()),
            final(self).cells == old(self).cells,
            final(self).free == old(self).free,
            final(self).limit == old(self).limit,
            final(self).order == old(self).order,
    {
        self.head = pack_head(ptr, kind);
    }

    /// Writes the `gc` word of the cell at `a`, keeping its link.
    fn write_mark(&mut self, a: u64, gc: u64)
        requires
            old(self).wf(),
            old(self)@.objects.dom().contains(a),
            (gc & LINK_MASK) == (old(self).cells@[address_slot(a)]->0.spec_gc() & LINK_MASK),
        ensures
            final(self).wf(),
            final(self)@.objects == old(self)@.objects,
            final(self)@.chain == old(self)@.chain,
            final(self)@.limit == old(self)@.limit,
            (gc & MARK_BIT) == MARK_BIT ==> final(self)@.marks == old(self)@.marks.insert(a),
            (gc & MARK_BIT) != MARK_BIT ==> final(self)@.marks == old(self)@.marks.remove(a),
            final(self).order@ == old(self).order@,
            forall|k: int|
                link_word(final(self).cells@, final(self).order@, k) == link_word(
                    old(self).cells@,
                    old(self).order@,
                    k,
                ),
    {
        let i = self.slot(a);
        let ghost before = self.cells@;
        let kind = match &self.cells[i] {
            Some(c) => c.kind(),
            None => VType::Void,
        };
        proof {
            lemma_cell_word(before, i as int);
        }
        Value::set_gc(self, pack_head(a, kind), gc);
        proof {
            lemma_mark_view(before, i as int, gc);
            lemma_same_links(before, self.cells@, self.free@, self.order@, self.limit, self.head);
            assert forall|k: int|
                link_word(self.cells@, self.order@, k) == link_word(before, self.order@, k) by {
                if 0 <= k < self.order@.len() {
                    assert(live(before, self.order@[k]));
                }
            }
        }
    }

    /// The `gc` word of the cell at `a`.
    fn gc_word(&self, a: u64) -> (gc: u64)
        requires
            self.wf(),
            self@.objects.dom().contains(a),
        ensures
            gc == self.cells@[address_slot(a)]->0.spec_gc(),
    {
        let i = self.slot(a);
        match &self.cells[i] {
            Some(c) => c.gc(),
            None => 0,
        }
    }

    /// Whether the cell at `a` carries the mark.
    pub fn is_marked(&self, a: u64) -> (b: bool)
        requires
            self.wf(),
            self@.objects.dom().contains(a),
        ensures
            b == self@.marks.contains(a),
    {
        (self.cell_at(a).gc() & MARK_BIT) == MARK_BIT
    }

    /// Sets the mark bit of the cell at `a`.
    pub(crate) fn set_mark(&mut self, a: u64)
        requires
            old(self).wf(),
            old(self)@.objects.dom().contains(a),
        ensures
            final(self).wf(),
            final(self)@.objects == old(self)@.objects,
            final(self)@.chain == old(self)@.chain,
            final(self)@.limit == old(self)@.limit,
            final(self)@.marks == old(self)@.marks.insert(a),
    {
        let gc = self.gc_word(a);
        assert(((gc | MARK_BIT) & LINK_MASK) == (gc & LINK_MASK) && ((gc | MARK_BIT) & MARK_BIT)
            == MARK_BIT) by (bit_vector);
        self.write_mark(a, gc | MARK_BIT);
    }

    /// Overwrites one field of the pair at `a`.
    pub(crate) fn store_pair(&mut self, a: u64, first: bool, x: Value)
        requires
            old(self).wf(),
            old(self)@.objects.dom().contains(a),
            old(self)@.objects[a] is Pair,
        ensures
            final(self).wf(),
            final(self)@.marks == old(self)@.marks,
            final(self)@.chain == old(self)@.chain,
            final(self)@.limit == old(self)@.limit,
            final(self)@.objects == old(self)@.objects.insert(
                a,
                if first {
                    Object::Pair { car: x, cdr: old(self)@.objects[a]->Pair_cdr }
                } else {
                    Object::Pair { car: old(self)@.objects[a]->Pair_car, cdr: x }
                },
            ),
    {
        let i = self.slot(a);
        let ghost before = self.cells@;
        match &mut self.cells[i] {
            Some(HeapCell::Pair(p)) => {
                if first {
                    p.car = x;
                } else {
                    p.cdr = x;
                }
            },
            _ => {},
        }
        proof {
            assert(self.cells@ =~= before.update(i as int, self.cells@[i as int]));
            lemma_store_view(before, i as int, self.cells@[i as int]->0);
            lemma_same_links(before, self.cells@, self.free@, self.order@, self.limit, self.head);
        }
    }

    /// Clears the mark bit of the cell at `a`.
    fn clear_mark(&mut self, a: u64)
        requires
            old(self).wf(),
            old(self)@.objects.dom().contains(a),
        ensures
            final(self).wf(),
            final(self)@.objects == old(self)@.objects,
            final(self)@.chain == old(self)@.chain,
            final(self)@.limit == old(self)@.limit,
            final(self)@.marks == old(self)@.marks.remove(a),
            final(self).order@ == old(self).order@,
            forall|k: int|
                link_word(final(self).cells@, final(self).order@, k) == link_word(
                    old(self).cells@,
                    old(self).order@,
                    k,
                ),
    {
        let gc = self.gc_word(a);
        assert(((gc & LINK_MASK) & LINK_MASK) == (gc & LINK_MASK) && ((gc & LINK_MASK) & MARK_BIT)
            != MARK_BIT) by (bit_vector);
        self.write_mark(a, gc & LINK_MASK);
    }

    /// Takes the cell in slot `i`, at position `s` of the list, off the list
    /// and frees its slot. `prev` is the slot of the cell before it. Gives the
    /// word that links to its successor.
    fn unlink(&mut self, prev: Option<usize>, i: usize, Ghost(s): Ghost<int>) -> (next: u64)
        requires
            old(self).wf(),
            0 <= s < old(self).order@.len(),
            old(self).order@[s] == i,
            match prev {
                None => s == 0,
                Some(p) => s > 0 && old(self).order@[s - 1] == p,
            },
        ensures
            final(self).wf(),
            final(self).order@ == old(self).order@.remove(s),
            next == link_word(final(self).cells@, final(self).order@, s),
            final(self)@.limit == old(self)@.limit,
            final(self)@.objects == old(self)@.objects.remove(slot_address(i as int)),
            final(self)@.marks == old(self)@.marks.remove(slot_address(i as int)),
            final(self)@.chain == old(self)@.chain.remove(s),
    {
        let ghost before = self.cells@;
        let ghost head = self.head;
        let ghost order = self.order@;
        let ghost free = self.free@;
        proof {
            assert(live(before, order[s]));
            if s > 0 {
                assert(live(before, order[s - 1]));
            }
        }
        let gc = match &self.cells[i] {
            Some(c) => c.gc(),
            None => 0,
        };
        let next = gc & LINK_MASK;
        match prev {
            None => {
                self.head = next;
            },
            Some(p) => {
                let (g, kind) = match &self.cells[p] {
                    Some(c) => (c.gc(), c.kind()),
                    None => (0, VType::Void),
                };
                assert((((gc & LINK_MASK) | (g & MARK_BIT)) & LINK_MASK) == (gc & LINK_MASK) && (((
                gc & LINK_MASK) | (g & MARK_BIT)) & MARK_BIT) == (g & MARK_BIT)) by (bit_vector);
                proof {
                    lemma_cell_word(before, p as int);
                    lemma_slot_address(p as int);
                }
                Value::set_gc(self, pack_head((p as u64 + 1) * 8, kind), next | (g & MARK_BIT));
            },
        }
        self.cells[i] = None;
        self.free.push(i);
        self.order = Ghost(order.remove(s));
        proof {
            let p: int = if s > 0 {
                order[s - 1]
            } else {
                i as int
            };
            lemma_unlink(before, self.cells@, free, order, self.limit, head, self.head, s, i);
            lemma_unlink_view(before, self.cells@, i as int, p);
        }
        next
    }

    /// The word that links to position `k` of the heap list: the head word
    /// for the first position, zero behind the last.
    pub closed spec fn link(&self, k: int) -> u64 {
        link_word(self.cells@, self.order@, k)
    }

    /// Only the link behind the end of the list is zero.
    pub proof fn lemma_link(&self, k: int)
        requires
            self.wf(),
            0 <= k,
        ensures
            (self.link(k) == 0) <==> k >= self@.chain.len(),
            self.link(0) == self@.head(),
    {
        if k < self.order@.len() {
            assert(live(self.cells@, self.order@[k]));
            lemma_cell_word(self.cells@, self.order@[k]);
        }
        if self.order@.len() > 0 {
            assert(live(self.cells@, self.order@[0]));
            lemma_slot_address(self.order@[0]);
        }
    }

    /// One step of a sweep, at the cell that `cur` links to, position `s` of
    /// the list. A marked cell stays and loses its mark; an unmarked cell is
    /// taken off the list and freed. Gives the link to the next cell, the
    /// address of this one, and whether it stayed.
    pub(crate) fn sweep_step(&mut self, cur: u64, prev: Option<u64>, Ghost(s): Ghost<int>) -> (r: (
        u64,
        u64,
        bool,
    ))
        requires
            old(self).wf(),
            0 <= s < old(self)@.chain.len(),
            cur == old(self).link(s),
            match prev {
                None => s == 0,
                Some(p) => s > 0 && old(self)@.chain[s - 1] == p,
            },
        ensures
            final(self).wf(),
            final(self)@.limit == old(self)@.limit,
            r.1 == old(self)@.chain[s],
            r.2 == old(self)@.marks.contains(r.1),
            final(self)@.marks == old(self)@.marks.remove(r.1),
            r.2 ==> final(self)@.objects == old(self)@.objects && final(self)@.chain == old(
                self,
            )@.chain && r.0 == final(self).link(s + 1),
            !r.2 ==> final(self)@.objects == old(self)@.objects.remove(r.1) && final(self)@.chain
                == old(self)@.chain.remove(s) && r.0 == final(self).link(s),
    {
        let ghost order = self.order@;
        proof {
            assert(live(self.cells@, order[s]));
            lemma_cell_word(self.cells@, order[s]);
            lemma_slot_address(order[s]);
            self.lemma_consistent();
            if s > 0 {
                assert(live(self.cells@, order[s - 1]));
                lemma_slot_address(order[s - 1]);
            }
        }
        let i = self.word_slot(cur, Ghost(s));
        let a: u64 = (i as u64 + 1) * 8;
        assert(self@.chain[s] == a);
        assert(self@.chain.contains(a));
        if self.is_marked(a) {
            let next = self.gc_word(a) & LINK_MASK;
            self.clear_mark(a);
            (next, a, true)
        } else {
            let before = match prev {
                Some(p) => {
                    assert(self@.chain.contains(p));
                    Some(self.slot(p))
                },
                None => None,
            };
            let next = self.unlink(before, i, Ghost(s));
            assert(self@.marks =~= old(self)@.marks.remove(a));
            (next, a, false)
        }
    }
}

} // verus!
