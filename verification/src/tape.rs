//! The tape: an unbounded one-dimensional sequence of symbols with a single
//! read/write head, growing on demand by one blank cell at either end.

use vstd::prelude::*;
use vstd::std_specs::cmp::PartialEqSpec;

verus! {

/// The head displacement applied after a write.
#[derive(Clone, Copy)]
pub enum Move {
    Left,
    Right,
    Stay,
}

/// One transition step's output: the symbol to write, the head movement,
/// and the next state.
pub struct Action<S, V>(pub V, pub Move, pub S);

/// The contents of the tape after writing `value` at `head` and then moving
/// in direction `dir`: a blank cell is prepended on a `Left` move from cell 0,
/// and appended on a `Right` move from the last cell.
pub open spec fn cells_after<V>(cells: Seq<V>, head: int, blank: V, value: V, dir: Move) -> Seq<V> {
    let written = cells.update(head, value);
    match dir {
        Move::Stay => written,
        Move::Left => if head == 0 {
            seq![blank] + written
        } else {
            written
        },
        Move::Right => if head == cells.len() - 1 {
            written.push(blank)
        } else {
            written
        },
    }
}

/// The head position after a move from `head`: a `Left` move from cell 0
/// leaves the head at 0, over the freshly prepended blank.
pub open spec fn head_after<V>(cells: Seq<V>, head: int, dir: Move) -> int {
    match dir {
        Move::Stay => head,
        Move::Left => if head == 0 {
            0
        } else {
            head - 1
        },
        Move::Right => head + 1,
    }
}

/// How many cells of `s` are equal to `value`, under the `eq_spec`
/// specification of the symbol type's own equality.
pub open spec fn count_eq<V: PartialEq>(s: Seq<V>, value: V) -> nat
    decreases s.len(),
{
    if s.len() == 0 {
        0
    } else {
        count_eq(s.drop_last(), value) + if s.last().eq_spec(&value) {
            1nat
        } else {
            0nat
        }
    }
}

/// The memory of the machine: a never-empty sequence of cells, a head
/// position that is always a valid index, and the blank symbol used to
/// populate newly grown cells.
pub struct Tape<T> {
    pos: usize,
    tape: Vec<T>,
    blank: T,
}

impl<T> Tape<T> where T: Copy + PartialEq {
    /// The current contents of the tape, in order.
    pub closed spec fn cells(&self) -> Seq<T> {
        self.tape@
    }

    /// The current head position.
    pub closed spec fn head(&self) -> int {
        self.pos as int
    }

    /// The symbol used to populate newly grown cells.
    pub closed spec fn blank_sym(&self) -> T {
        self.blank
    }

    /// The tape invariant: at least one cell, and the head over a valid cell.
    pub open spec fn wf(&self) -> bool {
        &&& 0 < self.cells().len()
        &&& 0 <= self.head() < self.cells().len()
    }

    /// Create a new tape positioned at index 0, holding `tape` if it is
    /// non-empty and a single blank cell otherwise.
    pub fn new(blank: T, tape: Vec<T>) -> (r: Self)
        ensures
            r.wf(),
            r.head() == 0,
            r.blank_sym() == blank,
            tape@.len() == 0 ==> r.cells() == seq![blank],
            tape@.len() > 0 ==> r.cells() == tape@,
    {
        if tape.is_empty() {
            let mut cells: Vec<T> = Vec::new();
            cells.push(blank);
            proof {
                assert(cells@ =~= seq![blank]);
            }
            Self { pos: 0, tape: cells, blank }
        } else {
            Self { pos: 0, tape, blank }
        }
    }

    /// Return the symbol at the current head position.
    pub fn current(&self) -> (r: T)
        requires
            self.wf(),
        ensures
            r == self.cells()[self.head()],
    {
        self.tape[self.pos]
    }

    /// Return the current head position.
    pub fn position(&self) -> (r: usize)
        ensures
            r == self.head(),
    {
        self.pos
    }

    /// Return the number of cells.
    pub fn len(&self) -> (r: usize)
        ensures
            r == self.cells().len(),
    {
        self.tape.len()
    }

    /// Write `value` into the cell under the head, then move the head in
    /// direction `dir`, growing the tape by one blank cell when the head
    /// would otherwise leave it.
    pub fn update(&mut self, value: T, dir: Move)
        requires
            old(self).wf(),
        ensures
            final(self).wf(),
            final(self).blank_sym() == old(self).blank_sym(),
            final(self).cells() == cells_after(
                old(self).cells(),
                old(self).head(),
                old(self).blank_sym(),
                value,
                dir,
            ),
            final(self).head() == head_after(old(self).cells(), old(self).head(), dir),
    {
        self.tape[self.pos] = value;

        match dir {
            Move::Stay => {},
            Move::Left => {
                if self.pos == 0 {
                    self.tape.insert(0, self.blank);
                    proof {
                        let written = old(self).cells().update(old(self).head(), value);
                        assert(written.insert(0, old(self).blank_sym()) =~= seq![
                            old(self).blank_sym(),
                        ] + written);
                    }
                } else {
                    self.pos = self.pos - 1;
                }
            },
            Move::Right => {
                let len = self.tape.len();
                self.pos = self.pos + 1;
                if self.pos == len {
                    self.tape.push(self.blank);
                }
            },
        }
    }

    /// Count the cells currently holding `value`, in tape order.
    pub fn count(&self, value: T) -> (r: usize)
        ensures
            r <= self.cells().len(),
            T::obeys_eq_spec() ==> r == count_eq(self.cells(), value),
    {
        let mut n: usize = 0;
        let mut i: usize = 0;

        while i < self.tape.len()
            invariant
                i <= self.tape@.len(),
                n <= i,
                T::obeys_eq_spec() ==> n == count_eq(self.tape@.take(i as int), value),
            decreases self.tape@.len() - i,
        {
            if self.tape[i] == value {
                n = n + 1;
            }
            i = i + 1;
            proof {
                lemma_count_eq_take_step(self.tape@, value, i as int);
            }
        }
        proof {
            assert(self.tape@.take(self.tape@.len() as int) =~= self.tape@);
        }
        n
    }
}

/// The contents and head position after applying a whole sequence of writes,
/// each a written value paired with a head movement, in order.
pub open spec fn tape_run<V>(cells: Seq<V>, head: int, blank: V, ws: Seq<(V, Move)>) -> (
    Seq<V>,
    int,
)
    decreases ws.len(),
{
    if ws.len() == 0 {
        (cells, head)
    } else {
        tape_run(
            cells_after(cells, head, blank, ws[0].0, ws[0].1),
            head_after(cells, head, ws[0].1),
            blank,
            ws.skip(1),
        )
    }
}

/// Law: from head position 0, a run of `Left` moves grows the tape by exactly
/// one blank cell per move and leaves the head at position 0, for arbitrarily
/// many consecutive moves.
pub proof fn lemma_left_moves_grow<V>(cells: Seq<V>, blank: V, ws: Seq<(V, Move)>)
    requires
        0 < cells.len(),
        forall|i: int| 0 <= i < ws.len() ==> (#[trigger] ws[i]).1 is Left,
    ensures
        tape_run(cells, 0, blank, ws).0.len() == cells.len() + ws.len(),
        tape_run(cells, 0, blank, ws).1 == 0,
    decreases ws.len(),
{
    if ws.len() > 0 {
        let grown = cells_after(cells, 0, blank, ws[0].0, ws[0].1);
        assert(grown.len() == cells.len() + 1);
        assert(head_after(cells, 0, ws[0].1) == 0);
        let rest = ws.skip(1);
        assert forall|i: int| 0 <= i < rest.len() implies (#[trigger] rest[i]).1 is Left by {
            assert(rest[i] == ws[i + 1]);
        }
        lemma_left_moves_grow(grown, blank, rest);
    }
}

/// Law: from the last head position, a run of `Right` moves grows the tape by
/// exactly one blank cell per move and leaves the head over the new last
/// cell, for arbitrarily many consecutive moves.
pub proof fn lemma_right_moves_grow<V>(cells: Seq<V>, blank: V, ws: Seq<(V, Move)>)
    requires
        0 < cells.len(),
        forall|i: int| 0 <= i < ws.len() ==> (#[trigger] ws[i]).1 is Right,
    ensures
        tape_run(cells, cells.len() - 1, blank, ws).0.len() == cells.len() + ws.len(),
        tape_run(cells, cells.len() - 1, blank, ws).1 == cells.len() + ws.len() - 1,
    decreases ws.len(),
{
    if ws.len() > 0 {
        let grown = cells_after(cells, cells.len() - 1, blank, ws[0].0, ws[0].1);
        assert(grown.len() == cells.len() + 1);
        assert(head_after(cells, cells.len() - 1, ws[0].1) == grown.len() - 1);
        let rest = ws.skip(1);
        assert forall|i: int| 0 <= i < rest.len() implies (#[trigger] rest[i]).1 is Right by {
            assert(rest[i] == ws[i + 1]);
        }
        lemma_right_moves_grow(grown, blank, rest);
    }
}

/// Law: a `Stay` update never changes the tape length or the head position;
/// it changes the written cell to `value` and no other cell.
pub proof fn lemma_stay_preserves_shape<V>(cells: Seq<V>, head: int, blank: V, value: V)
    requires
        0 <= head < cells.len(),
    ensures
        cells_after(cells, head, blank, value, Move::Stay).len() == cells.len(),
        head_after(cells, head, Move::Stay) == head,
        cells_after(cells, head, blank, value, Move::Stay)[head] == value,
        forall|j: int|
            0 <= j < cells.len() && j != head ==> cells_after(cells, head, blank, value, Move::Stay)[j]
                == cells[j],
{
}

/// Law: writing `value` with a `Stay` move leaves `value` under the head, so
/// reading the current cell right after returns `value`.
pub proof fn lemma_stay_round_trip<V>(cells: Seq<V>, head: int, blank: V, value: V)
    requires
        0 <= head < cells.len(),
    ensures
        cells_after(cells, head, blank, value, Move::Stay)[head_after(cells, head, Move::Stay)]
            == value,
{
}

/// Law: `count_eq` is the number of cells holding a value equal to `value`:
/// the cardinality of the set of their indices.
pub proof fn lemma_count_eq_is_cardinality<V: PartialEq>(s: Seq<V>, value: V)
    ensures
        count_eq(s, value) == Set::new(
            |j: int| 0 <= j < s.len() && s[j].eq_spec(&value),
        ).len(),
    decreases s.len(),
{
    let indices = Set::new(|j: int| 0 <= j < s.len() && s[j].eq_spec(&value));
    if s.len() == 0 {
        assert(indices =~= Set::empty());
    } else {
        let s0 = s.drop_last();
        let indices0 = Set::new(|j: int| 0 <= j < s0.len() && s0[j].eq_spec(&value));
        lemma_count_eq_is_cardinality(s0, value);
        vstd::set_lib::lemma_int_range(0, s0.len() as int);
        vstd::set_lib::lemma_len_subset(
            indices0,
            vstd::set_lib::set_int_range(0, s0.len() as int),
        );
        if s.last().eq_spec(&value) {
            assert(indices =~= indices0.insert(s.len() - 1));
        } else {
            assert(indices =~= indices0);
        }
    }
}

/// Counting over a one-longer prefix adds one exactly when the newly
/// included cell is equal to `value`.
proof fn lemma_count_eq_take_step<V: PartialEq>(s: Seq<V>, value: V, i: int)
    requires
        0 < i <= s.len(),
    ensures
        count_eq(s.take(i), value) == count_eq(s.take(i - 1), value) + if s[i - 1].eq_spec(
            &value,
        ) {
            1nat
        } else {
            0nat
        },
{
    assert(s.take(i).drop_last() =~= s.take(i - 1));
    assert(s.take(i).last() == s[i - 1]);
}

} // verus!
