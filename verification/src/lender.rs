//! A hand-off cell: a value is either available in the cell or lent out.

use vstd::prelude::*;

verus! {

/// What the cell holds.
#[derive(Debug)]
enum State<Inner> {
    Available(Inner),
    Lent,
}

/// A cell from which a value is taken by value and later restored.
///
/// The cell is the sequential core of the hand-off: whoever shares it across
/// tasks guards it with a lock and waits for `is_available` before `take`.
#[derive(Debug)]
pub struct AtomicLender<Inner> {
    state: State<Inner>,
}

impl<Inner> AtomicLender<Inner> {
    /// The value in the cell, if it is not lent out.
    pub closed spec fn view(&self) -> Option<Inner> {
        match self.state {
            State::Available(inner) => Some(inner),
            State::Lent => None,
        }
    }

    pub fn new(inner: Inner) -> (lender: Self)
        ensures
            lender@ == Some(inner),
    {
        AtomicLender { state: State::Available(inner) }
    }

    /// True while the value is in the cell.
    pub fn is_available(&self) -> (available: bool)
        ensures
            available == self@.is_some(),
    {
        match &self.state {
            State::Available(_) => true,
            State::Lent => false,
        }
    }

    /// Takes the value out of the cell. A caller that shares the cell waits
    /// until the value is available; taking from a lent cell never returns,
    /// so it is ruled out here.
    pub fn take(&mut self) -> (inner: Inner)
        requires
            old(self)@.is_some(),
        ensures
            old(self)@ == Some(inner),
            final(self)@.is_none(),
    {
        let mut state = State::Lent;
        std::mem::swap(&mut self.state, &mut state);
        match state {
            State::Available(inner) => inner,
            State::Lent => vstd::pervasive::unreached(),
        }
    }

    /// Takes the value if it is in the cell, and never waits.
    pub fn try_take(&mut self) -> (taken: Option<Inner>)
        ensures
            taken == old(self)@,
            final(self)@.is_none(),
    {
        let mut state = State::Lent;
        std::mem::swap(&mut self.state, &mut state);
        match state {
            State::Available(inner) => Some(inner),
            State::Lent => None,
        }
    }

    /// Puts a value back into a lent cell.
    pub fn restore(&mut self, inner: Inner)
        requires
            old(self)@.is_none(),
        ensures
            final(self)@ == Some(inner),
    {
        self.state = State::Available(inner);
    }
}

/// One move of a worker that shares a cell.
pub enum Move {
    /// The worker takes the value, if the cell holds it.
    Take(nat),
    /// The worker puts back the value it holds, if it holds one.
    Restore(nat),
}

/// A cell together with the values that workers hold.
pub struct Shared<Inner> {
    pub cell: Option<Inner>,
    pub hands: Map<nat, Inner>,
}

/// The effect of one move. A take on a lent cell and a restore by a worker
/// that holds nothing leave everything as it is.
pub open spec fn step<Inner>(before: Shared<Inner>, m: Move) -> Shared<Inner> {
    match m {
        Move::Take(worker) => match before.cell {
            Some(inner) => Shared { cell: None, hands: before.hands.insert(worker, inner) },
            None => before,
        },
        Move::Restore(worker) => if before.cell.is_none() && before.hands.dom().contains(worker) {
            Shared { cell: Some(before.hands[worker]), hands: before.hands.remove(worker) }
        } else {
            before
        },
    }
}

/// The effect of a sequence of moves, first to last.
pub open spec fn run<Inner>(start: Shared<Inner>, moves: Seq<Move>) -> Shared<Inner>
    decreases moves.len(),
{
    if moves.len() == 0 {
        start
    } else {
        step(run(start, moves.drop_last()), moves.last())
    }
}

/// The value is in exactly one place: in the cell, or in one worker's hands.
pub open spec fn held_once<Inner>(shared: Shared<Inner>, inner: Inner) -> bool {
    ||| shared.cell == Some(inner) && shared.hands =~= Map::<nat, Inner>::empty()
    ||| shared.cell.is_none() && exists|worker: nat| shared.hands =~= Map::<nat, Inner>::empty().insert(worker, inner)
}

/// Whatever order the workers' takes and restores come in, the value that
/// the cell started with is never lost, copied or changed.
pub proof fn lemma_value_preserved<Inner>(inner: Inner, moves: Seq<Move>)
    ensures
        held_once(run(Shared { cell: Some(inner), hands: Map::<nat, Inner>::empty() }, moves), inner),
    decreases moves.len(),
{
    let start = Shared { cell: Some(inner), hands: Map::<nat, Inner>::empty() };
    if moves.len() > 0 {
        lemma_value_preserved(inner, moves.drop_last());
        let before = run(start, moves.drop_last());
        let after = step(before, moves.last());
        match moves.last() {
            Move::Take(worker) => {
                if before.cell.is_some() {
                    assert(after.hands =~= Map::<nat, Inner>::empty().insert(worker, inner));
                }
            },
            Move::Restore(worker) => {
                if before.cell.is_none() && before.hands.dom().contains(worker) {
                    let holder = choose|holder: nat| before.hands =~= Map::<nat, Inner>::empty().insert(holder, inner);
                    assert(holder == worker);
                    assert(after.hands =~= Map::<nat, Inner>::empty());
                }
            },
        }
    }
}

} // verus!
