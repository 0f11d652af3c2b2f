use crate::error::MatrixError;
use vstd::prelude::*;

verus! {

/// Where a run of sweeps over the pairs of columns stands. A sweep treats
/// every pair `(left, right)` with `left < right < columns` once, in the
/// order of `left` and then of `right`. `rotated` says whether a pair treated
/// earlier in the same sweep was rotated.
pub struct Position {
    pub columns: nat,
    pub max_sweeps: nat,
    pub sweep: nat,
    pub left: nat,
    pub right: nat,
    pub rotated: bool,
}

/// What follows a position: another pair to treat, the end of the run because
/// a whole sweep rotated nothing, or the failure to get there within the
/// sweeps allowed.
pub enum Outcome {
    Treat(Position),
    Settled,
    OutOfSweeps,
}

impl Position {
    /// The pair exists and the sweep is one of those allowed.
    pub open spec fn valid(self) -> bool {
        self.left < self.right && self.right < self.columns && self.sweep < self.max_sweeps
    }

    /// Whether the pair is the last of its sweep.
    pub open spec fn ends_sweep(self) -> bool {
        self.left + 2 >= self.columns
    }

    /// The position at which a run starts, if it has any pair to treat.
    pub open spec fn first(columns: nat, max_sweeps: nat) -> Outcome {
        if columns < 2 {
            Outcome::Settled
        } else if max_sweeps == 0 {
            Outcome::OutOfSweeps
        } else {
            Outcome::Treat(
                Position { columns, max_sweeps, sweep: 0, left: 0, right: 1, rotated: false },
            )
        }
    }

    /// What follows this position once its pair has been treated, `rotated`
    /// saying whether the pair was rotated.
    pub open spec fn next(self, rotated: bool) -> Outcome {
        let any = self.rotated || rotated;
        if self.right + 1 < self.columns {
            Outcome::Treat(Position { right: self.right + 1, rotated: any, ..self })
        } else if !self.ends_sweep() {
            Outcome::Treat(
                Position { left: self.left + 1, right: self.left + 2, rotated: any, ..self },
            )
        } else if !any {
            Outcome::Settled
        } else if self.sweep + 1 >= self.max_sweeps {
            Outcome::OutOfSweeps
        } else {
            Outcome::Treat(
                Position { sweep: self.sweep + 1, left: 0, right: 1, rotated: false, ..self },
            )
        }
    }

    /// Whether `self` comes before `other` in a run: in an earlier sweep, or
    /// in the same sweep at an earlier pair.
    pub open spec fn before(self, other: Position) -> bool {
        self.sweep < other.sweep || (self.sweep == other.sweep && (self.left < other.left || (
        self.left == other.left && self.right < other.right)))
    }
}

/// The position that follows a valid one is valid, belongs to the same run,
/// and comes later in it.
pub proof fn lemma_next_advances(at: Position, rotated: bool)
    requires
        at.valid(),
    ensures
        at.next(rotated) matches Outcome::Treat(then) ==> then.valid() && then.columns
            == at.columns && then.max_sweeps == at.max_sweeps && at.before(then),
{
}

/// A run ends as settled exactly at the last pair of a sweep in which no
/// pair was rotated, and fails exactly at the last pair of the last sweep
/// allowed when some pair of that sweep was rotated.
pub proof fn lemma_run_ends(at: Position, rotated: bool)
    requires
        at.valid(),
    ensures
        at.next(rotated) is Settled <==> at.right + 1 == at.columns && at.left + 2 == at.columns
            && !at.rotated && !rotated,
        at.next(rotated) is OutOfSweeps <==> at.right + 1 == at.columns && at.left + 2
            == at.columns && (at.rotated || rotated) && at.sweep + 1 == at.max_sweeps,
{
}

/// Within a sweep the pairs follow each other without a gap: after
/// `(left, right)` comes `(left, right + 1)`, or `(left + 1, left + 2)` where
/// `right` was the last column.
pub proof fn lemma_pairs_in_order(at: Position, rotated: bool)
    requires
        at.valid(),
        !(at.right + 1 == at.columns && at.left + 2 == at.columns),
    ensures
        at.next(rotated) matches Outcome::Treat(then) && then.sweep == at.sweep && then.rotated
            == (at.rotated || rotated) && (if at.right + 1 < at.columns {
            then.left == at.left && then.right == at.right + 1
        } else {
            then.left == at.left + 1 && then.right == at.left + 2
        }),
{
}

/// The place of a run of sweeps: which pair of columns is to be treated next.
#[derive(Clone, Copy, Debug, PartialEq, Eq)]
pub struct Sweeps {
    columns: usize,
    max_sweeps: usize,
    sweep: usize,
    left: usize,
    right: usize,
    rotated: bool,
}

impl View for Sweeps {
    type V = Position;

    closed spec fn view(&self) -> Position {
        Position {
            columns: self.columns as nat,
            max_sweeps: self.max_sweeps as nat,
            sweep: self.sweep as nat,
            left: self.left as nat,
            right: self.right as nat,
            rotated: self.rotated,
        }
    }
}

/// The outcome that a step reports: `Ok(Some(..))` for another pair,
/// `Ok(None)` for a settled run, and the error for a run out of sweeps.
pub open spec fn reported(r: Result<Option<Sweeps>, MatrixError>) -> Outcome {
    match r {
        Ok(Some(s)) => Outcome::Treat(s@),
        Ok(None) => Outcome::Settled,
        Err(_) => Outcome::OutOfSweeps,
    }
}

impl Sweeps {
    #[verifier::type_invariant]
    closed spec fn inv(&self) -> bool {
        self.left < self.right && self.right < self.columns && self.sweep < self.max_sweeps
    }

    /// Starts a run over `columns` columns that may take `max_sweeps` sweeps.
    /// With fewer than two columns there is no pair and the run is settled at
    /// once; otherwise, with no sweep allowed, it fails at once.
    pub fn begin(columns: usize, max_sweeps: usize) -> (r: Result<Option<Sweeps>, MatrixError>)
        ensures
            reported(r) == Position::first(columns as nat, max_sweeps as nat),
            r matches Ok(Some(s)) ==> s@.valid(),
            r matches Err(e) ==> e == MatrixError::ConvergenceFailure,
    {
        if columns < 2 {
            Ok(None)
        } else if max_sweeps == 0 {
            Err(MatrixError::ConvergenceFailure)
        } else {
            Ok(Some(Sweeps { columns, max_sweeps, sweep: 0, left: 0, right: 1, rotated: false }))
        }
    }

    /// Moves on after the pair of this position has been treated; `rotated`
    /// says whether it was rotated.
    pub fn advance(&self, rotated: bool) -> (r: Result<Option<Sweeps>, MatrixError>)
        ensures
            self@.valid(),
            reported(r) == self@.next(rotated),
            r matches Ok(Some(s)) ==> s@.valid(),
            r matches Err(e) ==> e == MatrixError::ConvergenceFailure,
    {
        proof {
            use_type_invariant(self);
        }
        let any: bool = self.rotated || rotated;
        if self.right + 1 < self.columns {
            Ok(Some(Sweeps { right: self.right + 1, rotated: any, ..*self }))
        } else if self.left + 2 < self.columns {
            Ok(Some(Sweeps { left: self.left + 1, right: self.left + 2, rotated: any, ..*self }))
        } else if !any {
            Ok(None)
        } else if self.sweep + 1 >= self.max_sweeps {
            Err(MatrixError::ConvergenceFailure)
        } else {
            Ok(
                Some(
                    Sweeps { sweep: self.sweep + 1, left: 0, right: 1, rotated: false, ..*self },
                ),
            )
        }
    }

    /// The first column of the pair to treat.
    pub fn left(&self) -> (i: usize)
        ensures
            i == self@.left,
            self@.valid(),
    {
        proof {
            use_type_invariant(self);
        }
        self.left
    }

    /// The second column of the pair to treat.
    pub fn right(&self) -> (i: usize)
        ensures
            i == self@.right,
            self@.valid(),
    {
        proof {
            use_type_invariant(self);
        }
        self.right
    }

    /// The number of sweeps completed before the one under way.
    pub fn sweep(&self) -> (n: usize)
        ensures
            n == self@.sweep,
            self@.valid(),
    {
        proof {
            use_type_invariant(self);
        }
        self.sweep
    }
}

/// A run that started at `first` with the state `start` can stand at `at`
/// with the state `state` after `steps` pairs have been treated: each pair
/// was handed to `treat` with the state that the pair before it left, and
/// the run moved on by what `treat` said of the pair.
pub open spec fn arrives<S, F: Fn(S, usize, usize) -> (S, bool)>(
    treat: F,
    start: S,
    first: Position,
    steps: nat,
    state: S,
    at: Position,
) -> bool
    decreases steps,
{
    if steps == 0 {
        state == start && at == first
    } else {
        exists|prior: S, from: Position, rotated: bool|
            arrives(treat, start, first, (steps - 1) as nat, prior, from)
                && #[trigger] treat.ensures(
                (prior, from.left as usize, from.right as usize),
                (state, rotated),
            ) && from.next(rotated) == Outcome::Treat(at)
    }
}

/// A run that started at `first` with the state `start` can stand at `at`
/// with the state `state` after some number of pairs.
pub open spec fn reaches<S, F: Fn(S, usize, usize) -> (S, bool)>(
    treat: F,
    start: S,
    first: Position,
    state: S,
    at: Position,
) -> bool {
    exists|steps: nat| arrives(treat, start, first, steps, state, at)
}

/// One more pair treated takes a run one step further.
pub proof fn lemma_arrives_next<S, F: Fn(S, usize, usize) -> (S, bool)>(
    treat: F,
    start: S,
    first: Position,
    steps: nat,
    prior: S,
    from: Position,
    rotated: bool,
    state: S,
    at: Position,
)
    requires
        arrives(treat, start, first, steps, prior, from),
        treat.ensures((prior, from.left as usize, from.right as usize), (state, rotated)),
        from.next(rotated) == Outcome::Treat(at),
    ensures
        arrives(treat, start, first, steps + 1, state, at),
{
    assert(((steps + 1) - 1) as nat == steps);
}

/// `r` is a result that a run from `first` with the state `start` can have:
/// the state after the last pair of a sweep that rotated nothing, or the
/// failure after the last sweep allowed. A run without pairs leaves the state
/// as it is.
pub open spec fn run_gives<S, F: Fn(S, usize, usize) -> (S, bool)>(
    treat: F,
    start: S,
    first: Outcome,
    r: Result<S, MatrixError>,
) -> bool {
    match first {
        Outcome::Settled => r == Ok::<S, MatrixError>(start),
        Outcome::OutOfSweeps => r == Err::<S, MatrixError>(MatrixError::ConvergenceFailure),
        Outcome::Treat(begin) => exists|prior: S, from: Position, last: S, rotated: bool|
            reaches(treat, start, begin, prior, from) && #[trigger] treat.ensures(
                (prior, from.left as usize, from.right as usize),
                (last, rotated),
            ) && (match from.next(rotated) {
                Outcome::Settled => r == Ok::<S, MatrixError>(last),
                Outcome::OutOfSweeps => r == Err::<S, MatrixError>(
                    MatrixError::ConvergenceFailure,
                ),
                Outcome::Treat(_) => false,
            }),
    }
}

/// Runs sweeps over the pairs of `columns` columns until one of them rotates
/// nothing, and gives the state that the last pair left. `treat` is handed
/// the state and a pair, and gives back the new state and whether it rotated
/// the pair. After `max_sweeps` sweeps that each rotated something the run
/// fails, and no state is given.
pub fn run<S, F: Fn(S, usize, usize) -> (S, bool)>(
    columns: usize,
    max_sweeps: usize,
    start: S,
    treat: &F,
) -> (r: Result<S, MatrixError>)
    requires
        forall|s: S, p: usize, q: usize| p < q < columns ==> treat.requires((s, p, q)),
    ensures
        run_gives(*treat, start, Position::first(columns as nat, max_sweeps as nat), r),
{
    let mut at: Sweeps = match Sweeps::begin(columns, max_sweeps) {
        Ok(Some(first)) => first,
        Ok(None) => {
            return Ok(start);
        },
        Err(e) => {
            return Err(e);
        },
    };
    let ghost begin = at@;
    let ghost mut steps: nat = 0;
    let mut state: S = start;
    loop
        invariant
            forall|s: S, p: usize, q: usize| p < q < columns ==> treat.requires((s, p, q)),
            Position::first(columns as nat, max_sweeps as nat) == Outcome::Treat(begin),
            at@.valid(),
            at@.columns == columns,
            at@.max_sweeps == max_sweeps,
            arrives(*treat, start, begin, steps, state, at@),
        decreases at@.max_sweeps - at@.sweep, at@.columns - at@.left, at@.columns - at@.right,
    {
        let ghost prior = state;
        let left: usize = at.left();
        let right: usize = at.right();
        let (last, rotated) = treat(state, left, right);
        proof {
            assert(treat.ensures((prior, at@.left as usize, at@.right as usize), (last, rotated)));
            lemma_next_advances(at@, rotated);
        }
        match at.advance(rotated) {
            Ok(Some(then)) => {
                proof {
                    assert(at@.next(rotated) == Outcome::Treat(then@));
                    lemma_arrives_next(
                        *treat,
                        start,
                        begin,
                        steps,
                        prior,
                        at@,
                        rotated,
                        last,
                        then@,
                    );
                    steps = steps + 1;
                }
                state = last;
                at = then;
            },
            Ok(None) => {
                proof {
                    assert(at@.next(rotated) == Outcome::Settled);
                    assert(reaches(*treat, start, begin, prior, at@));
                }
                return Ok(last);
            },
            Err(e) => {
                proof {
                    assert(at@.next(rotated) == Outcome::OutOfSweeps);
                    assert(reaches(*treat, start, begin, prior, at@));
                }
                return Err(e);
            },
        }
    }
}

} // verus!
