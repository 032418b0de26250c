//! The joint game state: an ordered collection of boards sharing one turn
//! counter, one aggregate coin count, and the log of actions taken, together
//! with the legality and transition rules of the joint game.
use vstd::prelude::*;

verus! {

use crate::H;
use crate::T;
use crate::W;
use crate::board::Board;
use crate::board::BoardV;
use crate::board::CellKind;
use crate::board::Direction;
use crate::board::ParseError;
use crate::board::board_after;
use crate::board::board_dir_ok;
use crate::board::board_gain;
use crate::board::board_matches_rows;
use crate::board::board_wf;
use crate::board::dx_step;
use crate::board::dy_step;
use crate::board::lemma_board_after_wf;
use crate::board::map_text_ok;
use crate::board::text_err;

/// The mathematical value of a `State`.
#[verifier::ext_equal]
pub ghost struct StateV {
    pub boards: Seq<BoardV>,
    pub turn: int,
    pub coin: int,
    pub score: int,
    pub actions: Seq<Direction>,
}

/// The joint state over all selected boards.  Every board is moved by the same
/// command each turn; `coin` aggregates the coins collected on all boards
/// along `actions`, and `evaluated_score` is the priority the search orders
/// states by (refreshed from `coin` by `evaluate_score`).
#[derive(Debug)]
pub struct State {
    pub boards: Vec<Board>,
    pub turn: usize,
    pub coin: usize,
    pub evaluated_score: usize,
    pub actions: Vec<Direction>,
}

impl View for State {
    type V = StateV;

    open spec fn view(&self) -> StateV {
        StateV {
            boards: self.boards@.map_values(|b: Board| b@),
            turn: self.turn as int,
            coin: self.coin as int,
            score: self.evaluated_score as int,
            actions: self.actions@,
        }
    }
}

/// Joint-state invariant: the turn counter equals the length of the action
/// log and stays within the horizon, every board is well formed, and the coin
/// count is bounded by one coin per board per turn (which also keeps the
/// arithmetic of `advance` within machine bounds).
pub open spec fn state_wf(s: StateV) -> bool {
    &&& s.turn == s.actions.len()
    &&& s.turn <= T
    &&& forall|i: int| 0 <= i < s.boards.len() ==> board_wf(#[trigger] s.boards[i])
    &&& 0 <= s.coin
    &&& s.coin <= s.turn * s.boards.len()
    &&& s.boards.len() * (T as int) <= usize::MAX as int
}

/// A direction is legal for the joint state iff it is acceptable on every
/// board: the target cell is in bounds and not a hazard.  A wall target does
/// not disqualify the direction - that board simply stays in place.
pub open spec fn dir_legal(s: StateV, d: Direction) -> bool {
    forall|i: int| 0 <= i < s.boards.len() ==> board_dir_ok(#[trigger] s.boards[i], d)
}

/// The singleton sequence of `d` if it is legal for `s`, else the empty one.
pub open spec fn opt_dir(s: StateV, d: Direction) -> Seq<Direction> {
    if dir_legal(s, d) {
        seq![d]
    } else {
        Seq::<Direction>::empty()
    }
}

/// All legal directions of `s`, in the fixed order up, down, right, left.
pub open spec fn legal_dirs_seq(s: StateV) -> Seq<Direction> {
    opt_dir(s, Direction::Up) + opt_dir(s, Direction::Down) + opt_dir(s, Direction::Right)
        + opt_dir(s, Direction::Left)
}

/// Total coins one joint step of `d` collects over a sequence of boards.
pub open spec fn gains(boards: Seq<BoardV>, d: Direction) -> int
    decreases boards.len(),
{
    if boards.len() == 0 {
        0
    } else {
        gains(boards.drop_last(), d) + board_gain(boards.last(), d)
    }
}

/// The joint state after one legal step of `d`: every board steps, the turn
/// counter grows by one, the collected coins join the aggregate count, the
/// score is refreshed from it, and the action joins the log.
pub open spec fn apply_spec(s: StateV, d: Direction) -> StateV {
    StateV {
        boards: s.boards.map_values(|b: BoardV| board_after(b, d)),
        turn: s.turn + 1,
        coin: s.coin + gains(s.boards, d),
        score: s.coin + gains(s.boards, d),
        actions: s.actions.push(d),
    }
}

/// A joint step collects between zero and one coin per board.
pub proof fn lemma_gains_bounds(boards: Seq<BoardV>, d: Direction)
    ensures
        0 <= gains(boards, d) <= boards.len(),
    decreases boards.len(),
{
    if boards.len() > 0 {
        lemma_gains_bounds(boards.drop_last(), d);
    }
}

pub proof fn lemma_gains_take_succ(boards: Seq<BoardV>, d: Direction, i: int)
    requires
        0 <= i < boards.len(),
    ensures
        gains(boards.take(i + 1), d) == gains(boards.take(i), d) + board_gain(boards[i], d),
{
    assert(boards.take(i + 1).drop_last() =~= boards.take(i));
    assert(boards.take(i + 1).last() == boards[i]);
}

/// A legal step preserves the joint-state invariant.
pub proof fn lemma_apply_wf(s: StateV, d: Direction)
    requires
        state_wf(s),
        dir_legal(s, d),
        s.turn < T,
    ensures
        state_wf(apply_spec(s, d)),
        apply_spec(s, d).coin >= s.coin,
{
    let s2 = apply_spec(s, d);
    assert forall|i: int| 0 <= i < s2.boards.len() implies board_wf(#[trigger] s2.boards[i]) by {
        lemma_board_after_wf(s.boards[i], d);
    }
    lemma_gains_bounds(s.boards, d);
    let n = s.boards.len() as int;
    assert(s2.coin <= s.turn * n + n);
    assert(s.turn * n + n == (s.turn + 1) * n) by (nonlinear_arith);
}

/// Legality invariant: applying a direction that is legal for the joint state
/// never lands any board's player on a hazard cell (a board whose target is a
/// wall stays on its old, hazard-free cell; every other board moves to a cell
/// that legality guarantees is not a hazard).
pub proof fn lemma_legal_never_on_hazard(s: StateV, d: Direction)
    requires
        state_wf(s),
        dir_legal(s, d),
        s.turn < T,
    ensures
        state_wf(apply_spec(s, d)),
        forall|i: int|
            0 <= i < s.boards.len() ==> board_after(#[trigger] s.boards[i], d).grid[board_after(
                s.boards[i],
                d,
            ).y][board_after(s.boards[i], d).x] != CellKind::Hazard,
{
    lemma_apply_wf(s, d);
    assert forall|i: int|
        0 <= i < s.boards.len() implies board_after(#[trigger] s.boards[i], d).grid[board_after(
        s.boards[i],
        d,
    ).y][board_after(s.boards[i], d).x] != CellKind::Hazard by {
        lemma_board_after_wf(s.boards[i], d);
    }
}

impl State {
    /// Builds the root joint state from the selected map texts, one board per
    /// map in the given order, with the turn counter, the coin count, the
    /// score and the action log all at zero.  Fails with the first map's
    /// parse error if any map text is malformed.
    pub fn new(m: Vec<Vec<String>>) -> (r: Result<Self, ParseError>)
        requires
            m@.len() * (T as int) <= usize::MAX as int,
        ensures
            r is Ok <==> (forall|i: int|
                0 <= i < m@.len() ==> map_text_ok(#[trigger] m.deep_view()[i])),
            r matches Ok(s) ==> {
                &&& state_wf(s@)
                &&& s@.turn == 0
                &&& s@.coin == 0
                &&& s@.score == 0
                &&& s@.actions == Seq::<Direction>::empty()
                &&& s@.boards.len() == m@.len()
                &&& forall|i: int|
                    0 <= i < m@.len() ==> board_matches_rows(
                        #[trigger] s@.boards[i],
                        m.deep_view()[i],
                        i,
                    )
            },
            r matches Err(e) ==> exists|i: int|
                0 <= i < m@.len() && !map_text_ok(#[trigger] m.deep_view()[i]) && e == text_err(
                    m.deep_view()[i],
                ) && (forall|j: int| 0 <= j < i ==> map_text_ok(m.deep_view()[j])),
    {
        let ghost mv = m.deep_view();
        let mut boards: Vec<Board> = Vec::new();
        let mut i: usize = 0;
        let n = m.len();
        while i < n
            invariant
                n == m@.len(),
                mv == m.deep_view(),
                i <= n,
                boards@.len() == i,
                forall|j: int|
                    0 <= j < i ==> board_matches_rows((#[trigger] boards@[j])@, mv[j], j),
                forall|j: int| 0 <= j < i ==> board_wf((#[trigger] boards@[j])@),
                forall|j: int| 0 <= j < i ==> map_text_ok(#[trigger] mv[j]),
            decreases n - i,
        {
            let rows: &Vec<String> = &m[i];
            proof {
                assert(rows.deep_view() =~= mv[i as int]);
            }
            match Board::from_map(i, rows) {
                Ok(b) => {
                    boards.push(b);
                },
                Err(e) => {
                    proof {
                        assert(!map_text_ok(mv[i as int]));
                        assert(e == text_err(mv[i as int]));
                    }
                    return Err(e);
                },
            }
            i += 1;
        }
        let s = State { boards, turn: 0, coin: 0, evaluated_score: 0, actions: Vec::new() };
        proof {
            assert(s@.boards.len() == m@.len());
            assert(forall|j: int| 0 <= j < n ==> s@.boards[j] == boards@[j]@);
        }
        Ok(s)
    }

    /// True iff the joint game has reached the move horizon.
    pub fn is_done(&self) -> (r: bool)
        ensures
            r == (self@.turn == T),
    {
        self.turn == T
    }

    /// Refreshes the search priority of this state: the score is the number
    /// of coins collected so far, not an estimate of future value.
    pub fn evaluate_score(&mut self)
        ensures
            final(self)@ == (StateV { score: old(self)@.coin, ..old(self)@ }),
    {
        self.evaluated_score = self.coin;
        proof {
            assert(self@ =~= (StateV { score: old(self)@.coin, ..old(self)@ }));
        }
    }

    /// True iff `d` is legal for the joint state: acceptable on every board.
    pub fn dir_ok(&self, d: Direction) -> (r: bool)
        requires
            state_wf(self@),
        ensures
            r == dir_legal(self@, d),
    {
        let n = self.boards.len();
        let mut i: usize = 0;
        while i < n
            invariant
                state_wf(self@),
                n == self@.boards.len(),
                i <= n,
                forall|j: int| 0 <= j < i ==> board_dir_ok(#[trigger] self@.boards[j], d),
            decreases n - i,
        {
            let b = &self.boards[i];
            proof {
                assert(b@ == self@.boards[i as int]);
                assert(board_wf(b@));
            }
            let ty = b.character.y + dy_step(d);
            let tx = b.character.x + dx_step(d);
            let ok = if ty >= 0 && ty < H as isize && tx >= 0 && tx < W as isize {
                proof {
                    assert(b.cell@[ty as int]@ == b@.grid[ty as int]);
                    assert(b@.grid[ty as int].len() == W);
                }
                b.cell[ty as usize][tx as usize] != CellKind::Hazard
            } else {
                false
            };
            if !ok {
                assert(!board_dir_ok(self@.boards[i as int], d));
                return false;
            }
            i += 1;
        }
        true
    }

    /// All legal directions of the joint state, in the fixed order up, down,
    /// right, left, without duplicates.
    pub fn legal_actions(&self) -> (r: Vec<Direction>)
        requires
            state_wf(self@),
        ensures
            r@ == legal_dirs_seq(self@),
            forall|d: Direction| r@.contains(d) <==> dir_legal(self@, d),
            r@.no_duplicates(),
            r@.len() <= 4,
    {
        let l_u = self.dir_ok(Direction::Up);
        let l_d = self.dir_ok(Direction::Down);
        let l_r = self.dir_ok(Direction::Right);
        let l_l = self.dir_ok(Direction::Left);
        let mut acts: Vec<Direction> = Vec::new();
        if l_u {
            acts.push(Direction::Up);
        }
        let ghost a1 = acts@;
        if l_d {
            acts.push(Direction::Down);
        }
        let ghost a2 = acts@;
        if l_r {
            acts.push(Direction::Right);
        }
        let ghost a3 = acts@;
        if l_l {
            acts.push(Direction::Left);
        }
        proof {
            if l_u {
                assert(acts@[0] == Direction::Up);
                assert(acts@.contains(Direction::Up));
            }
            if l_d {
                assert(acts@[a1.len() as int] == Direction::Down);
                assert(acts@.contains(Direction::Down));
            }
            if l_r {
                assert(acts@[a2.len() as int] == Direction::Right);
                assert(acts@.contains(Direction::Right));
            }
            if l_l {
                assert(acts@[a3.len() as int] == Direction::Left);
                assert(acts@.contains(Direction::Left));
            }
            assert forall|d: Direction| dir_legal(self@, d) implies acts@.contains(d) by {
                match d {
                    Direction::Up => {},
                    Direction::Down => {},
                    Direction::Right => {},
                    Direction::Left => {},
                }
            }
            assert(acts@ =~= legal_dirs_seq(self@));
        }
        acts
    }

    /// Advances the joint game one turn by a legal direction: every board
    /// steps (a wall target leaves that board in place), the coins collected
    /// on all boards join the aggregate count, the turn counter grows by one
    /// and the action joins the log.  The score field is left untouched.
    pub fn advance(&mut self, action: Direction)
        requires
            state_wf(old(self)@),
            dir_legal(old(self)@, action),
            old(self)@.turn < T,
        ensures
            final(self)@ == (StateV { score: old(self)@.score, ..apply_spec(old(self)@, action) }),
            state_wf(final(self)@),
            final(self)@.coin >= old(self)@.coin,
            final(self)@.turn == final(self)@.actions.len(),
    {
        let ghost sv = self@;
        let n = self.boards.len();
        let mut i: usize = 0;
        while i < n
            invariant
                state_wf(sv),
                dir_legal(sv, action),
                sv.turn < T,
                n == sv.boards.len(),
                i <= n,
                self.boards@.len() == n,
                self.turn == sv.turn,
                self.actions@ == sv.actions,
                self.evaluated_score == sv.score,
                forall|j: int|
                    0 <= j < i ==> (#[trigger] self.boards@[j])@ == board_after(
                        sv.boards[j],
                        action,
                    ),
                forall|j: int| i <= j < n ==> (#[trigger] self.boards@[j])@ == sv.boards[j],
                self.coin as int == sv.coin + gains(sv.boards.take(i as int), action),
                0 <= gains(sv.boards.take(i as int), action) <= i,
            decreases n - i,
        {
            proof {
                assert(self.boards@[i as int]@ == sv.boards[i as int]);
                assert(board_wf(sv.boards[i as int]));
                assert(board_dir_ok(sv.boards[i as int], action));
                assert(sv.coin <= sv.turn * (n as int));
                assert(sv.turn * (n as int) + (n as int) <= (T as int) * (n as int))
                    by (nonlinear_arith)
                    requires
                        sv.turn < T,
                        n > 0,
                        sv.turn >= 0,
                ;
            }
            let collected = self.boards[i].step(action);
            if collected {
                self.coin += 1;
            }
            proof {
                lemma_gains_take_succ(sv.boards, action, i as int);
            }
            i += 1;
        }
        proof {
            assert(sv.boards.take(n as int) =~= sv.boards);
        }
        self.turn += 1;
        self.actions.push(action);
        proof {
            lemma_apply_wf(sv, action);
            assert(self@.boards =~= apply_spec(sv, action).boards);
            assert(self@ =~= (StateV { score: sv.score, ..apply_spec(sv, action) }));
            assert(state_wf(self@));
        }
    }
}

impl Clone for State {
    /// A deep copy: the clone has the same mathematical value.
    fn clone(&self) -> (r: Self)
        ensures
            r@ == self@,
    {
        let mut boards: Vec<Board> = Vec::new();
        let mut i: usize = 0;
        while i < self.boards.len()
            invariant
                i <= self.boards@.len(),
                boards@.len() == i,
                forall|j: int| 0 <= j < i ==> (#[trigger] boards@[j])@ == self.boards@[j]@,
            decreases self.boards@.len() - i,
        {
            boards.push(self.boards[i].clone());
            i += 1;
        }
        let mut actions: Vec<Direction> = Vec::new();
        let mut i: usize = 0;
        while i < self.actions.len()
            invariant
                i <= self.actions@.len(),
                actions@.len() == i,
                forall|j: int| 0 <= j < i ==> actions@[j] == self.actions@[j],
            decreases self.actions@.len() - i,
        {
            actions.push(self.actions[i]);
            i += 1;
        }
        let r = State {
            boards,
            turn: self.turn,
            coin: self.coin,
            evaluated_score: self.evaluated_score,
            actions,
        };
        proof {
            assert(r@.boards =~= self@.boards);
            assert(r@.actions =~= self@.actions);
            assert(r@ =~= self@);
        }
        r
    }
}

} // verus!
