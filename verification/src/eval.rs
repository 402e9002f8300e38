//! The game-tree evaluator: exhaustive search over all continuations of a
//! board, scoring terminal boards by a fixed table and combining branches by
//! a maximum on the subject player's turns and a uniform average on the other
//! player's turns.

use vstd::prelude::*;

use crate::board::{
    cell_index, empties, empties_from, has_line, lemma_empties_from_bounds,
    lemma_empties_from_swapped, lemma_empties_place, lemma_winner_swapped, result_of, swapped,
    winner_spec, Game, GameResult, Player,
};

verus! {

/// The objective an automated player pursues for the whole game.
#[derive(Clone, Copy, PartialEq, Eq, Structural, Debug)]
pub enum AiMode {
    Win,
    Lose,
    Tie,
    NoTie,
}

/// The common denominator of every probability the search can produce:
/// 2 * 9!. Terminal values are multiples of one half, and each averaging
/// level divides by the number of empty cells, at most 9 of them, each level
/// one fewer.
pub const SCALE: u32 = 725760;

/// Half of `SCALE`: the numerator of the probability one half.
pub const HALF_SCALE: u32 = 362880;

/// The probability, in units of `1/SCALE`, that a finished game with result
/// `w` satisfies objective `m` for subject player `p`: a reached objective
/// scores 1, a missed one 0, and a tie counts one half for the win and lose
/// objectives.
pub open spec fn terminal_value(w: GameResult, p: Player, m: AiMode) -> int {
    if w == result_of(p) {
        if m == AiMode::Win || m == AiMode::NoTie {
            SCALE as int
        } else {
            0
        }
    } else if w == GameResult::Tie {
        if m == AiMode::Tie {
            SCALE as int
        } else if m == AiMode::NoTie {
            0
        } else {
            HALF_SCALE as int
        }
    } else {
        if m == AiMode::Lose || m == AiMode::NoTie {
            SCALE as int
        } else {
            0
        }
    }
}

/// The cells after `t` marks the cell at flat index `k`.
pub open spec fn placed(s: Seq<Option<Player>>, t: Player, k: int) -> Seq<Option<Player>> {
    s.update(k, Some(t))
}

/// The probability, in units of `1/SCALE`, that objective `m` is reached for
/// subject player `p` from the board `s` with `t` to move: the table value on
/// a decided board, the best reachable value on the subject's turn, and the
/// uniform average over all legal replies on the other player's turn.
pub open spec fn eval(s: Seq<Option<Player>>, t: Player, p: Player, m: AiMode) -> int
    decreases empties(s), 2int, 0int,
    via eval_decreases
{
    if s.len() != 9 {
        0
    } else {
        match winner_spec(s) {
            Some(w) => terminal_value(w, p, m),
            None => {
                if t == p {
                    best_from(s, t, p, m, 0)
                } else {
                    sum_from(s, t, p, m, 0) / empties(s)
                }
            },
        }
    }
}

/// The largest `eval` value reachable by `t` marking one empty cell at flat
/// index `k` or later; 0 when no such cell remains.
pub open spec fn best_from(s: Seq<Option<Player>>, t: Player, p: Player, m: AiMode, k: int) -> int
    decreases empties(s), 1int, 9 - k,
    via best_from_decreases
{
    if s.len() != 9 || !(0 <= k < 9) {
        0
    } else {
        let rest = best_from(s, t, p, m, k + 1);
        if s[k] is None {
            let v = eval(placed(s, t, k), t.spec_opposite(), p, m);
            if v >= rest {
                v
            } else {
                rest
            }
        } else {
            rest
        }
    }
}

/// The sum of the `eval` values reachable by `t` marking one empty cell at
/// flat index `k` or later.
pub open spec fn sum_from(s: Seq<Option<Player>>, t: Player, p: Player, m: AiMode, k: int) -> int
    decreases empties(s), 1int, 9 - k,
    via sum_from_decreases
{
    if s.len() != 9 || !(0 <= k < 9) {
        0
    } else {
        let rest = sum_from(s, t, p, m, k + 1);
        if s[k] is None {
            eval(placed(s, t, k), t.spec_opposite(), p, m) + rest
        } else {
            rest
        }
    }
}

#[via_fn]
proof fn eval_decreases(s: Seq<Option<Player>>, t: Player, p: Player, m: AiMode) {
    if s.len() == 9 {
        lemma_empties_from_bounds(s, 0);
    }
}

#[via_fn]
proof fn best_from_decreases(s: Seq<Option<Player>>, t: Player, p: Player, m: AiMode, k: int) {
    if s.len() == 9 && 0 <= k < 9 {
        lemma_empties_from_bounds(s, 0);
        if s[k] is None {
            lemma_empties_place(s, k, t);
        }
    }
}

#[via_fn]
proof fn sum_from_decreases(s: Seq<Option<Player>>, t: Player, p: Player, m: AiMode, k: int) {
    if s.len() == 9 && 0 <= k < 9 {
        lemma_empties_from_bounds(s, 0);
        if s[k] is None {
            lemma_empties_place(s, k, t);
        }
    }
}

/// Every value of `eval` is a probability: it lies between 0 and `SCALE`.
pub proof fn lemma_eval_bounds(s: Seq<Option<Player>>, t: Player, p: Player, m: AiMode)
    ensures
        0 <= eval(s, t, p, m) <= SCALE,
    decreases empties(s), 2int, 0int,
{
    if s.len() == 9 && winner_spec(s) is None {
        if t == p {
            lemma_best_from_bounds(s, t, p, m, 0);
        } else {
            lemma_sum_from_bounds(s, t, p, m, 0);
            let e = empties(s);
            let total = sum_from(s, t, p, m, 0);
            lemma_empties_from_bounds(s, 0);
            assert(e > 0);
            vstd::arithmetic::div_mod::lemma_div_pos_is_pos(total, e);
            vstd::arithmetic::div_mod::lemma_multiply_divide_le(total, e, SCALE as int);
        }
    }
}

proof fn lemma_best_from_bounds(s: Seq<Option<Player>>, t: Player, p: Player, m: AiMode, k: int)
    ensures
        0 <= best_from(s, t, p, m, k) <= SCALE,
    decreases empties(s), 1int, 9 - k,
{
    if s.len() == 9 && 0 <= k < 9 {
        lemma_best_from_bounds(s, t, p, m, k + 1);
        if s[k] is None {
            lemma_empties_place(s, k, t);
            lemma_eval_bounds(placed(s, t, k), t.spec_opposite(), p, m);
        }
    }
}

/// The sum over a suffix of cells is bounded by `SCALE` per empty cell.
proof fn lemma_sum_from_bounds(s: Seq<Option<Player>>, t: Player, p: Player, m: AiMode, k: int)
    ensures
        0 <= sum_from(s, t, p, m, k),
        sum_from(s, t, p, m, k) <= SCALE * empties_from(s, k),
        s.len() == 9 && 0 <= k <= 9 ==> sum_from(s, t, p, m, k) <= SCALE * (9 - k),
    decreases empties(s), 1int, 9 - k,
{
    lemma_empties_from_bounds(s, if 0 <= k <= 9 { k } else { 0 });
    if s.len() == 9 && 0 <= k < 9 {
        lemma_sum_from_bounds(s, t, p, m, k + 1);
        lemma_empties_from_bounds(s, k + 1);
        if s[k] is None {
            lemma_empties_place(s, k, t);
            lemma_eval_bounds(placed(s, t, k), t.spec_opposite(), p, m);
        }
    }
}

/// Marking a cell and then exchanging the players' marks everywhere is the
/// same as exchanging first and letting the other player mark the cell.
proof fn lemma_placed_swapped(s: Seq<Option<Player>>, t: Player, k: int)
    requires
        s.len() == 9,
        0 <= k < 9,
    ensures
        placed(swapped(s), t.spec_opposite(), k) == swapped(placed(s, t, k)),
{
    assert(placed(swapped(s), t.spec_opposite(), k) =~= swapped(placed(s, t, k)));
}

/// A player who did not own a line cannot come to own one through the other
/// player's mark.
proof fn lemma_placed_keeps_no_line(s: Seq<Option<Player>>, t: Player, k: int, q: Player)
    requires
        s.len() == 9,
        0 <= k < 9,
        q != t,
        !has_line(s, q),
    ensures
        !has_line(placed(s, t, k), q),
{
}

/// Relabeling the two players everywhere leaves `eval` unchanged: the board
/// with the marks exchanged, the other player to move, and the other player
/// as subject give the same probability, for every objective. In particular,
/// evaluating a board for the first player under an objective equals
/// evaluating the player-swapped board for the second player under the same
/// objective. Boards on which both players own a line at once do not arise
/// in play and are left out.
pub proof fn lemma_eval_swapped(s: Seq<Option<Player>>, t: Player, p: Player, m: AiMode)
    requires
        s.len() == 9,
        !(has_line(s, Player::X) && has_line(s, Player::O)),
    ensures
        eval(swapped(s), t.spec_opposite(), p.spec_opposite(), m) == eval(s, t, p, m),
    decreases empties(s), 2int, 0int,
{
    lemma_winner_swapped(s);
    lemma_empties_from_swapped(s, 0);
    if winner_spec(s) is None {
        if t == p {
            lemma_best_from_swapped(s, t, p, m, 0);
        } else {
            lemma_sum_from_swapped(s, t, p, m, 0);
        }
    }
}

proof fn lemma_best_from_swapped(s: Seq<Option<Player>>, t: Player, p: Player, m: AiMode, k: int)
    requires
        s.len() == 9,
        !has_line(s, Player::X),
        !has_line(s, Player::O),
    ensures
        best_from(swapped(s), t.spec_opposite(), p.spec_opposite(), m, k) == best_from(
            s,
            t,
            p,
            m,
            k,
        ),
    decreases empties(s), 1int, 9 - k,
{
    if 0 <= k < 9 {
        lemma_best_from_swapped(s, t, p, m, k + 1);
        if s[k] is None {
            assert(swapped(s)[k] is None);
            lemma_empties_place(s, k, t);
            lemma_placed_swapped(s, t, k);
            lemma_placed_keeps_no_line(s, t, k, t.spec_opposite());
            lemma_eval_swapped(placed(s, t, k), t.spec_opposite(), p, m);
        }
    }
}

proof fn lemma_sum_from_swapped(s: Seq<Option<Player>>, t: Player, p: Player, m: AiMode, k: int)
    requires
        s.len() == 9,
        !has_line(s, Player::X),
        !has_line(s, Player::O),
    ensures
        sum_from(swapped(s), t.spec_opposite(), p.spec_opposite(), m, k) == sum_from(
            s,
            t,
            p,
            m,
            k,
        ),
    decreases empties(s), 1int, 9 - k,
{
    if 0 <= k < 9 {
        lemma_sum_from_swapped(s, t, p, m, k + 1);
        if s[k] is None {
            assert(swapped(s)[k] is None);
            lemma_empties_place(s, k, t);
            lemma_placed_swapped(s, t, k);
            lemma_placed_keeps_no_line(s, t, k, t.spec_opposite());
            lemma_eval_swapped(placed(s, t, k), t.spec_opposite(), p, m);
        }
    }
}

/// On a decided board `eval` is exactly the terminal table entry, whatever
/// the turn: no search takes place.
pub proof fn lemma_eval_terminal(
    s: Seq<Option<Player>>,
    t: Player,
    p: Player,
    m: AiMode,
    w: GameResult,
)
    requires
        s.len() == 9,
        winner_spec(s) == Some(w),
    ensures
        eval(s, t, p, m) == terminal_value(w, p, m),
{
}

/// The row and column of the cell at flat index `k`.
fn coords_of(k: usize) -> (r: (usize, usize))
    requires
        k < 9,
    ensures
        r.0 < 3,
        r.1 < 3,
        cell_index(r.0 as int, r.1 as int) == k as int,
{
    if k < 3 {
        (0, k)
    } else if k < 6 {
        (1, k - 3)
    } else {
        (2, k - 6)
    }
}

impl Game {
    /// The probability, in units of `1/SCALE`, that objective `m` is reached
    /// for player `p` from this board, when `p` always plays the move that
    /// maximizes this probability and the other player is averaged uniformly
    /// over its legal replies.
    pub fn win_probability(self, p: Player, m: AiMode) -> (r: u32)
        ensures
            r as int == eval(self.cells@, self.turn, p, m),
            r <= SCALE,
        decreases empties(self.cells@), 2int, 0int,
    {
        proof {
            lemma_eval_bounds(self.cells@, self.turn, p, m);
        }
        if let Some(w) = self.winner() {
            if w == GameResult::from(p) {
                if m == AiMode::Win || m == AiMode::NoTie {
                    SCALE
                } else {
                    0
                }
            } else if w == GameResult::Tie {
                if m == AiMode::Tie {
                    SCALE
                } else if m == AiMode::NoTie {
                    0
                } else {
                    HALF_SCALE
                }
            } else {
                if m == AiMode::Lose || m == AiMode::NoTie {
                    SCALE
                } else {
                    0
                }
            }
        } else if self.turn == p {
            proof {
                lemma_empties_from_bounds(self.cells@, 0);
            }
            self.optimal_move(p, m).1
        } else {
            let ghost s = self.cells@;
            let mut k: usize = 9;
            let mut total: u32 = 0;
            let mut cnt: u32 = 0;
            while k > 0
                invariant
                    k <= 9,
                    self.cells@ == s,
                    s.len() == 9,
                    total as int == sum_from(s, self.turn, p, m, k as int),
                    cnt as int == empties_from(s, k as int),
                    total <= SCALE * (9 - k as int),
                    cnt <= 9,
                decreases k,
            {
                k = k - 1;
                if self.cells[k].is_none() {
                    let mut g2 = self;
                    g2.place_at(k);
                    proof {
                        lemma_empties_place(s, k as int, self.turn);
                    }
                    let v = g2.win_probability(p, m);
                    total = total + v;
                    cnt = cnt + 1;
                }
                proof {
                    lemma_empties_from_bounds(s, k as int);
                    lemma_sum_from_bounds(s, self.turn, p, m, k as int);
                }
            }
            proof {
                assert(winner_spec(s) is None);
                assert(empties(s) != 0);
                lemma_empties_from_bounds(s, 0);
            }
            total / cnt
        }
    }

    /// The empty cell whose marking by the current player maximizes
    /// `win_probability` for `p` under `m`, together with that probability.
    /// Among equally good cells the first in row-major order is returned.
    pub fn optimal_move(self, p: Player, m: AiMode) -> (r: ((usize, usize), u32))
        requires
            empties(self.cells@) > 0,
        ensures
            ({
                let ki = cell_index(r.0.0 as int, r.0.1 as int);
                &&& r.0.0 < 3
                &&& r.0.1 < 3
                &&& self.cells@[ki] is None
                &&& r.1 as int == eval(
                    placed(self.cells@, self.turn, ki),
                    self.turn.spec_opposite(),
                    p,
                    m,
                )
                &&& r.1 as int == best_from(self.cells@, self.turn, p, m, 0)
                &&& forall|j: int|
                    0 <= j < ki && self.cells@[j] is None ==> #[trigger] eval(
                        placed(self.cells@, self.turn, j),
                        self.turn.spec_opposite(),
                        p,
                        m,
                    ) < r.1 as int
            }),
        decreases empties(self.cells@), 1int, 0int,
    {
        let ghost s = self.cells@;
        let mut k: usize = 9;
        let mut best_k: usize = 9;
        let mut best_v: u32 = 0;
        while k > 0
            invariant
                k <= 9,
                best_k <= 9,
                self.cells@ == s,
                s.len() == 9,
                best_k == 9 ==> empties_from(s, k as int) == 0 && best_from(
                    s,
                    self.turn,
                    p,
                    m,
                    k as int,
                ) == 0,
                best_k < 9 ==> {
                    &&& k <= best_k
                    &&& s[best_k as int] is None
                    &&& best_v as int == eval(
                        placed(s, self.turn, best_k as int),
                        self.turn.spec_opposite(),
                        p,
                        m,
                    )
                    &&& best_v as int == best_from(s, self.turn, p, m, k as int)
                    &&& forall|j: int|
                        k <= j < best_k && s[j] is None ==> #[trigger] eval(
                            placed(s, self.turn, j),
                            self.turn.spec_opposite(),
                            p,
                            m,
                        ) < best_v as int
                },
            decreases k,
        {
            k = k - 1;
            if self.cells[k].is_none() {
                let mut g2 = self;
                g2.place_at(k);
                proof {
                    lemma_empties_place(s, k as int, self.turn);
                }
                let v = g2.win_probability(p, m);
                if best_k == 9 || v >= best_v {
                    best_k = k;
                    best_v = v;
                }
            }
        }
        proof {
            lemma_empties_from_bounds(s, 0);
            assert(best_k < 9);
        }
        (coords_of(best_k), best_v)
    }
}

} // verus!
