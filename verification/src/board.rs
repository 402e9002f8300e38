//! The board model: cell marks, the 3x3 grid with the player to move, win
//! detection, and placement of marks.

use vstd::prelude::*;

verus! {

/// One of the two players. `X` moves first on a fresh board.
#[derive(Clone, Copy, PartialEq, Eq, Structural, Debug)]
pub enum Player {
    X,
    O,
}

/// How a finished game ended: a win for one player, or a tie.
#[derive(Clone, Copy, PartialEq, Eq, Structural, Debug)]
pub enum GameResult {
    X,
    O,
    Tie,
}

/// The winning result that belongs to a player.
pub open spec fn result_of(p: Player) -> GameResult {
    match p {
        Player::X => GameResult::X,
        Player::O => GameResult::O,
    }
}

impl core::convert::From<Player> for GameResult {
    fn from(p: Player) -> (r: GameResult) {
        match p {
            Player::X => GameResult::X,
            Player::O => GameResult::O,
        }
    }
}

impl vstd::std_specs::convert::FromSpecImpl<Player> for GameResult {
    open spec fn obeys_from_spec() -> bool {
        true
    }

    open spec fn from_spec(p: Player) -> GameResult {
        result_of(p)
    }
}

impl Player {
    /// The other player.
    pub open spec fn spec_opposite(self) -> Player {
        match self {
            Player::X => Player::O,
            Player::O => Player::X,
        }
    }

    /// The other player.
    #[verifier::when_used_as_spec(spec_opposite)]
    pub fn opposite(self) -> (r: Player)
        ensures
            r == self.spec_opposite(),
    {
        match self {
            Player::X => Player::O,
            Player::O => Player::X,
        }
    }

    /// The one-character label of this player.
    pub fn display(self) -> (r: &'static str)
        ensures
            self == Player::X ==> r@ == "X"@,
            self == Player::O ==> r@ == "O"@,
    {
        match self {
            Player::X => "X",
            Player::O => "O",
        }
    }

    /// The label of a cell: the mark's label, or a blank for an empty cell.
    pub fn display2(x: Option<Player>) -> (r: &'static str)
        ensures
            x is None ==> r@ == " "@,
            x == Some(Player::X) ==> r@ == "X"@,
            x == Some(Player::O) ==> r@ == "O"@,
    {
        match x {
            None => " ",
            Some(p) => p.display(),
        }
    }
}

/// The flat index, in row-major order, of the cell in row `i`, column `j`.
pub open spec fn cell_index(i: int, j: int) -> int {
    3 * i + j
}

/// A board snapshot: nine cells in row-major order, and the player to move.
#[derive(Clone, Copy, Debug)]
pub struct Game {
    pub cells: [Option<Player>; 9],
    pub turn: Player,
}

/// Whether the three cells at flat indices `a`, `b`, `c` all carry `p`'s mark.
pub open spec fn line_is(s: Seq<Option<Player>>, a: int, b: int, c: int, p: Player) -> bool {
    s[a] == Some(p) && s[b] == Some(p) && s[c] == Some(p)
}

/// Whether `p` owns one of the eight winning lines: three rows, three
/// columns, two diagonals.
pub open spec fn has_line(s: Seq<Option<Player>>, p: Player) -> bool {
    ||| line_is(s, 0, 1, 2, p)
    ||| line_is(s, 3, 4, 5, p)
    ||| line_is(s, 6, 7, 8, p)
    ||| line_is(s, 0, 3, 6, p)
    ||| line_is(s, 1, 4, 7, p)
    ||| line_is(s, 2, 5, 8, p)
    ||| line_is(s, 0, 4, 8, p)
    ||| line_is(s, 2, 4, 6, p)
}

/// The number of empty cells at flat indices in `[k, 9)`.
pub open spec fn empties_from(s: Seq<Option<Player>>, k: int) -> int
    decreases 9 - k,
{
    if k < 0 || k >= 9 {
        0
    } else {
        (if s[k] is None { 1int } else { 0int }) + empties_from(s, k + 1)
    }
}

/// The number of empty cells on the board.
pub open spec fn empties(s: Seq<Option<Player>>) -> int {
    empties_from(s, 0)
}

/// The outcome of a board: the player owning a line, a tie when the board is
/// full with no line, and no outcome while an empty cell remains and nobody
/// has a line.
pub open spec fn winner_spec(s: Seq<Option<Player>>) -> Option<GameResult> {
    if has_line(s, Player::X) {
        Some(GameResult::X)
    } else if has_line(s, Player::O) {
        Some(GameResult::O)
    } else if empties(s) == 0 {
        Some(GameResult::Tie)
    } else {
        None
    }
}

/// The suffix count of empty cells never exceeds the number of cells left.
pub proof fn lemma_empties_from_bounds(s: Seq<Option<Player>>, k: int)
    requires
        0 <= k <= 9,
    ensures
        0 <= empties_from(s, k) <= 9 - k,
    decreases 9 - k,
{
    if k < 9 {
        lemma_empties_from_bounds(s, k + 1);
    }
}

/// Updating one cell changes the empty count by the difference of the old and
/// new cell's emptiness, for suffixes that reach the updated index.
pub proof fn lemma_empties_from_update(s: Seq<Option<Player>>, k: int, v: Option<Player>, j: int)
    requires
        s.len() == 9,
        0 <= k < 9,
        0 <= j <= 9,
    ensures
        empties_from(s.update(k, v), j) == empties_from(s, j) + if j <= k {
            (if v is None { 1int } else { 0int }) - (if s[k] is None { 1int } else { 0int })
        } else {
            0int
        },
    decreases 9 - j,
{
    if j < 9 {
        lemma_empties_from_update(s, k, v, j + 1);
    }
}

/// Placing a mark on an empty cell reduces the number of empty cells by one.
pub proof fn lemma_empties_place(s: Seq<Option<Player>>, k: int, t: Player)
    requires
        s.len() == 9,
        0 <= k < 9,
        s[k] is None,
    ensures
        empties(s.update(k, Some(t))) == empties(s) - 1,
        1 <= empties(s) <= 9,
{
    lemma_empties_from_update(s, k, Some(t), 0);
    lemma_empties_from_bounds(s, 0);
    lemma_empties_from_pos(s, 0);
    assert(0 <= k < 9 && s[k] is None);
}

/// There is an empty cell at or after index `k` exactly when the suffix count
/// is positive.
pub proof fn lemma_empties_from_pos(s: Seq<Option<Player>>, k: int)
    requires
        0 <= k <= 9,
    ensures
        empties_from(s, k) > 0 <==> exists|j: int| k <= j < 9 && s[j] is None,
    decreases 9 - k,
{
    if k < 9 {
        lemma_empties_from_pos(s, k + 1);
        lemma_empties_from_bounds(s, k + 1);
        if s[k] is None {
            assert(k <= k < 9 && s[k] is None);
        } else if exists|j: int| k <= j < 9 && s[j] is None {
            let j = choose|j: int| k <= j < 9 && s[j] is None;
            assert(k + 1 <= j < 9 && s[j] is None);
        }
    }
}

/// The number of cells carrying `p`'s mark at flat indices in `[k, 9)`.
pub open spec fn marks_from(s: Seq<Option<Player>>, p: Player, k: int) -> int
    decreases 9 - k,
{
    if k < 0 || k >= 9 {
        0
    } else {
        (if s[k] == Some(p) { 1int } else { 0int }) + marks_from(s, p, k + 1)
    }
}

/// The number of cells carrying `p`'s mark.
pub open spec fn marks(s: Seq<Option<Player>>, p: Player) -> int {
    marks_from(s, p, 0)
}

/// Strict alternation from an empty board, `X` first: when `X` is to move the
/// two players hold equally many marks, and when `O` is to move `X` holds
/// exactly one more. In particular the two counts never differ by more than
/// one, and the player to move is the one with fewer or equally many marks.
pub open spec fn balanced(g: Game) -> bool {
    match g.turn {
        Player::X => marks(g.cells@, Player::X) == marks(g.cells@, Player::O),
        Player::O => marks(g.cells@, Player::X) == marks(g.cells@, Player::O) + 1,
    }
}

/// Writing `v` into one cell changes each player's mark count by the
/// difference of the new and old cell, for suffixes that reach the index.
proof fn lemma_marks_from_update(
    s: Seq<Option<Player>>,
    p: Player,
    k: int,
    v: Option<Player>,
    j: int,
)
    requires
        s.len() == 9,
        0 <= k < 9,
        0 <= j <= 9,
    ensures
        marks_from(s.update(k, v), p, j) == marks_from(s, p, j) + if j <= k {
            (if v == Some(p) { 1int } else { 0int }) - (if s[k] == Some(p) { 1int } else { 0int })
        } else {
            0int
        },
    decreases 9 - j,
{
    if j < 9 {
        lemma_marks_from_update(s, p, k, v, j + 1);
    }
}

/// The outcome of a board is undecided exactly when some cell is still empty
/// and neither player owns a line; otherwise it is exactly one of the three
/// decided outcomes.
pub proof fn lemma_outcome_undecided_iff(s: Seq<Option<Player>>)
    requires
        s.len() == 9,
    ensures
        (winner_spec(s) is None) <==> ((exists|j: int| 0 <= j < 9 && s[j] is None)
            && !has_line(s, Player::X) && !has_line(s, Player::O)),
{
    lemma_empties_from_pos(s, 0);
    lemma_empties_from_bounds(s, 0);
}

/// The cell with the two players' marks exchanged.
pub open spec fn cell_swapped(c: Option<Player>) -> Option<Player> {
    match c {
        None => None,
        Some(p) => Some(p.spec_opposite()),
    }
}

/// The cells with the two players' marks exchanged everywhere.
pub open spec fn swapped(s: Seq<Option<Player>>) -> Seq<Option<Player>> {
    Seq::new(s.len(), |k: int| cell_swapped(s[k]))
}

/// Exchanging the marks leaves the empty cells where they were.
pub proof fn lemma_empties_from_swapped(s: Seq<Option<Player>>, k: int)
    requires
        s.len() == 9,
        0 <= k <= 9,
    ensures
        empties_from(swapped(s), k) == empties_from(s, k),
    decreases 9 - k,
{
    if k < 9 {
        lemma_empties_from_swapped(s, k + 1);
    }
}

/// Exchanging the marks exchanges the outcome: each player's win becomes the
/// other's, and a tie or an undecided board stays as it was.
pub proof fn lemma_winner_swapped(s: Seq<Option<Player>>)
    requires
        s.len() == 9,
        !(has_line(s, Player::X) && has_line(s, Player::O)),
    ensures
        winner_spec(swapped(s)) == match winner_spec(s) {
            Some(GameResult::X) => Some(GameResult::O),
            Some(GameResult::O) => Some(GameResult::X),
            Some(GameResult::Tie) => Some(GameResult::Tie),
            None => None::<GameResult>,
        },
{
    assert forall|p: Player| has_line(swapped(s), p) == has_line(
        s,
        p.spec_opposite(),
    ) by {
        assert forall|a: int, b: int, c: int|
            0 <= a < 9 && 0 <= b < 9 && 0 <= c < 9 implies #[trigger] line_is(
            swapped(s),
            a,
            b,
            c,
            p,
        ) == line_is(s, a, b, c, p.spec_opposite()) by {
            assert(swapped(s)[a] == cell_swapped(s[a]));
            assert(swapped(s)[b] == cell_swapped(s[b]));
            assert(swapped(s)[c] == cell_swapped(s[c]));
        }
    }
    lemma_empties_from_swapped(s, 0);
}

/// A full board on which neither player owns a line is a tie.
pub proof fn lemma_full_no_line_is_tie(s: Seq<Option<Player>>)
    requires
        s.len() == 9,
        empties(s) == 0,
        !has_line(s, Player::X),
        !has_line(s, Player::O),
    ensures
        winner_spec(s) == Some(GameResult::Tie),
{
}

impl Game {
    /// A fresh board: all cells empty, `X` to move.
    pub fn new() -> (g: Game)
        ensures
            g.cells@.len() == 9,
            forall|k: int| 0 <= k < 9 ==> g.cells@[k] is None,
            g.turn == Player::X,
            empties(g.cells@) == 9,
            balanced(g),
    {
        let g = Game {
            cells: [None, None, None, None, None, None, None, None, None],
            turn: Player::X,
        };
        proof {
            assert forall|k: int| 0 <= k < 9 implies g.cells@[k] is None by {
                assert(g.cells@.len() == 9);
            }
            reveal_with_fuel(empties_from, 11);
            reveal_with_fuel(marks_from, 11);
        }
        g
    }

    /// Whether the cell in row `pos.0`, column `pos.1` is empty.
    pub fn can_move(self, pos: (usize, usize)) -> (r: bool)
        requires
            pos.0 < 3,
            pos.1 < 3,
        ensures
            r == (self.cells@[cell_index(pos.0 as int, pos.1 as int)] is None),
    {
        self.cells[3 * pos.0 + pos.1].is_none()
    }

    /// Writes the current player's mark at flat index `k` and passes the turn,
    /// regardless of what the cell held.
    pub(crate) fn place_at(&mut self, k: usize)
        requires
            k < 9,
        ensures
            final(self).cells@ == old(self).cells@.update(k as int, Some(old(self).turn)),
            final(self).turn == old(self).turn.spec_opposite(),
    {
        self.cells[k] = Some(self.turn);
        self.turn = self.turn.opposite();
    }

    /// Writes the current player's mark in row `pos.0`, column `pos.1` and
    /// passes the turn, regardless of what the cell held. Meant for search
    /// over cells already known to be empty.
    pub fn force_move(&mut self, pos: (usize, usize))
        requires
            pos.0 < 3,
            pos.1 < 3,
        ensures
            final(self).cells@ == old(self).cells@.update(
                cell_index(pos.0 as int, pos.1 as int),
                Some(old(self).turn),
            ),
            final(self).turn == old(self).turn.spec_opposite(),
    {
        self.place_at(3 * pos.0 + pos.1);
    }

    /// Places the current player's mark in row `pos.0`, column `pos.1` and
    /// passes the turn, but only when the cell is empty; reports whether the
    /// placement happened. A declined placement leaves the board untouched.
    pub fn try_move(&mut self, pos: (usize, usize)) -> (r: bool)
        requires
            pos.0 < 3,
            pos.1 < 3,
        ensures
            r == (old(self).cells@[cell_index(pos.0 as int, pos.1 as int)] is None),
            r ==> final(self).cells@ == old(self).cells@.update(
                cell_index(pos.0 as int, pos.1 as int),
                Some(old(self).turn),
            ) && final(self).turn == old(self).turn.spec_opposite(),
            !r ==> *final(self) == *old(self),
            balanced(*old(self)) ==> balanced(*final(self)),
    {
        let r = self.can_move(pos);
        if r {
            self.force_move(pos);
            proof {
                let s = old(self).cells@;
                let k = cell_index(pos.0 as int, pos.1 as int);
                let t = old(self).turn;
                lemma_marks_from_update(s, Player::X, k, Some(t), 0);
                lemma_marks_from_update(s, Player::O, k, Some(t), 0);
            }
        }
        r
    }

    /// Whether the cell at flat index `a` carries `p`'s mark.
    fn mark_at(self, a: usize, p: Player) -> (r: bool)
        requires
            a < 9,
        ensures
            r == (self.cells@[a as int] == Some(p)),
    {
        match self.cells[a] {
            Some(q) => q == p,
            None => false,
        }
    }

    /// Whether `p` owns the line through flat indices `a`, `b`, `c`.
    fn line_won(self, a: usize, b: usize, c: usize, p: Player) -> (r: bool)
        requires
            a < 9,
            b < 9,
            c < 9,
        ensures
            r == line_is(self.cells@, a as int, b as int, c as int, p),
    {
        self.mark_at(a, p) && self.mark_at(b, p) && self.mark_at(c, p)
    }

    /// Whether `p` owns one of the eight winning lines.
    fn has_line_won(self, p: Player) -> (r: bool)
        ensures
            r == has_line(self.cells@, p),
    {
        self.line_won(0, 1, 2, p) || self.line_won(3, 4, 5, p) || self.line_won(6, 7, 8, p)
            || self.line_won(0, 3, 6, p) || self.line_won(1, 4, 7, p)
            || self.line_won(2, 5, 8, p) || self.line_won(0, 4, 8, p)
            || self.line_won(2, 4, 6, p)
    }

    /// The number of empty cells on the board.
    pub fn empty_count(self) -> (r: u32)
        ensures
            r as int == empties(self.cells@),
            r <= 9,
    {
        let mut k: usize = 9;
        let mut n: u32 = 0;
        while k > 0
            invariant
                k <= 9,
                n as int == empties_from(self.cells@, k as int),
                n <= 9,
            decreases k,
        {
            k = k - 1;
            if self.cells[k].is_none() {
                n = n + 1;
            }
            proof {
                lemma_empties_from_bounds(self.cells@, k as int);
            }
        }
        n
    }

    /// The outcome of the board: the owner of a completed line, a tie when the
    /// board is full without one, and nothing while the game is still open.
    pub fn winner(self) -> (r: Option<GameResult>)
        ensures
            r == winner_spec(self.cells@),
    {
        if self.has_line_won(Player::X) {
            Some(GameResult::X)
        } else if self.has_line_won(Player::O) {
            Some(GameResult::O)
        } else if self.empty_count() == 0 {
            Some(GameResult::Tie)
        } else {
            None
        }
    }
}

} // verus!
