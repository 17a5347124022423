use vstd::prelude::*;
use crate::board::{apply_view, Board, BoardView};
use crate::color::Color;
use crate::generator::{all_moves, lemma_move_count_bound, lemma_moves_on_board};
use crate::moves::Move;
use crate::notation::{nat_text, push_nat};
use crate::piece::Piece;

verus! {

/// The counters that a perft search gathers. Only `nodes` and `captures`
/// are counted by the rules implemented here; the others stay zero.
#[derive(PartialEq, Eq, Structural, Copy, Clone, Debug)]
pub struct PerftResult {
    pub depth: usize,
    pub nodes: usize,
    pub captures: usize,
    pub ep: usize,
    pub castles: usize,
    pub promotions: usize,
    pub checks: usize,
    pub discovery_checks: usize,
    pub double_checks: usize,
    pub checkmates: usize,
}

/// `r` counts `nodes` nodes and `captures` captures, and nothing else.
pub open spec fn counts(r: PerftResult, nodes: int, captures: int) -> bool {
    &&& r.depth == 0
    &&& r.nodes == nodes
    &&& r.captures == captures
    &&& r.ep == 0
    &&& r.castles == 0
    &&& r.promotions == 0
    &&& r.checks == 0
    &&& r.discovery_checks == 0
    &&& r.double_checks == 0
    &&& r.checkmates == 0
}

impl Default for PerftResult {
    /// All counters zero.
    fn default() -> (r: Self)
        ensures
            counts(r, 0, 0),
    {
        PerftResult {
            depth: 0,
            nodes: 0,
            captures: 0,
            ep: 0,
            castles: 0,
            promotions: 0,
            checks: 0,
            discovery_checks: 0,
            double_checks: 0,
            checkmates: 0,
        }
    }
}

/// The counters of `r`, one labelled line each.
pub open spec fn perft_text(r: PerftResult) -> Seq<char> {
    "Nodes: "@ + nat_text(r.nodes as nat) + "\nCaptures: "@ + nat_text(r.captures as nat) + "\nE.p.: "@
        + nat_text(r.ep as nat) + "\nCastles: "@ + nat_text(r.castles as nat) + "\nPromotions: "@
        + nat_text(r.promotions as nat) + "\nChecks: "@ + nat_text(r.checks as nat)
        + "\nDiscovery checks: "@ + nat_text(r.discovery_checks as nat) + "\nDouble checks: "@
        + nat_text(r.double_checks as nat) + "\nCheckmates: "@ + nat_text(r.checkmates as nat)
}

impl PerftResult {
    /// The counters, one labelled line each: see [`perft_text`].
    pub fn to_text(&self) -> (r: String)
        ensures
            r@ == perft_text(*self),
    {
        let mut s = String::new();
        s.append("Nodes: ");
        push_nat(&mut s, self.nodes as u64);
        s.append("\nCaptures: ");
        push_nat(&mut s, self.captures as u64);
        s.append("\nE.p.: ");
        push_nat(&mut s, self.ep as u64);
        s.append("\nCastles: ");
        push_nat(&mut s, self.castles as u64);
        s.append("\nPromotions: ");
        push_nat(&mut s, self.promotions as u64);
        s.append("\nChecks: ");
        push_nat(&mut s, self.checks as u64);
        s.append("\nDiscovery checks: ");
        push_nat(&mut s, self.discovery_checks as u64);
        s.append("\nDouble checks: ");
        push_nat(&mut s, self.double_checks as u64);
        s.append("\nCheckmates: ");
        push_nat(&mut s, self.checkmates as u64);
        assert(s@ =~= perft_text(*self));
        s
    }
}

/// How many of `ms` take a piece.
pub open spec fn capture_count(ms: Seq<Move>) -> nat
    decreases ms.len(),
{
    if ms.len() == 0 {
        0
    } else {
        capture_count(ms.drop_last()) + if ms.last().capture != Piece::EMPTY {
            1nat
        } else {
            0nat
        }
    }
}

/// The perft node count of `b` at `depth`: the moves generated for the side
/// to move, plus the node counts at `depth - 1` of the boards they lead to.
/// Nothing is counted at depth 0.
pub open spec fn perft_nodes(b: BoardView, depth: nat) -> nat
    decreases depth, 0nat,
{
    if depth == 0 {
        0
    } else {
        let ms = all_moves(b, b.next);
        ms.len() + subtree_nodes(b, ms, (depth - 1) as nat)
    }
}

/// The sum of the node counts at `depth` of the boards that `ms` lead to.
pub open spec fn subtree_nodes(b: BoardView, ms: Seq<Move>, depth: nat) -> nat
    decreases depth, ms.len(),
{
    if ms.len() == 0 {
        0
    } else {
        subtree_nodes(b, ms.drop_last(), depth) + perft_nodes(apply_view(b, ms.last()), depth)
    }
}

/// The perft capture count of `b` at `depth`: the generated captures, plus
/// the capture counts at `depth - 1` of the boards the moves lead to.
pub open spec fn perft_captures(b: BoardView, depth: nat) -> nat
    decreases depth, 0nat,
{
    if depth == 0 {
        0
    } else {
        let ms = all_moves(b, b.next);
        capture_count(ms) + subtree_captures(b, ms, (depth - 1) as nat)
    }
}

/// The sum of the capture counts at `depth` of the boards that `ms` lead to.
pub open spec fn subtree_captures(b: BoardView, ms: Seq<Move>, depth: nat) -> nat
    decreases depth, ms.len(),
{
    if ms.len() == 0 {
        0
    } else {
        subtree_captures(b, ms.drop_last(), depth) + perft_captures(apply_view(b, ms.last()), depth)
    }
}

proof fn lemma_capture_count_bound(ms: Seq<Move>)
    ensures
        capture_count(ms) <= ms.len(),
    decreases ms.len(),
{
    if ms.len() > 0 {
        lemma_capture_count_bound(ms.drop_last());
    }
}

/// An upper bound of the perft node count at `depth` of any board, from the
/// bound of 3584 moves per position.
pub open spec fn node_bound(depth: nat) -> nat
    decreases depth,
{
    if depth == 0 {
        0
    } else {
        3584 * (1 + node_bound((depth - 1) as nat))
    }
}

/// No board's perft node count at `depth` exceeds [`node_bound`].
pub proof fn lemma_perft_nodes_bound(b: BoardView, depth: nat)
    ensures
        perft_nodes(b, depth) <= node_bound(depth),
    decreases depth, 0nat,
{
    if depth > 0 {
        let ms = all_moves(b, b.next);
        let d = (depth - 1) as nat;
        lemma_move_count_bound(b, b.next, 64);
        lemma_subtree_nodes_bound(b, ms, d);
        let n = ms.len();
        let x = node_bound(d);
        assert(n + n * x <= 3584 * (1 + x)) by (nonlinear_arith)
            requires
                n <= 3584,
        ;
    }
}

proof fn lemma_subtree_nodes_bound(b: BoardView, ms: Seq<Move>, depth: nat)
    ensures
        subtree_nodes(b, ms, depth) <= ms.len() * node_bound(depth),
    decreases depth, ms.len(),
{
    if ms.len() > 0 {
        lemma_subtree_nodes_bound(b, ms.drop_last(), depth);
        lemma_perft_nodes_bound(apply_view(b, ms.last()), depth);
        let n = ms.drop_last().len();
        let x = node_bound(depth);
        assert(n * x + x == (n + 1) * x) by (nonlinear_arith);
    }
}

/// Up to depth 5 every perft node count stays below 2^60.
pub proof fn lemma_perft_fits_to_depth_five(b: BoardView, depth: nat)
    requires
        depth <= 5,
    ensures
        perft_nodes(b, depth) < 0x1000_0000_0000_0000,
{
    lemma_perft_nodes_bound(b, depth);
    reveal_with_fuel(node_bound, 6);
    lemma_node_bound_grows(depth, 5);
    assert(node_bound(1) == 3584);
    assert(node_bound(2) == 3584 * 3585);
    assert(node_bound(5) < 0x1000_0000_0000_0000);
}

proof fn lemma_node_bound_grows(i: nat, j: nat)
    requires
        i <= j,
    ensures
        node_bound(i) <= node_bound(j),
    decreases j - i,
{
    if i < j {
        lemma_node_bound_grows(i, (j - 1) as nat);
    }
}

/// A board counts no more captures than nodes at any depth.
proof fn lemma_captures_within_nodes(b: BoardView, depth: nat)
    ensures
        perft_captures(b, depth) <= perft_nodes(b, depth),
    decreases depth, 0nat,
{
    if depth > 0 {
        let ms = all_moves(b, b.next);
        lemma_capture_count_bound(ms);
        lemma_subtree_captures_within_nodes(b, ms, (depth - 1) as nat);
    }
}

proof fn lemma_subtree_captures_within_nodes(b: BoardView, ms: Seq<Move>, depth: nat)
    ensures
        subtree_captures(b, ms, depth) <= subtree_nodes(b, ms, depth),
    decreases depth, ms.len(),
{
    if ms.len() > 0 {
        lemma_subtree_captures_within_nodes(b, ms.drop_last(), depth);
        lemma_captures_within_nodes(apply_view(b, ms.last()), depth);
    }
}

/// Taking one more move of `ms` adds that move's counts.
proof fn lemma_take_one_more(b: BoardView, ms: Seq<Move>, depth: nat, i: int)
    requires
        0 <= i < ms.len(),
    ensures
        subtree_nodes(b, ms.take(i + 1), depth) == subtree_nodes(b, ms.take(i), depth) + perft_nodes(
            apply_view(b, ms[i]),
            depth,
        ),
        subtree_captures(b, ms.take(i + 1), depth) == subtree_captures(b, ms.take(i), depth)
            + perft_captures(apply_view(b, ms[i]), depth),
        capture_count(ms.take(i + 1)) == capture_count(ms.take(i)) + if ms[i].capture != Piece::EMPTY {
            1nat
        } else {
            0nat
        },
{
    assert(ms.take(i + 1).drop_last() =~= ms.take(i));
    assert(ms.take(i + 1).last() == ms[i]);
}

/// The counts of a prefix of `ms` are no larger than those of `ms`.
proof fn lemma_prefix_counts(b: BoardView, ms: Seq<Move>, depth: nat, i: int, j: int)
    requires
        0 <= i <= j <= ms.len(),
    ensures
        subtree_nodes(b, ms.take(i), depth) <= subtree_nodes(b, ms.take(j), depth),
        subtree_captures(b, ms.take(i), depth) <= subtree_captures(b, ms.take(j), depth),
        capture_count(ms.take(i)) <= capture_count(ms.take(j)),
    decreases j - i,
{
    if i < j {
        lemma_prefix_counts(b, ms, depth, i, j - 1);
        lemma_take_one_more(b, ms, depth, j - 1);
    }
}

/// The perft counts of `board` at `depth`, the side to move taken from the
/// board and flipping with every ply.
fn perft_subtree(board: &Board, depth: usize) -> (r: PerftResult)
    requires
        board.next != Color::NONE,
        perft_nodes(board@, depth as nat) <= usize::MAX,
        board.fullmove_clock + depth <= isize::MAX,
    ensures
        counts(r, perft_nodes(board@, depth as nat) as int, perft_captures(board@, depth as nat) as int),
    decreases depth,
{
    let mut result = PerftResult::default();
    if depth < 1 {
        return result;
    }

    let legal_moves = board.generate(board.next);
    let ghost b = board@;
    let ghost ms = legal_moves@;
    let ghost d = (depth - 1) as nat;
    proof {
        lemma_moves_on_board(b, board.next, 64);
        lemma_captures_within_nodes(b, depth as nat);
        assert(ms.take(0) =~= Seq::<Move>::empty());
        assert(ms.take(ms.len() as int) =~= ms);
    }
    result.nodes = legal_moves.len();

    let mut i: usize = 0;
    while i < legal_moves.len()
        invariant
            i <= legal_moves@.len(),
            ms == legal_moves@,
            b == board@,
            d == depth - 1,
            depth >= 1,
            ms == all_moves(b, b.next),
            b.next != Color::NONE,
            perft_nodes(b, depth as nat) <= usize::MAX,
            board.fullmove_clock + depth <= isize::MAX,
            perft_captures(b, depth as nat) <= perft_nodes(b, depth as nat),
            perft_nodes(b, depth as nat) == ms.len() + subtree_nodes(b, ms, d),
            perft_captures(b, depth as nat) == capture_count(ms) + subtree_captures(b, ms, d),
            ms.take(ms.len() as int) == ms,
            forall|k: int| 0 <= k < ms.len() ==> (#[trigger] ms[k]).from < 64 && ms[k].to < 64,
            counts(
                result,
                (ms.len() + subtree_nodes(b, ms.take(i as int), d)) as int,
                (capture_count(ms.take(i as int)) + subtree_captures(b, ms.take(i as int), d)) as int,
            ),
        decreases legal_moves@.len() - i,
    {
        let m = legal_moves[i];
        let child = board.apply(m);
        proof {
            lemma_take_one_more(b, ms, d, i as int);
            lemma_prefix_counts(b, ms, d, i as int + 1, ms.len() as int);
        }
        if m.capture != Piece::EMPTY {
            result.captures = result.captures + 1;
        }
        let sub = perft_subtree(&child, depth - 1);
        result.nodes = result.nodes + sub.nodes;
        result.captures = result.captures + sub.captures;
        i = i + 1;
    }
    result
}

impl Board {
    /// The perft counts of this board at `depth`, starting with the side the
    /// board says is to move. The moves are pseudo-legal (no check test, no
    /// castling, no en passant), so from depth 3 on the counts differ from
    /// published tables of legal-move perft; from the starting position they
    /// are 20 at depth 1 and 20 + 400 at depth 2.
    pub fn perft(&self, depth: usize) -> (r: PerftResult)
        requires
            self.next != Color::NONE,
            perft_nodes(self@, depth as nat) <= usize::MAX,
            self.fullmove_clock + depth <= isize::MAX,
        ensures
            counts(r, perft_nodes(self@, depth as nat) as int, perft_captures(self@, depth as nat) as int),
    {
        perft_subtree(self, depth)
    }

    /// The perft counts of this board at `depth`, together with, for each
    /// move of the side to move in generation order, the node count at
    /// `depth - 1` of the board that move leads to. At depth 0 nothing is
    /// counted and no move is listed.
    pub fn divide(&self, depth: usize) -> (r: (PerftResult, Vec<(Move, usize)>))
        requires
            self.next != Color::NONE,
            perft_nodes(self@, depth as nat) <= usize::MAX,
            self.fullmove_clock + depth <= isize::MAX,
        ensures
            counts(r.0, perft_nodes(self@, depth as nat) as int, perft_captures(self@, depth as nat) as int),
            depth == 0 ==> r.1@.len() == 0,
            depth >= 1 ==> r.1@.len() == all_moves(self@, self.next).len(),
            depth >= 1 ==> forall|i: int|
                0 <= i < r.1@.len() ==> {
                    &&& (#[trigger] r.1@[i]).0 == all_moves(self@, self.next)[i]
                    &&& r.1@[i].1 == perft_nodes(
                        apply_view(self@, all_moves(self@, self.next)[i]),
                        (depth - 1) as nat,
                    )
                },
    {
        let mut result = PerftResult::default();
        let mut per_move: Vec<(Move, usize)> = Vec::new();
        if depth < 1 {
            return (result, per_move);
        }

        let legal_moves = self.generate(self.next);
        let ghost b = self@;
        let ghost ms = legal_moves@;
        let ghost d = (depth - 1) as nat;
        proof {
            lemma_moves_on_board(b, self.next, 64);
            lemma_captures_within_nodes(b, depth as nat);
            assert(ms.take(0) =~= Seq::<Move>::empty());
            assert(ms.take(ms.len() as int) =~= ms);
        }
        result.nodes = legal_moves.len();

        let mut i: usize = 0;
        while i < legal_moves.len()
            invariant
                i <= legal_moves@.len(),
                ms == legal_moves@,
                b == self@,
                d == depth - 1,
                depth >= 1,
                ms == all_moves(b, b.next),
                b.next != Color::NONE,
                perft_nodes(b, depth as nat) <= usize::MAX,
                self.fullmove_clock + depth <= isize::MAX,
                perft_captures(b, depth as nat) <= perft_nodes(b, depth as nat),
                perft_nodes(b, depth as nat) == ms.len() + subtree_nodes(b, ms, d),
                perft_captures(b, depth as nat) == capture_count(ms) + subtree_captures(b, ms, d),
                ms.take(ms.len() as int) == ms,
                forall|k: int| 0 <= k < ms.len() ==> (#[trigger] ms[k]).from < 64 && ms[k].to < 64,
                counts(
                    result,
                    (ms.len() + subtree_nodes(b, ms.take(i as int), d)) as int,
                    (capture_count(ms.take(i as int)) + subtree_captures(b, ms.take(i as int), d)) as int,
                ),
                per_move@.len() == i,
                forall|k: int|
                    0 <= k < i ==> {
                        &&& (#[trigger] per_move@[k]).0 == ms[k]
                        &&& per_move@[k].1 == perft_nodes(apply_view(b, ms[k]), d)
                    },
            decreases legal_moves@.len() - i,
        {
            let m = legal_moves[i];
            let child = self.apply(m);
            proof {
                lemma_take_one_more(b, ms, d, i as int);
                lemma_prefix_counts(b, ms, d, i as int + 1, ms.len() as int);
            }
            if m.capture != Piece::EMPTY {
                result.captures = result.captures + 1;
            }
            let sub = perft_subtree(&child, depth - 1);
            per_move.push((m, sub.nodes));
            result.nodes = result.nodes + sub.nodes;
            result.captures = result.captures + sub.captures;
            i = i + 1;
        }
        (result, per_move)
    }
}

/// The sum, over the moves of `ms`, of one for the move plus the node count
/// at `depth` of the board it leads to.
pub open spec fn divided_nodes(b: BoardView, ms: Seq<Move>, depth: nat) -> nat
    decreases ms.len(),
{
    if ms.len() == 0 {
        0
    } else {
        divided_nodes(b, ms.drop_last(), depth) + 1 + perft_nodes(apply_view(b, ms.last()), depth)
    }
}

proof fn lemma_divided_nodes(b: BoardView, ms: Seq<Move>, depth: nat)
    ensures
        divided_nodes(b, ms, depth) == ms.len() + subtree_nodes(b, ms, depth),
    decreases ms.len(),
{
    if ms.len() > 0 {
        lemma_divided_nodes(b, ms.drop_last(), depth);
    }
}

/// The perft node count at a positive depth is the sum, over the moves of
/// the side to move, of one plus the node count one ply shallower of the
/// board the move leads to; these are the counts `divide` lists.
pub proof fn lemma_divide_matches_perft(b: BoardView, depth: nat)
    requires
        depth >= 1,
    ensures
        perft_nodes(b, depth) == divided_nodes(b, all_moves(b, b.next), (depth - 1) as nat),
{
    lemma_divided_nodes(b, all_moves(b, b.next), (depth - 1) as nat);
}

} // verus!
