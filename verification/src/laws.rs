//! What holds of the coordinates and of their move tables: setting a
//! coordinate and reading it gives it back, a move leads from a coordinate to
//! a coordinate, and a move followed by the move that undoes it leads back.

use vstd::prelude::*;
use crate::coordinate::{
    Coordinate, CoordinateKind, domain, is_move_table, moved, parity_step, rank, start_state, step,
};
use crate::corners::{
    above, corner_from_times, corner_parity_of, inversions8, lemma_inversions8,
    lemma_move_corners_back, lemma_move_corners_parity, lemma_turn_corners_ori,
    lemma_turn_corners_times_perm, lemma_turn_corners_times_twist_total,
    lemma_turn_corners_times_valid, lemma_twist_rank, lemma_twist_unrank, move_corners, twist_total,
    urf_to_dlf_rank,
};
use crate::cubies::{
    CubieState, lemma_pigeonhole, lemma_placed, lemma_ranked, lemma_slot_source, lemma_slots_follow,
    mirrored, seen, slot_from, slots_of,
};
use crate::cube::{apply_moves, CubeState, lemma_move_cube, move_cube};
use crate::edges::{
    edge_from_times, flip_total, fr_to_br_rank, lemma_flip_rank, lemma_flip_unrank,
    lemma_keeps_slice_positions, lemma_move_edges_back, lemma_turn_edges_ori,
    lemma_turn_edges_times_flip_total, lemma_turn_edges_times_perm, lemma_turn_edges_times_valid,
    NB_SLICE, NB_UR_TO_DF, NB_UR_TO_DF_ANYWHERE, ur_to_df_rank,
};
use crate::moves::Move;
use crate::pruning::{keeps_slice_index, MAX_DEPTH, NB_PRUNING, nibble, Transitions, UNVISITED};
use crate::ranking::{
    arrangement_count, arrangement_unrank, home_slots, is_arrangement, is_tracked, lemma_counts,
    lemma_home_rank, lemma_rank_of_prefix,
};

verus! {

/// Whether the kind of coordinate says where cubies sit (and not how they are
/// turned).
pub open spec fn is_placement(kind: CoordinateKind) -> bool {
    kind != CoordinateKind::Twist && kind != CoordinateKind::Flip
}

/// Whether the kind of coordinate is one of the corners.
pub open spec fn of_corners(kind: CoordinateKind) -> bool {
    kind == CoordinateKind::Twist || kind == CoordinateKind::UrfToDlf
}

/// The number of positions: 8 for a coordinate of the corners, 12 for one of
/// the edges.
pub open spec fn positions(kind: CoordinateKind) -> nat {
    if of_corners(kind) {
        8
    } else {
        12
    }
}

/// The number of ways a cubie can be turned: 3 for a corner, 2 for an edge.
pub open spec fn turnings(kind: CoordinateKind) -> int {
    if of_corners(kind) {
        3
    } else {
        2
    }
}

/// The number of the first cubie that a placement coordinate follows.
pub open spec fn first_cubie(kind: CoordinateKind) -> int {
    if kind == CoordinateKind::UbToDf {
        3
    } else {
        0
    }
}

/// The number of cubies that a placement coordinate follows.
pub open spec fn cubies(kind: CoordinateKind) -> nat {
    match kind {
        CoordinateKind::FrToBr => 4,
        CoordinateKind::UrToUl | CoordinateKind::UbToDf => 3,
        _ => 6,
    }
}

/// Whether a placement coordinate looks at the arrangement mirrored.
pub open spec fn is_mirrored(kind: CoordinateKind) -> bool {
    kind == CoordinateKind::FrToBr
}

/// The number of values of a kind of coordinate. It is the number of rows of
/// the move table but for the edges UR to DF, whose table covers only the
/// values at which the six edges sit outside the middle slice.
pub open spec fn span(kind: CoordinateKind) -> int {
    if kind == CoordinateKind::UrToDf {
        NB_UR_TO_DF_ANYWHERE as int
    } else {
        domain(kind)
    }
}

/// The slots that a placement coordinate reads off an arrangement.
pub open spec fn slots(kind: CoordinateKind, perm: Seq<int>) -> Seq<int> {
    slots_of(seen(perm, is_mirrored(kind)), first_cubie(kind), cubies(kind))
}

/// The number of values of a placement coordinate is the number of
/// arrangements of its cubies among the positions.
pub proof fn lemma_span(kind: CoordinateKind)
    requires
        is_placement(kind),
    ensures
        span(kind) == arrangement_count(positions(kind), cubies(kind)),
        first_cubie(kind) + cubies(kind) <= positions(kind),
{
    lemma_counts();
}

/// The state that is made for a coordinate is a valid state, in which the
/// turnings are balanced, and its coordinate is the one it was made for.
pub proof fn lemma_start_state(kind: CoordinateKind, x: int)
    requires
        0 <= x < span(kind),
    ensures
        start_state(kind, x).valid(positions(kind), turnings(kind)),
        rank(kind, start_state(kind, x)) == x,
        kind == CoordinateKind::Twist ==> twist_total(start_state(kind, x).ori) % 3 == 0,
        kind == CoordinateKind::Flip ==> flip_total(start_state(kind, x).ori) % 2 == 0,
        is_placement(kind) ==> slots(kind, start_state(kind, x).perm) == arrangement_unrank(
            positions(kind),
            cubies(kind),
            x as nat,
        ),
{
    lemma_pigeonhole(CubieState::solved(8).perm, 8);
    lemma_pigeonhole(CubieState::solved(12).perm, 12);
    if kind == CoordinateKind::Twist {
        lemma_twist_unrank(x);
    } else if kind == CoordinateKind::Flip {
        lemma_flip_unrank(x);
    } else {
        lemma_span(kind);
        lemma_placed(positions(kind), x as nat, first_cubie(kind), cubies(kind), is_mirrored(kind));
    }
}

/// A move of a valid state gives a valid state.
pub proof fn lemma_moved_valid(kind: CoordinateKind, c: CubieState, m: Move)
    requires
        c.valid(positions(kind), turnings(kind)),
    ensures
        moved(kind, c, m).valid(positions(kind), turnings(kind)),
{
    if of_corners(kind) {
        lemma_turn_corners_times_valid(c, m.face_spec(), m.turns_spec());
    } else {
        lemma_turn_edges_times_valid(c, m.face_spec(), m.turns_spec());
    }
}

/// The coordinate of a valid state with balanced turnings is one of the
/// values of its kind.
pub proof fn lemma_rank_in_span(kind: CoordinateKind, c: CubieState)
    requires
        c.valid(positions(kind), turnings(kind)),
        kind == CoordinateKind::Twist ==> twist_total(c.ori) % 3 == 0,
        kind == CoordinateKind::Flip ==> flip_total(c.ori) % 2 == 0,
    ensures
        0 <= rank(kind, c) < span(kind),
{
    if kind == CoordinateKind::Twist {
        lemma_twist_rank(c.ori);
    } else if kind == CoordinateKind::Flip {
        lemma_flip_rank(c.ori);
    } else {
        lemma_span(kind);
        lemma_ranked(c.perm, positions(kind), first_cubie(kind), cubies(kind), is_mirrored(kind));
    }
}

/// Setting a coordinate and reading it gives it back.
pub proof fn lemma_coordinate_round_trip(kind: CoordinateKind, x: int)
    requires
        0 <= x < span(kind),
    ensures
        rank(kind, start_state(kind, x)) == x,
{
    lemma_start_state(kind, x);
}

/// A move leads from a value of a coordinate to a value of the same
/// coordinate.
pub proof fn lemma_step_in_span(kind: CoordinateKind, x: int, m: Move)
    requires
        0 <= x < span(kind),
    ensures
        0 <= step(kind, x, m) < span(kind),
{
    let c = start_state(kind, x);
    lemma_start_state(kind, x);
    lemma_moved_valid(kind, c, m);
    if kind == CoordinateKind::Twist {
        lemma_turn_corners_times_twist_total(c, m.face_spec(), m.turns_spec());
    } else if kind == CoordinateKind::Flip {
        lemma_turn_edges_times_flip_total(c, m.face_spec(), m.turns_spec());
    }
    lemma_rank_in_span(kind, moved(kind, c, m));
}

/// The position from which a move brings a cubie to the position `i`.
pub open spec fn position_from(kind: CoordinateKind, m: Move) -> spec_fn(int) -> int {
    if of_corners(kind) {
        |i: int| corner_from_times(m.face_spec(), i, m.turns_spec())
    } else {
        |i: int| edge_from_times(m.face_spec(), i, m.turns_spec())
    }
}

/// After a move the cubie at a position is the one that was at the position
/// that the move brings there.
pub proof fn lemma_moved_perm(kind: CoordinateKind, c: CubieState, m: Move)
    requires
        c.perm.len() == positions(kind),
    ensures
        moved(kind, c, m).perm.len() == positions(kind),
        forall|i: int|
            0 <= i < positions(kind) ==> 0 <= #[trigger] position_from(kind, m)(i) < positions(kind)
                && moved(kind, c, m).perm[i] == c.perm[position_from(kind, m)(i)],
{
    assert forall|i: int| 0 <= i < positions(kind) implies 0 <= #[trigger] position_from(kind, m)(
        i,
    ) < positions(kind) && moved(kind, c, m).perm[i] == c.perm[position_from(kind, m)(i)]
        && moved(kind, c, m).perm.len() == positions(kind) by {
        if of_corners(kind) {
            lemma_turn_corners_times_perm(c, m.face_spec(), m.turns_spec(), i);
        } else {
            lemma_turn_edges_times_perm(c, m.face_spec(), m.turns_spec(), i);
        }
    }
    assert(0 <= position_from(kind, m)(0) < positions(kind));
}

/// What a move makes of a coordinate depends on the coordinate alone: two
/// valid states with the same coordinate, and balanced turnings, have the
/// same coordinate after the same move.
pub proof fn lemma_move_respects_rank(kind: CoordinateKind, c: CubieState, d: CubieState, m: Move)
    requires
        c.valid(positions(kind), turnings(kind)),
        d.valid(positions(kind), turnings(kind)),
        kind == CoordinateKind::Twist ==> twist_total(c.ori) % 3 == 0 && twist_total(d.ori) % 3
            == 0,
        kind == CoordinateKind::Flip ==> flip_total(c.ori) % 2 == 0 && flip_total(d.ori) % 2 == 0,
        rank(kind, c) == rank(kind, d),
    ensures
        rank(kind, moved(kind, c, m)) == rank(kind, moved(kind, d, m)),
{
    if kind == CoordinateKind::Twist {
        lemma_twist_rank(c.ori);
        lemma_twist_rank(d.ori);
        lemma_turn_corners_ori(c, d, m.face_spec(), m.turns_spec());
    } else if kind == CoordinateKind::Flip {
        lemma_flip_rank(c.ori);
        lemma_flip_rank(d.ori);
        lemma_turn_edges_ori(c, d, m.face_spec(), m.turns_spec());
    } else {
        lemma_span(kind);
        lemma_ranked(c.perm, positions(kind), first_cubie(kind), cubies(kind), is_mirrored(kind));
        lemma_ranked(d.perm, positions(kind), first_cubie(kind), cubies(kind), is_mirrored(kind));
        assert(slots(kind, c.perm) == slots(kind, d.perm));
        lemma_moved_perm(kind, c, m);
        lemma_moved_perm(kind, d, m);
        lemma_slots_follow(
            c.perm,
            d.perm,
            moved(kind, c, m).perm,
            moved(kind, d, m).perm,
            position_from(kind, m),
            positions(kind),
            first_cubie(kind),
            cubies(kind),
            is_mirrored(kind),
        );
    }
}

/// The step of a coordinate follows the cube: the coordinate of a valid
/// state with balanced turnings after a move is the step from its coordinate
/// before the move.
pub proof fn lemma_step_follows_state(kind: CoordinateKind, c: CubieState, m: Move)
    requires
        c.valid(positions(kind), turnings(kind)),
        kind == CoordinateKind::Twist ==> twist_total(c.ori) % 3 == 0,
        kind == CoordinateKind::Flip ==> flip_total(c.ori) % 2 == 0,
    ensures
        step(kind, rank(kind, c), m) == rank(kind, moved(kind, c, m)),
{
    lemma_rank_in_span(kind, c);
    lemma_start_state(kind, rank(kind, c));
    lemma_move_respects_rank(kind, start_state(kind, rank(kind, c)), c, m);
}

/// A move and then the move that undoes it lead from a coordinate back to
/// it.
pub proof fn lemma_step_back(kind: CoordinateKind, x: int, m: Move)
    requires
        0 <= x < span(kind),
    ensures
        step(kind, step(kind, x, m), m.inverse_spec()) == x,
{
    let back = m.inverse_spec();
    let c0 = start_state(kind, x);
    let c1 = moved(kind, c0, m);
    let y = step(kind, x, m);
    let c2 = start_state(kind, y);
    lemma_start_state(kind, x);
    lemma_step_in_span(kind, x, m);
    lemma_start_state(kind, y);
    lemma_moved_valid(kind, c0, m);
    if kind == CoordinateKind::Twist {
        lemma_turn_corners_times_twist_total(c0, m.face_spec(), m.turns_spec());
    } else if kind == CoordinateKind::Flip {
        lemma_turn_edges_times_flip_total(c0, m.face_spec(), m.turns_spec());
    }
    lemma_move_respects_rank(kind, c2, c1, back);
    if of_corners(kind) {
        lemma_move_corners_back(c0, m);
    } else {
        lemma_move_edges_back(c0, m);
    }
}

/// The coordinate of the edges FR to BR is below 24 exactly where the four
/// sit in the middle slice.
pub proof fn lemma_in_slice(perm: Seq<int>)
    requires
        perm.len() == 12,
        is_arrangement(perm, 12),
    ensures
        fr_to_br_rank(perm) < NB_SLICE <==> (forall|i: int| 0 <= i < 8 ==> #[trigger] perm[i] < 8),
{
    let s = slots_of(mirrored(perm), 0, 4);
    lemma_counts();
    lemma_ranked(perm, 12, 0, 4, true);
    lemma_rank_of_prefix(s, 12, 4, 4);
    if forall|i: int| 0 <= i < 8 ==> #[trigger] perm[i] < 8 {
        assert forall|j: int| 4 <= j < 12 implies !is_tracked(#[trigger] s[j], 4) by {
            assert(perm[11 - j] < 8);
        }
    }
    if forall|j: int| 4 <= j < 12 ==> !is_tracked(#[trigger] s[j], 4) {
        assert forall|i: int| 0 <= i < 8 implies #[trigger] perm[i] < 8 by {
            assert(!is_tracked(s[11 - i], 4));
            assert(0 <= perm[i] < 12);
        }
    }
}

/// The coordinate of the edges UR to DF is below 20160 exactly where the six
/// sit outside the middle slice.
pub proof fn lemma_outside_slice(perm: Seq<int>)
    requires
        perm.len() == 12,
        is_arrangement(perm, 12),
    ensures
        ur_to_df_rank(perm) < NB_UR_TO_DF <==> (forall|i: int|
            8 <= i < 12 ==> #[trigger] perm[i] >= 6),
{
    let s = slots_of(perm, 0, 6);
    lemma_counts();
    lemma_ranked(perm, 12, 0, 6, false);
    lemma_rank_of_prefix(s, 12, 6, 8);
    if forall|i: int| 8 <= i < 12 ==> #[trigger] perm[i] >= 6 {
        assert forall|j: int| 8 <= j < 12 implies !is_tracked(#[trigger] s[j], 6) by {
            assert(perm[j] >= 6);
        }
    }
    if forall|j: int| 8 <= j < 12 ==> !is_tracked(#[trigger] s[j], 6) {
        assert forall|i: int| 8 <= i < 12 implies #[trigger] perm[i] >= 6 by {
            assert(!is_tracked(s[i], 6));
            assert(0 <= perm[i] < 12);
        }
    }
}

/// A slice-keeping move leads from a value of the coordinate of the edges FR
/// to BR at which they sit in the middle slice to such a value.
pub proof fn lemma_slice_step(x: int, m: Move)
    requires
        0 <= x < NB_SLICE,
        m.keeps_slice_spec(),
    ensures
        0 <= step(CoordinateKind::FrToBr, x, m) < NB_SLICE,
{
    let kind = CoordinateKind::FrToBr;
    let c0 = start_state(kind, x);
    let c1 = moved(kind, c0, m);
    lemma_counts();
    lemma_start_state(kind, x);
    lemma_moved_valid(kind, c0, m);
    lemma_moved_perm(kind, c0, m);
    lemma_ranked(c0.perm, 12, 0, 4, true);
    lemma_ranked(c1.perm, 12, 0, 4, true);
    let s0 = slots(kind, c0.perm);
    let s1 = slots(kind, c1.perm);
    lemma_rank_of_prefix(s0, 12, 4, 4);
    lemma_rank_of_prefix(s1, 12, 4, 4);
    assert forall|i: int| 4 <= i < 12 implies !is_tracked(#[trigger] s1[i], 4) by {
        lemma_slot_source(c0.perm, c1.perm, position_from(kind, m), 12, 0, 4, true, i);
        lemma_keeps_slice_positions(m, 11 - i);
        let j = slot_from(position_from(kind, m), 12, true, i);
        assert(4 <= j < 12);
        assert(!is_tracked(s0[j], 4));
    }
}

/// A slice-keeping move leads from a value of the coordinate of the edges UR
/// to DF at which they sit outside the middle slice to such a value.
pub proof fn lemma_ur_to_df_step(x: int, m: Move)
    requires
        0 <= x < NB_UR_TO_DF,
        m.keeps_slice_spec(),
    ensures
        0 <= step(CoordinateKind::UrToDf, x, m) < NB_UR_TO_DF,
{
    let kind = CoordinateKind::UrToDf;
    let c0 = start_state(kind, x);
    let c1 = moved(kind, c0, m);
    lemma_counts();
    lemma_start_state(kind, x);
    lemma_moved_valid(kind, c0, m);
    lemma_moved_perm(kind, c0, m);
    lemma_ranked(c0.perm, 12, 0, 6, false);
    lemma_ranked(c1.perm, 12, 0, 6, false);
    let s0 = slots(kind, c0.perm);
    let s1 = slots(kind, c1.perm);
    lemma_rank_of_prefix(s0, 12, 6, 8);
    lemma_rank_of_prefix(s1, 12, 6, 8);
    assert forall|i: int| 8 <= i < 12 implies !is_tracked(#[trigger] s1[i], 6) by {
        lemma_slot_source(c0.perm, c1.perm, position_from(kind, m), 12, 0, 6, false, i);
        lemma_keeps_slice_positions(m, i);
        let j = slot_from(position_from(kind, m), 12, false, i);
        assert(8 <= j < 12);
        assert(!is_tracked(s0[j], 6));
    }
}

/// A move table is closed: every entry is a row of the table. For the edges
/// UR to DF this holds of the columns of the slice-keeping moves.
pub proof fn lemma_table_closed(table: Seq<[u32; 18]>, kind: CoordinateKind, x: int, y: int)
    requires
        is_move_table(table, kind),
        0 <= x < domain(kind),
        0 <= y < 18,
        kind != CoordinateKind::UrToDf || keeps_slice_index(y),
    ensures
        0 <= table[x][y] < domain(kind),
{
    let m = Move::of_index(y);
    if kind == CoordinateKind::UrToDf {
        assert(m.keeps_slice_spec());
        lemma_ur_to_df_step(x, m);
    } else {
        lemma_step_in_span(kind, x, m);
    }
}

/// In a move table the column of a move and then the column of the move that
/// undoes it lead back to the row. For the edges UR to DF this holds of the
/// columns of the slice-keeping moves.
pub proof fn lemma_table_back(table: Seq<[u32; 18]>, kind: CoordinateKind, x: int, y: int)
    requires
        is_move_table(table, kind),
        0 <= x < domain(kind),
        0 <= y < 18,
        kind != CoordinateKind::UrToDf || keeps_slice_index(y),
    ensures
        0 <= table[x][y] < domain(kind),
        table[table[x][y] as int][Move::of_index(y).inverse_spec().index_spec()] == x,
{
    let m = Move::of_index(y);
    let back = m.inverse_spec();
    lemma_table_closed(table, kind, x, y);
    lemma_step_back(kind, x, m);
    assert(Move::of_index(back.index_spec()) == back);
    assert(0 <= back.index_spec() < 18);
}

/// The parity table leads from a parity to a parity, and a move followed by
/// the move that undoes it leads back.
pub proof fn lemma_parity_step(p: int, m: Move)
    requires
        0 <= p < 2,
    ensures
        0 <= parity_step(p, m.index_spec()) < 2,
        parity_step(parity_step(p, m.index_spec()), m.inverse_spec().index_spec()) == p,
{
}

/// The parity table follows the cube: the parity of a valid corner state
/// after a move is the table's entry for its parity before the move.
pub proof fn lemma_parity_follows_state(c: CubieState, m: Move)
    requires
        c.valid(8, 3),
    ensures
        parity_step(corner_parity_of(c.perm), m.index_spec()) == corner_parity_of(
            move_corners(c, m).perm,
        ),
{
    lemma_move_corners_parity(c, m);
}

/// The entry of the pruning table that stands for a cube.
pub open spec fn entry_of(c: CubeState) -> int {
    (24 * urf_to_dlf_rank(c.corners.perm) + fr_to_br_rank(c.edges.perm)) * 2 + corner_parity_of(
        c.corners.perm,
    )
}

/// Whether every move of a sequence keeps the middle-slice edges in their
/// slice.
pub open spec fn all_keep_slice(ms: Seq<Move>) -> bool {
    forall|i: int| 0 <= i < ms.len() ==> (#[trigger] ms[i]).keeps_slice_spec()
}

/// Whether the three move tables are what the steps of the coordinates say,
/// as far as the pruning table reads them.
pub open spec fn follows_steps(t: Transitions) -> bool {
    &&& t.slice.len() >= 24
    &&& t.corners.len() >= 20160
    &&& t.parity.len() == 2
    &&& forall|x: int, y: int|
        0 <= x < 24 && 0 <= y < 18 ==> #[trigger] t.slice[x][y] == step(
            CoordinateKind::FrToBr,
            x,
            Move::of_index(y),
        )
    &&& forall|x: int, y: int|
        0 <= x < 20160 && 0 <= y < 18 ==> #[trigger] t.corners[x][y] == step(
            CoordinateKind::UrfToDlf,
            x,
            Move::of_index(y),
        )
    &&& forall|p: int, y: int|
        0 <= p < 2 && 0 <= y < 18 ==> #[trigger] t.parity[p][y] == parity_step(p, y)
}

/// The solved cube stands at the entry 0 of the pruning table.
pub proof fn lemma_entry_of_solved()
    ensures
        entry_of(CubeState::solved()) == 0,
{
    let corners = CubieState::solved(8).perm;
    let edges = CubieState::solved(12).perm;
    assert(slots_of(corners, 0, 6) =~= home_slots(8, 6));
    assert(mirrored(edges) =~= edges);
    assert(slots_of(mirrored(edges), 0, 4) =~= home_slots(12, 4));
    lemma_home_rank(8, 6);
    lemma_home_rank(12, 4);
    lemma_inversions8(corners);
    reveal(above);
    assert(inversions8(corners) == 0);
}

/// The pruning table's step follows the cube: a slice-keeping move leads from
/// the entry of a valid cube whose middle-slice edges sit in their slice to
/// the entry of the cube after the move, and the edges stay in their slice.
pub proof fn lemma_entry_follows_cube(t: Transitions, c: CubeState, m: Move)
    requires
        follows_steps(t),
        c.valid(),
        fr_to_br_rank(c.edges.perm) < NB_SLICE,
        m.keeps_slice_spec(),
    ensures
        0 <= entry_of(c) < NB_PRUNING,
        keeps_slice_index(m.index_spec()),
        t.successor(entry_of(c), m.index_spec()) == entry_of(move_cube(c, m)),
        0 <= entry_of(move_cube(c, m)) < NB_PRUNING,
        fr_to_br_rank(move_cube(c, m).edges.perm) < NB_SLICE,
        move_cube(c, m).valid(),
{
    let slice = fr_to_br_rank(c.edges.perm) as int;
    let corners = urf_to_dlf_rank(c.corners.perm) as int;
    let parity = corner_parity_of(c.corners.perm);
    let y = m.index_spec();
    assert(Move::of_index(y) == m);
    lemma_move_cube(c, m);
    lemma_rank_in_span(CoordinateKind::UrfToDlf, c.corners);
    lemma_rank_in_span(CoordinateKind::UrfToDlf, move_cube(c, m).corners);
    lemma_step_follows_state(CoordinateKind::FrToBr, c.edges, m);
    lemma_step_follows_state(CoordinateKind::UrfToDlf, c.corners, m);
    lemma_slice_step(slice, m);
    lemma_move_corners_parity(c.corners, m);
    let x = entry_of(c);
    assert(x % 2 == parity && (x / 2) % 24 == slice && (x / 2) / 24 == corners);
    assert(t.slice[slice][y] == step(CoordinateKind::FrToBr, slice, m));
    assert(t.corners[corners][y] == step(CoordinateKind::UrfToDlf, corners, m));
    assert(t.parity[parity][y] == parity_step(parity, y));
}

/// A sequence of slice-keeping moves leads from the entry 0 of the pruning
/// table to the entry of the cube that the moves make of the solved cube.
pub proof fn lemma_moves_reach_entry(t: Transitions, ms: Seq<Move>)
    requires
        follows_steps(t),
        all_keep_slice(ms),
    ensures
        apply_moves(CubeState::solved(), ms).valid(),
        fr_to_br_rank(apply_moves(CubeState::solved(), ms).edges.perm) < NB_SLICE,
        0 <= entry_of(apply_moves(CubeState::solved(), ms)) < NB_PRUNING,
        t.reached(entry_of(apply_moves(CubeState::solved(), ms)), ms.len()),
    decreases ms.len(),
{
    if ms.len() == 0 {
        lemma_entry_of_solved();
        lemma_pigeonhole(CubieState::solved(8).perm, 8);
        lemma_pigeonhole(CubieState::solved(12).perm, 12);
        let edges = CubieState::solved(12).perm;
        assert(mirrored(edges) =~= edges);
        assert(slots_of(mirrored(edges), 0, 4) =~= home_slots(12, 4));
        lemma_home_rank(12, 4);
    } else {
        let before = apply_moves(CubeState::solved(), ms.drop_last());
        let m = ms.last();
        assert(all_keep_slice(ms.drop_last())) by {
            assert forall|i: int| 0 <= i < ms.drop_last().len() implies (
            #[trigger] ms.drop_last()[i]).keeps_slice_spec() by {
                assert(ms.drop_last()[i] == ms[i]);
            }
        }
        lemma_moves_reach_entry(t, ms.drop_last());
        lemma_entry_follows_cube(t, before, m);
        assert(t.successor(entry_of(before), m.index_spec()) == entry_of(move_cube(before, m)));
    }
}

/// The pruning table is a lower bound: its entry for the cube that a
/// sequence of slice-keeping moves makes of the solved cube is at most the
/// number of the moves; and where the entry holds no distance, the moves are
/// more than 14.
pub proof fn lemma_pruning_is_lower_bound(c: Coordinate, ms: Seq<Move>)
    requires
        c.wf(),
        c.tables_built(),
        all_keep_slice(ms),
    ensures
        0 <= entry_of(apply_moves(CubeState::solved(), ms)) < NB_PRUNING,
        nibble(c.urf_to_dlf_parity_prun@, entry_of(apply_moves(CubeState::solved(), ms)))
            != UNVISITED ==> nibble(
            c.urf_to_dlf_parity_prun@,
            entry_of(apply_moves(CubeState::solved(), ms)),
        ) <= ms.len(),
        nibble(c.urf_to_dlf_parity_prun@, entry_of(apply_moves(CubeState::solved(), ms)))
            == UNVISITED ==> ms.len() > MAX_DEPTH,
{
    let t = c.transitions();
    assert(follows_steps(t));
    lemma_moves_reach_entry(t, ms);
    let x = entry_of(apply_moves(CubeState::solved(), ms));
    let v = nibble(c.urf_to_dlf_parity_prun@, x);
    if v != UNVISITED {
        assert(t.distance_is(x, v as nat));
        if ms.len() < v {
            assert(!t.reached(x, ms.len()));
        }
    } else if ms.len() <= MAX_DEPTH {
        assert(!t.reached(x, ms.len()));
    }
}

} // verus!
