//! Merging the coordinate of the edges UR to UL and the coordinate of the
//! edges UB to DF into the coordinate of the edges UR to DF, while all six
//! sit outside the middle slice.

use vstd::prelude::*;
use crate::cubies::{lemma_entries_of_slots, lemma_ranked, lemma_slots_by_entries, slots_of};
use crate::edges::{NB_UR_TO_DF, ub_to_df_rank, ur_to_df_rank, ur_to_ul_rank};
use crate::ranking::{
    arrangement_rank, arrangement_rank_of, arrangement_unrank, arrangement_unrank_of, as_ints,
    is_arrangement, is_slots, is_tracked, lemma_counts, lemma_rank_of_prefix,
    lemma_unrank_then_rank,
};

verus! {

/// The number of values of each of the two coordinates that are merged:
/// `8 * 7 * 6`, the arrangements of three edges outside the middle slice.
pub const NB_MERGE: usize = 336;

/// What stands in the merge table for two coordinates that cannot both hold
/// of one cube.
pub const INVALID: i16 = -1;

/// The slots of the edges UR to UL for the coordinate `a`.
pub open spec fn first_slots(a: nat) -> Seq<int> {
    arrangement_unrank(12, 3, a)
}

/// The slots of the edges UB to DF for the coordinate `b`.
pub open spec fn second_slots(b: nat) -> Seq<int> {
    arrangement_unrank(12, 3, b)
}

/// Whether some position is taken by one of the edges UR to UL for the
/// coordinate `a` and by one of the edges UB to DF for the coordinate `b`.
pub open spec fn overlapping(a: nat, b: nat) -> bool {
    exists|i: int|
        0 <= i < 12 && is_tracked(#[trigger] first_slots(a)[i], 3) && is_tracked(
            second_slots(b)[i],
            3,
        )
}

/// The slots of the six edges UR to DF that put the first three where `a`
/// puts them and the other three where `b` puts them.
pub open spec fn merged_slots(a: nat, b: nat) -> Seq<int> {
    Seq::new(
        12,
        |i: int|
            if is_tracked(first_slots(a)[i], 3) {
                first_slots(a)[i]
            } else if is_tracked(second_slots(b)[i], 3) {
                3 + second_slots(b)[i]
            } else {
                6
            },
    )
}

/// The entry of the merge table: the coordinate of the edges UR to DF, or
/// `INVALID` where the two coordinates put two edges at one position.
pub open spec fn merged_rank(a: nat, b: nat) -> int {
    if overlapping(a, b) {
        INVALID as int
    } else {
        arrangement_rank(merged_slots(a, b), 6) as int
    }
}

/// Two coordinates below 336 that do not overlap merge into the slots of six
/// edges outside the middle slice, whose coordinate is below 20160.
pub proof fn lemma_merged_slots(a: nat, b: nat)
    requires
        a < NB_MERGE,
        b < NB_MERGE,
        !overlapping(a, b),
    ensures
        is_slots(merged_slots(a, b), 12, 6),
        arrangement_rank(merged_slots(a, b), 6) < NB_UR_TO_DF,
{
    let s1 = first_slots(a);
    let s2 = second_slots(b);
    let m = merged_slots(a, b);
    lemma_counts();
    lemma_unrank_then_rank(12, 3, a);
    lemma_unrank_then_rank(12, 3, b);
    lemma_entries_of_slots(s1, 12, 3);
    lemma_entries_of_slots(s2, 12, 3);
    lemma_rank_of_prefix(s1, 12, 3, 8);
    lemma_rank_of_prefix(s2, 12, 3, 8);
    assert forall|v: int| 0 <= v < 6 implies m.contains(v) by {
        if v < 3 {
            assert(s1.contains(v));
            let i = choose|i: int| 0 <= i < s1.len() && s1[i] == v;
            assert(m[i] == v);
        } else {
            assert(s2.contains(v - 3));
            let i = choose|i: int| 0 <= i < s2.len() && s2[i] == v - 3;
            assert(!is_tracked(s1[i], 3));
            assert(m[i] == v);
        }
    }
    assert forall|i: int, j: int| 0 <= i < j < 12 && is_tracked(m[i], 6) implies m[i] != m[j] by {
        assert(0 <= s1[i] <= 3 && 0 <= s1[j] <= 3 && 0 <= s2[i] <= 3 && 0 <= s2[j] <= 3);
    }
    lemma_slots_by_entries(m, 12, 6);
    lemma_rank_of_prefix(m, 12, 6, 8);
}

/// The merge agrees with the cube: where the edges UR to UL and the edges UB
/// to DF of an arrangement of the edges have coordinates below 336, these do
/// not overlap and merge into the arrangement's coordinate of the edges UR to
/// DF.
pub proof fn lemma_merge_agrees(perm: Seq<int>)
    requires
        perm.len() == 12,
        is_arrangement(perm, 12),
        ur_to_ul_rank(perm) < NB_MERGE,
        ub_to_df_rank(perm) < NB_MERGE,
    ensures
        !overlapping(ur_to_ul_rank(perm), ub_to_df_rank(perm)),
        merged_rank(ur_to_ul_rank(perm), ub_to_df_rank(perm)) == ur_to_df_rank(perm),
{
    let a = ur_to_ul_rank(perm);
    let b = ub_to_df_rank(perm);
    lemma_ranked(perm, 12, 0, 3, false);
    lemma_ranked(perm, 12, 3, 3, false);
    assert(first_slots(a) == slots_of(perm, 0, 3));
    assert(second_slots(b) == slots_of(perm, 3, 3));
    assert(merged_slots(a, b) =~= slots_of(perm, 0, 6));
}

/// The coordinate of the edges UR to DF of a cube whose coordinate of the
/// edges UR to UL is `ur_to_ul` and whose coordinate of the edges UB to DF is
/// `ub_to_df`, or `INVALID` where there is no such cube.
pub fn merge_ur_to_df(ur_to_ul: u32, ub_to_df: u32) -> (r: i16)
    requires
        ur_to_ul < NB_MERGE,
        ub_to_df < NB_MERGE,
    ensures
        r == merged_rank(ur_to_ul as nat, ub_to_df as nat),
        r == INVALID <==> overlapping(ur_to_ul as nat, ub_to_df as nat),
        r != INVALID ==> 0 <= r < NB_UR_TO_DF,
{
    proof {
        lemma_counts();
    }
    let first = arrangement_unrank_of(12, 3, ur_to_ul);
    let second = arrangement_unrank_of(12, 3, ub_to_df);
    let ghost s1 = first_slots(ur_to_ul as nat);
    let ghost s2 = second_slots(ub_to_df as nat);
    let ghost m = merged_slots(ur_to_ul as nat, ub_to_df as nat);
    let mut merged: Vec<u8> = Vec::new();
    let mut clash = false;
    let mut i: usize = 0;
    while i < 12
        invariant
            i <= 12,
            first@.len() == 12,
            second@.len() == 12,
            as_ints(first@) == s1,
            as_ints(second@) == s2,
            s1 == first_slots(ur_to_ul as nat),
            s2 == second_slots(ub_to_df as nat),
            m == merged_slots(ur_to_ul as nat, ub_to_df as nat),
            merged@.len() == i,
            forall|j: int| 0 <= j < i ==> merged@[j] as int == m[j],
            clash <==> exists|j: int|
                0 <= j < i && is_tracked(#[trigger] s1[j], 3) && is_tracked(s2[j], 3),
        decreases 12 - i,
    {
        let v1 = first[i];
        let v2 = second[i];
        assert(v1 as int == s1[i as int] && v2 as int == s2[i as int]);
        if v1 < 3 {
            if v2 < 3 {
                clash = true;
            }
            merged.push(v1);
        } else if v2 < 3 {
            merged.push(3 + v2);
        } else {
            merged.push(6);
        }
        i += 1;
    }
    if clash {
        return INVALID;
    }
    proof {
        assert(as_ints(merged@) =~= m);
        lemma_merged_slots(ur_to_ul as nat, ub_to_df as nat);
    }
    arrangement_rank_of(&merged, 6) as i16
}

/// Builds the merge table: the row is the coordinate of the edges UR to UL,
/// the column the coordinate of the edges UB to DF.
pub fn build_merge_table() -> (table: Vec<[i16; 336]>)
    ensures
        is_merge_table(table@),
{
    let mut table: Vec<[i16; 336]> = Vec::new();
    let mut ur_to_ul: usize = 0;
    while ur_to_ul < NB_MERGE
        invariant
            ur_to_ul <= NB_MERGE,
            table@.len() == ur_to_ul,
            forall|a: int, b: int|
                0 <= a < ur_to_ul && 0 <= b < NB_MERGE ==> #[trigger] table@[a][b] == merged_rank(
                    a as nat,
                    b as nat,
                ),
        decreases NB_MERGE - ur_to_ul,
    {
        let mut row: [i16; 336] = [0; 336];
        let mut ub_to_df: usize = 0;
        while ub_to_df < NB_MERGE
            invariant
                ub_to_df <= NB_MERGE,
                ur_to_ul < NB_MERGE,
                forall|b: int|
                    0 <= b < ub_to_df ==> #[trigger] row@[b] == merged_rank(
                        ur_to_ul as nat,
                        b as nat,
                    ),
            decreases NB_MERGE - ub_to_df,
        {
            row[ub_to_df] = merge_ur_to_df(ur_to_ul as u32, ub_to_df as u32);
            ub_to_df += 1;
        }
        table.push(row);
        ur_to_ul += 1;
    }
    table
}

/// Whether `table` is the merge table.
pub open spec fn is_merge_table(table: Seq<[i16; 336]>) -> bool {
    &&& table.len() == NB_MERGE
    &&& forall|a: int, b: int|
        0 <= a < NB_MERGE && 0 <= b < NB_MERGE ==> #[trigger] table[a][b] == merged_rank(
            a as nat,
            b as nat,
        )
}

} // verus!
