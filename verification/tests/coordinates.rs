use cube_tables::coordinate::Coordinate;
use cube_tables::corners::Corners;
use cube_tables::cube::Cube;
use cube_tables::cubies::{complete_from, mirror_of, slots_from};
use cube_tables::edges::Edges;
use cube_tables::merge::merge_ur_to_df;
use cube_tables::moves::{Move, UserMove};
use cube_tables::ranking::{
    arrangement_rank_of, arrangement_unrank_of, binomial_of, factorial_of, order_rank_of,
    order_unrank_of,
};

fn scrambled(text: &str) -> Cube {
    Cube::from_shuffle_sequence(&UserMove::sequence_from_str(text).unwrap())
}

fn coordinates(text: &str) -> [u32; 8] {
    let c = Coordinate::from_cube(&scrambled(text));
    [c.twist, c.flip, c.parity, c.fr_to_br, c.urf_to_dlf, c.ur_to_ul, c.ub_to_df, c.ur_to_df]
}

#[test]
fn solved_coordinates() {
    assert_eq!(coordinates(""), [0, 0, 0, 0, 0, 0, 114, 0]);
}

#[test]
fn coordinates_of_scrambles() {
    assert_eq!(coordinates("F R2 U'"), [1623, 1058, 0, 8509, 6761, 1034, 534, 426553]);
    assert_eq!(coordinates("R"), [1494, 0, 1, 8824, 6265, 1006, 415, 379238]);
    assert_eq!(coordinates("U"), [0, 0, 1, 0, 90, 18, 96, 90]);
    assert_eq!(coordinates("F"), [1236, 550, 1, 5521, 514, 343, 558, 103116]);
    assert_eq!(coordinates("D"), [0, 0, 1, 0, 5041, 0, 265, 5041]);
    assert_eq!(coordinates("L"), [412, 0, 1, 3342, 3036, 504, 114, 62677]);
    assert_eq!(coordinates("B"), [137, 137, 1, 1918, 2197, 0, 808, 152647]);
    assert_eq!(coordinates("R U R' U'"), [1530, 0, 0, 7920, 564, 22, 424, 24247]);
    assert_eq!(coordinates("F R U' L2 D B'"), [1476, 1097, 1, 8809, 8513, 1124, 416, 408550]);
    assert_eq!(coordinates("U2 D2 R2 L2 F2 B2"), [0, 0, 0, 10, 0, 326, 94, 19768]);
    assert_eq!(coordinates("R2 U D' F2"), [0, 0, 0, 15, 1530, 18, 180, 1530]);
    assert_eq!(coordinates("U R2 D' F2 L2 U2 B2 D"), [0, 0, 1, 2, 19316, 104, 131, 2423]);
}

#[test]
fn cube_coordinates_agree_with_from_cube() {
    let cube = scrambled("F R2 U' B L D2");
    let c = Coordinate::from_cube(&cube);
    assert_eq!(c.twist, cube.twist());
    assert_eq!(c.flip, cube.flip());
    assert_eq!(c.parity, cube.corner_parity());
    assert_eq!(c.fr_to_br, cube.fr_to_br());
    assert_eq!(c.urf_to_dlf, cube.urf_to_dlf());
    assert_eq!(c.ur_to_ul, cube.ur_to_ul());
    assert_eq!(c.ub_to_df, cube.ub_to_df());
    assert_eq!(c.ur_to_df, cube.ur_to_df());
    assert_eq!(c.twist_move.len(), 2187);
    assert_eq!(c.flip_move.len(), 2048);
    assert_eq!(c.fr_to_br_move.len(), 11880);
    assert_eq!(c.urf_to_dlf_move.len(), 20160);
    assert_eq!(c.ur_to_ul_move.len(), 1320);
    assert_eq!(c.ub_to_df_move.len(), 1320);
    assert_eq!(c.ur_to_df_move.len(), 20160);
    assert_eq!(c.merge_ur_to_ul_and_ub_to_df.len(), 336);
    assert_eq!(c.urf_to_dlf_parity_prun.len(), 483840);
    assert_eq!(c.parity_move[0], [1, 0, 1, 1, 0, 1, 1, 0, 1, 1, 0, 1, 1, 0, 1, 1, 0, 1]);
    assert_eq!(c.parity_move[1], [0, 1, 0, 0, 1, 0, 0, 1, 0, 0, 1, 0, 0, 1, 0, 0, 1, 0]);
}

#[test]
fn twist_round_trip() {
    let mut cube = scrambled("R U F");
    let corners = cube.corners.permutations;
    for x in 0..2187 {
        cube.set_twist(x);
        assert_eq!(cube.twist(), x);
        assert_eq!(cube.corners.permutations, corners);
        let sum: u32 = cube.corners.orientations.iter().map(|o| *o as u32).sum();
        assert_eq!(sum % 3, 0);
    }
    cube.set_twist(1623);
    assert_eq!(cube.corners.orientations, [2, 0, 2, 0, 0, 1, 0, 1]);
    cube.set_twist(2186);
    assert_eq!(cube.corners.orientations, [2, 2, 2, 2, 2, 2, 2, 1]);
    cube.set_twist(1);
    assert_eq!(cube.corners.orientations, [0, 0, 0, 0, 0, 0, 1, 2]);
}

#[test]
fn flip_round_trip() {
    let mut cube = scrambled("R U F");
    let edges = cube.edges.permutations;
    for x in 0..2048 {
        cube.set_flip(x);
        assert_eq!(cube.flip(), x);
        assert_eq!(cube.edges.permutations, edges);
        let sum: u32 = cube.edges.orientations.iter().map(|o| *o as u32).sum();
        assert_eq!(sum % 2, 0);
    }
    cube.set_flip(1);
    assert_eq!(cube.edges.orientations, [0, 0, 0, 0, 0, 0, 0, 0, 0, 0, 1, 1]);
    cube.set_flip(1058);
    assert_eq!(cube.edges.orientations, [1, 0, 0, 0, 0, 1, 0, 0, 0, 1, 0, 1]);
}

fn is_arrangement(numbers: &[u8]) -> bool {
    let mut seen = vec![false; numbers.len()];
    for v in numbers {
        if (*v as usize) >= numbers.len() || seen[*v as usize] {
            return false;
        }
        seen[*v as usize] = true;
    }
    true
}

#[test]
fn urf_to_dlf_round_trip() {
    let mut cube = scrambled("R U F");
    let twists = cube.corners.orientations;
    for x in 0..20160 {
        cube.set_urf_to_dlf(x);
        assert_eq!(cube.urf_to_dlf(), x);
        assert_eq!(cube.corners.orientations, twists);
        assert!(is_arrangement(&cube.corners.numbers()));
    }
    cube.set_urf_to_dlf(12345);
    assert_eq!(cube.corners.numbers(), vec![6, 3, 0, 5, 4, 7, 1, 2]);
    cube.set_urf_to_dlf(0);
    assert_eq!(cube.corners.permutations, Corners::new().permutations);
}

#[test]
fn fr_to_br_round_trip() {
    let mut cube = Cube::new();
    for x in 0..11880 {
        cube.set_fr_to_br(x);
        assert_eq!(cube.fr_to_br(), x);
        assert!(is_arrangement(&cube.edges.numbers()));
        let in_slice = cube.edges.numbers()[8..].iter().all(|v| *v >= 8);
        assert_eq!(in_slice, x < 24);
    }
    cube.set_fr_to_br(8509);
    assert_eq!(cube.edges.numbers(), vec![9, 0, 1, 2, 3, 8, 4, 5, 11, 6, 10, 7]);
    cube.set_fr_to_br(0);
    assert_eq!(cube.edges, Edges::new());
}

#[test]
fn ur_to_ul_round_trip() {
    let mut cube = Cube::new();
    for x in 0..1320 {
        cube.set_ur_to_ul(x);
        assert_eq!(cube.ur_to_ul(), x);
        assert!(is_arrangement(&cube.edges.numbers()));
        let outside = cube.edges.numbers()[8..].iter().all(|v| *v >= 3);
        assert_eq!(outside, x < 336);
    }
    cube.set_ur_to_ul(0);
    assert_eq!(cube.edges, Edges::new());
}

#[test]
fn ub_to_df_round_trip() {
    let mut cube = Cube::new();
    for x in 0..1320 {
        cube.set_ub_to_df(x);
        assert_eq!(cube.ub_to_df(), x);
        assert!(is_arrangement(&cube.edges.numbers()));
    }
    cube.set_ub_to_df(534);
    assert_eq!(cube.edges.numbers(), vec![0, 1, 3, 4, 2, 6, 7, 8, 9, 5, 10, 11]);
    cube.set_ub_to_df(114);
    assert_eq!(cube.edges, Edges::new());
}

#[test]
fn ur_to_df_round_trip() {
    let mut cube = Cube::new();
    for x in 0..20160 {
        cube.set_ur_to_df(x);
        assert_eq!(cube.ur_to_df(), x);
        assert!(cube.edges.numbers()[8..].iter().all(|v| *v >= 6));
    }
    let mut x = 20160;
    while x < 665280 {
        cube.set_ur_to_df(x);
        assert_eq!(cube.ur_to_df(), x);
        assert!(is_arrangement(&cube.edges.numbers()));
        assert!(cube.edges.numbers()[8..].iter().any(|v| *v < 6));
        x += 37;
    }
    cube.set_ur_to_df(665279);
    assert_eq!(cube.ur_to_df(), 665279);
}

#[test]
fn parity_changes_with_quarter_turns() {
    let mut cube = Cube::new();
    assert_eq!(cube.corner_parity(), 0);
    let c = Coordinate::from_cube(&cube);
    let mut parity = 0usize;
    for m in UserMove::sequence_from_str("R U2 F' L2 D B R2 U' F2 L D'").unwrap() {
        cube.apply_move(m);
        parity = c.parity_move[parity][m.index()] as usize;
        assert_eq!(cube.corner_parity() as usize, parity);
    }
    assert_eq!(Cube::from_shuffle_sequence(&vec![Move::Up2]).corner_parity(), 0);
    assert_eq!(Cube::from_shuffle_sequence(&vec![Move::UpPrime]).corner_parity(), 1);
}

#[test]
fn binomials_and_factorials() {
    assert_eq!(binomial_of(0, 0), 1);
    assert_eq!(binomial_of(0, 1), 0);
    assert_eq!(binomial_of(12, 0), 1);
    assert_eq!(binomial_of(12, 6), 924);
    assert_eq!(binomial_of(12, 4), 495);
    assert_eq!(binomial_of(12, 3), 220);
    assert_eq!(binomial_of(8, 6), 28);
    assert_eq!(binomial_of(5, 7), 0);
    assert_eq!(binomial_of(12, 12), 1);
    for n in 1..=12 {
        for k in 1..=12 {
            assert_eq!(binomial_of(n, k), binomial_of(n - 1, k - 1) + binomial_of(n - 1, k));
        }
    }
    assert_eq!(
        (0..=6).map(factorial_of).collect::<Vec<u32>>(),
        vec![1, 1, 2, 6, 24, 120, 720]
    );
}

#[test]
fn order_ranks() {
    assert_eq!(order_rank_of(vec![]), 0);
    assert_eq!(order_rank_of(vec![0, 1, 2, 3]), 0);
    assert_eq!(order_rank_of(vec![3, 2, 1, 0]), 23);
    assert_eq!(order_rank_of(vec![1, 0, 2]), 3);
    assert_eq!(order_unrank_of(4, 23), vec![3, 2, 1, 0]);
    assert_eq!(order_unrank_of(4, 1), vec![0, 1, 3, 2]);
    assert_eq!(order_unrank_of(6, 719), vec![5, 4, 3, 2, 1, 0]);
    assert_eq!(order_unrank_of(6, 500), vec![1, 4, 2, 5, 0, 3]);
    assert_eq!(order_unrank_of(0, 0), Vec::<u8>::new());
    for k in 0..=6 {
        for b in 0..factorial_of(k) {
            assert_eq!(order_rank_of(order_unrank_of(k, b)), b);
        }
    }
}

#[test]
fn arrangement_ranks() {
    assert_eq!(arrangement_unrank_of(8, 6, 12345), vec![6, 3, 0, 5, 4, 6, 1, 2]);
    assert_eq!(arrangement_rank_of(&vec![6, 3, 0, 5, 4, 6, 1, 2], 6), 12345);
    assert_eq!(arrangement_unrank_of(8, 6, 0), vec![0, 1, 2, 3, 4, 5, 6, 6]);
    assert_eq!(arrangement_unrank_of(12, 3, 114), vec![3, 3, 3, 0, 1, 2, 3, 3, 3, 3, 3, 3]);
    assert_eq!(arrangement_rank_of(&vec![4, 4, 4, 4, 4, 4, 4, 4, 3, 2, 1, 0], 4), 11879);
    assert_eq!(arrangement_unrank_of(12, 4, 11879), vec![4, 4, 4, 4, 4, 4, 4, 4, 3, 2, 1, 0]);
    assert_eq!(arrangement_unrank_of(3, 0, 0), vec![0, 0, 0]);
    assert_eq!(arrangement_rank_of(&vec![0, 0, 0], 0), 0);
}

#[test]
fn slots_and_completion() {
    let numbers: Vec<u8> = vec![9, 0, 1, 2, 3, 8, 4, 5, 11, 6, 10, 7];
    assert_eq!(slots_from(&numbers, 0, 3), vec![3, 0, 1, 2, 3, 3, 3, 3, 3, 3, 3, 3]);
    assert_eq!(slots_from(&numbers, 3, 3), vec![3, 3, 3, 3, 0, 3, 1, 2, 3, 3, 3, 3]);
    assert_eq!(mirror_of(&numbers), vec![4, 1, 5, 0, 6, 7, 3, 8, 9, 10, 11, 2]);
    assert_eq!(mirror_of(&mirror_of(&numbers)), numbers);
    assert_eq!(slots_from(&mirror_of(&numbers), 0, 4), vec![4, 1, 4, 0, 4, 4, 3, 4, 4, 4, 4, 2]);
    let slots: Vec<u8> = vec![3, 3, 3, 3, 0, 3, 1, 2, 3, 3, 3, 3];
    assert_eq!(complete_from(&slots, 3, 3), vec![0, 1, 2, 6, 3, 7, 4, 5, 8, 9, 10, 11]);
    assert_eq!(slots_from(&complete_from(&slots, 3, 3), 3, 3), slots);
}

#[test]
fn merge_of_two_coordinates() {
    assert_eq!(merge_ur_to_df(0, 114), 0);
    assert_eq!(merge_ur_to_df(0, 0), -1);
    assert_eq!(merge_ur_to_df(335, 0), 13671);
    assert_eq!(merge_ur_to_df(18, 96), 90);
    assert_eq!(merge_ur_to_df(326, 94), 19768);
    assert_eq!(merge_ur_to_df(100, 200), -1);
    assert_eq!(merge_ur_to_df(335, 335), -1);
    assert_eq!(merge_ur_to_df(7, 8), -1);
    assert_eq!(Cube::ur_to_uf_standalone(18, 96), 90);
    assert_eq!(Cube::ur_to_uf_standalone(0, 0), -1);
}

#[test]
fn merge_counts() {
    let mut valid = 0;
    let mut greatest = -1;
    for a in 0..336 {
        for b in 0..336 {
            let m = merge_ur_to_df(a, b);
            assert!(m >= -1 && m < 20160);
            if m >= 0 {
                valid += 1;
            }
            if m > greatest {
                greatest = m;
            }
        }
    }
    assert_eq!(valid, 20160);
    assert_eq!(greatest, 20159);
}

#[test]
fn merge_agrees_with_cubes() {
    let mut cube = Cube::new();
    let mut seed: u32 = 4711;
    let kept: Vec<Move> = (0..18).map(Move::from_index).filter(|m| m.keeps_slice()).collect();
    for _ in 0..3000 {
        seed = seed.wrapping_mul(1103515245).wrapping_add(12345);
        cube.apply_move(kept[((seed >> 16) % 10) as usize]);
        let a = cube.ur_to_ul();
        let b = cube.ub_to_df();
        assert!(a < 336 && b < 336);
        assert!(cube.fr_to_br() < 24);
        assert!(cube.ur_to_df() < 20160);
        assert_eq!(merge_ur_to_df(a, b) as u32, cube.ur_to_df());
        assert_eq!(cube.twist(), 0);
        assert_eq!(cube.flip(), 0);
    }
}
