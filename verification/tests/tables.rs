use cube_tables::cache::cache_entry;
use cube_tables::coordinate::{simulate, zero_table, Coordinate, CoordinateKind};
use cube_tables::cube::Cube;
use cube_tables::moves::Move;
use cube_tables::pruning::{fill_pruning, NB_PRUNING, UNVISITED};

fn fresh() -> Coordinate {
    Coordinate::from_cube(&Cube::new())
}

fn check_table(table: &Vec<[u32; 18]>, kind: CoordinateKind, rows: usize, closed: bool) {
    assert_eq!(table.len(), rows);
    for x in 0..rows {
        for y in 0..18 {
            let m = Move::from_index(y);
            let next = table[x][y] as usize;
            if closed || m.keeps_slice() {
                assert!(next < rows);
                assert_eq!(table[next][m.inverse().index()] as usize, x);
            }
        }
    }
    let mut x = 0;
    while x < rows {
        for y in 0..18 {
            assert_eq!(table[x][y], simulate(kind, x as u32, Move::from_index(y)));
        }
        x += 97;
    }
}

#[test]
fn twist_move_table() {
    let mut c = fresh();
    c.init_twist_move();
    check_table(&c.twist_move, CoordinateKind::Twist, 2187, true);
    assert_eq!(
        c.twist_move[0],
        [0, 0, 0, 1494, 0, 1494, 1236, 0, 1236, 0, 0, 0, 412, 0, 412, 137, 0, 137]
    );
    assert_eq!(
        c.twist_move[2186],
        [2186, 2186, 2186, 1403, 1457, 1439, 470, 2186, 470, 2185, 2183, 2177, 1614, 2186, 1614, 1969, 2105, 1995]
    );
    assert_eq!(
        c.twist_move[1000],
        [1054, 352, 838, 1756, 1711, 262, 1975, 40, 781, 1004, 1014, 1017, 1000, 1000, 1000, 1163, 1162, 1189]
    );
}

#[test]
fn flip_move_table() {
    let mut c = fresh();
    c.init_flip_move();
    check_table(&c.flip_move, CoordinateKind::Flip, 2048, true);
    assert_eq!(c.flip_move[0], [0, 0, 0, 0, 0, 0, 550, 0, 550, 0, 0, 0, 0, 0, 0, 137, 0, 137]);
}

#[test]
fn fr_to_br_move_table() {
    let mut c = fresh();
    c.init_fr_to_br_move();
    check_table(&c.fr_to_br_move, CoordinateKind::FrToBr, 11880, true);
    assert_eq!(
        c.fr_to_br_move[0],
        [0, 0, 0, 8824, 19, 8825, 5521, 1, 5520, 0, 0, 0, 3342, 4, 3338, 1918, 12, 1906]
    );
    assert_eq!(
        c.fr_to_br_move[23],
        [23, 23, 23, 8829, 4, 8828, 5531, 11, 5543, 23, 23, 23, 3339, 19, 3343, 1908, 22, 1909]
    );
    for x in 0..24 {
        for y in 0..18 {
            assert_eq!(c.fr_to_br_move[x][y] < 24, Move::from_index(y).keeps_slice());
        }
    }
}

#[test]
fn urf_to_dlf_move_table() {
    let mut c = fresh();
    c.init_urf_to_dlf_move();
    check_table(&c.urf_to_dlf_move, CoordinateKind::UrfToDlf, 20160, true);
    assert_eq!(
        c.urf_to_dlf_move[0],
        [90, 300, 510, 6265, 9163, 7051, 514, 689, 175, 5041, 9360, 1440, 3036, 3796, 760, 2197, 15884, 7207]
    );
    assert_eq!(
        c.urf_to_dlf_move[20159],
        [18718, 16559, 17999, 16774, 3796, 14548, 15802, 10035, 12232, 20069, 19859, 19649, 12803, 9163, 19399, 19645, 19470, 19984]
    );
    assert_eq!(
        c.urf_to_dlf_move[12345],
        [11627, 10876, 10185, 10314, 1027, 9575, 14505, 12327, 14487, 15213, 4413, 8859, 8685, 19132, 19912, 12586, 12937, 12696]
    );
}

#[test]
fn ur_to_ul_move_table() {
    let mut c = fresh();
    c.init_ur_to_ul_move();
    check_table(&c.ur_to_ul_move, CoordinateKind::UrToUl, 1320, true);
    assert_eq!(c.ur_to_ul_move[0][0], 18);
    assert_eq!(c.ur_to_ul_move[0][3], 1006);
}

#[test]
fn ub_to_df_move_table() {
    let mut c = fresh();
    c.init_ub_to_df_move();
    check_table(&c.ub_to_df_move, CoordinateKind::UbToDf, 1320, true);
    assert_eq!(c.ub_to_df_move[114][0], 96);
    assert_eq!(c.ub_to_df_move[114][9], 265);
    assert_eq!(c.ub_to_df_move[114][12], 114);
}

#[test]
fn ur_to_df_move_table() {
    let mut c = fresh();
    c.init_ur_to_df_move();
    check_table(&c.ur_to_df_move, CoordinateKind::UrToDf, 20160, false);
    assert_eq!(c.ur_to_df_move[0][0], 90);
    assert_eq!(c.ur_to_df_move[0][9], 5041);
    assert_eq!(c.ur_to_df_move[0][3], 379238);
    assert_eq!(c.ur_to_df_move[0][6], 103116);
    assert_eq!(simulate(CoordinateKind::UrToDf, 0, Move::Back), 152647);
}

#[test]
fn merge_table() {
    let mut c = fresh();
    c.init_merge_ur_to_ul_and_ub_to_df();
    assert_eq!(c.merge_ur_to_ul_and_ub_to_df.len(), 336);
    assert_eq!(c.merge_ur_to_ul_and_ub_to_df[0][114], 0);
    assert_eq!(c.merge_ur_to_ul_and_ub_to_df[0][0], -1);
    assert_eq!(c.merge_ur_to_ul_and_ub_to_df[335][0], 13671);
    assert_eq!(c.merge_ur_to_ul_and_ub_to_df[326][94], 19768);
    let valid: usize = c
        .merge_ur_to_ul_and_ub_to_df
        .iter()
        .map(|row| row.iter().filter(|v| **v >= 0).count())
        .sum();
    assert_eq!(valid, 20160);
}

#[test]
fn well_formed_coordinates() {
    let mut c = fresh();
    assert!(c.is_well_formed());
    c.parity_move[0][1] = 1;
    assert!(!c.is_well_formed());
    c.parity_move[0][1] = 0;
    assert!(c.is_well_formed());
    c.twist_move.pop();
    assert!(!c.is_well_formed());
}

#[test]
fn packed_entries() {
    let mut arr: Vec<u8> = vec![0xff; 4];
    for i in 0..8 {
        assert_eq!(Coordinate::prunning(&arr, i), UNVISITED);
    }
    Coordinate::set_prunning(&mut arr, 0, 0);
    assert_eq!(arr, vec![0xf0, 0xff, 0xff, 0xff]);
    Coordinate::set_prunning(&mut arr, 3, 7);
    assert_eq!(arr, vec![0xf0, 0x7f, 0xff, 0xff]);
    Coordinate::set_prunning(&mut arr, 2, 12);
    assert_eq!(arr, vec![0xf0, 0x7c, 0xff, 0xff]);
    Coordinate::set_prunning(&mut arr, 2, 3);
    assert_eq!(arr, vec![0xf0, 0x73, 0xff, 0xff]);
    Coordinate::set_prunning(&mut arr, 3, 15);
    assert_eq!(arr, vec![0xf0, 0xf3, 0xff, 0xff]);
    assert_eq!(Coordinate::prunning(&arr, 0), 0);
    assert_eq!(Coordinate::prunning(&arr, 1), 15);
    assert_eq!(Coordinate::prunning(&arr, 2), 3);
    assert_eq!(Coordinate::prunning(&arr, 3), 15);
    for v in 0..16u8 {
        for i in 0..8 {
            let mut arr: Vec<u8> = vec![0x5a; 4];
            Coordinate::set_prunning(&mut arr, i, v);
            for j in 0..8 {
                let expected = if j == i {
                    v
                } else if j % 2 == 0 {
                    0x0a
                } else {
                    0x05
                };
                assert_eq!(Coordinate::prunning(&arr, j), expected);
            }
        }
    }
}

#[test]
fn pruning_table_is_complete() {
    let mut c = fresh();
    c.init_pruning();
    assert!(c.is_pruning_complete());
    let mut counts = [0usize; 16];
    for x in 0..NB_PRUNING {
        let v = Coordinate::prunning(&c.urf_to_dlf_parity_prun, x);
        assert_ne!(v, UNVISITED);
        assert!(v <= 14);
        counts[v as usize] += 1;
    }
    assert_eq!(
        counts,
        [1, 10, 67, 404, 2023, 8504, 28545, 69734, 127540, 179700, 189120, 199200, 116112, 44416, 2304, 0]
    );
    let samples = [
        (0, 0),
        (1, 11),
        (2, 6),
        (3, 13),
        (47, 12),
        (48, 11),
        (49, 11),
        (100, 8),
        (1000, 12),
        (12345, 9),
        (500000, 11),
        (967679, 11),
    ];
    for (x, d) in samples {
        assert_eq!(Coordinate::prunning(&c.urf_to_dlf_parity_prun, x), d);
    }
    assert_eq!(c.twist_move[0][3], 1494);
    assert_eq!(c.flip_move[0][6], 550);
    assert_eq!(c.ur_to_ul_move[0][0], 18);
    assert_eq!(c.ub_to_df_move[114][0], 96);
    assert_eq!(c.ur_to_df_move[0][0], 90);
    assert_eq!(c.merge_ur_to_ul_and_ub_to_df[18][96], 90);
    assert_eq!(c.twist, 0);
    assert_eq!(c.ub_to_df, 114);
}

#[test]
fn pruning_table_gives_a_lower_bound_that_drops_by_at_most_one() {
    let mut c = fresh();
    c.init_fr_to_br_move();
    c.init_urf_to_dlf_move();
    let done = c.init_urf_to_dlf_parity_prun();
    assert_eq!(done, NB_PRUNING);
    let mut x = 0;
    while x < NB_PRUNING {
        let here = Coordinate::prunning(&c.urf_to_dlf_parity_prun, x);
        let mut closer = here == 0;
        for y in 0..18 {
            if !Move::from_index(y).keeps_slice() {
                continue;
            }
            let slice = c.fr_to_br_move[(x / 2) % 24][y] as usize;
            let corners = c.urf_to_dlf_move[(x / 2) / 24][y] as usize;
            let parity = c.parity_move[x % 2][y] as usize;
            let next = (24 * corners + slice) * 2 + parity;
            let there = Coordinate::prunning(&c.urf_to_dlf_parity_prun, next);
            assert!(there + 1 >= here && there <= here + 1);
            if there + 1 == here {
                closer = true;
            }
        }
        assert!(closer);
        x += 7;
    }
}

#[test]
fn pruning_entry_is_at_most_the_number_of_moves() {
    let mut c = fresh();
    c.init_fr_to_br_move();
    c.init_urf_to_dlf_move();
    c.init_urf_to_dlf_parity_prun();
    let kept: Vec<Move> = (0..18).map(Move::from_index).filter(|m| m.keeps_slice()).collect();
    let entry = |cube: &Cube| -> usize {
        ((24 * cube.urf_to_dlf() + cube.fr_to_br()) * 2 + cube.corner_parity()) as usize
    };
    assert_eq!(entry(&Cube::new()), 0);
    let mut seed: u32 = 99;
    for _ in 0..400 {
        let mut cube = Cube::new();
        let mut x = 0usize;
        for length in 1..=16u8 {
            seed = seed.wrapping_mul(1103515245).wrapping_add(12345);
            let m = kept[((seed >> 16) % 10) as usize];
            cube.apply_move(m);
            let slice = c.fr_to_br_move[(x / 2) % 24][m.index()] as usize;
            let corners = c.urf_to_dlf_move[(x / 2) / 24][m.index()] as usize;
            let parity = c.parity_move[x % 2][m.index()] as usize;
            x = (24 * corners + slice) * 2 + parity;
            assert_eq!(x, entry(&cube));
            assert!(Coordinate::prunning(&c.urf_to_dlf_parity_prun, x) <= length);
        }
    }
}

#[test]
fn pruning_of_a_table_that_does_not_reach_everything() {
    let mut slice = zero_table(24);
    let mut corners = zero_table(20160);
    for x in 0..24 {
        slice[x] = [x as u32; 18];
    }
    for x in 0..20160 {
        corners[x] = [((x + 1) % 20160) as u32; 18];
    }
    let parity = [[0u8; 18], [1u8; 18]];
    let (table, done) = fill_pruning(&slice, &corners, &parity);
    assert_eq!(done, 15);
    assert_eq!(table.len(), 483840);
    for c in 0..20160usize {
        for s in 0..24usize {
            for p in 0..2usize {
                let x = (24 * c + s) * 2 + p;
                let expected = if s == 0 && p == 0 && c <= 14 { c as u8 } else { UNVISITED };
                assert_eq!(Coordinate::prunning(&table, x), expected);
            }
        }
    }
}

#[test]
fn cache_entry_of_a_table() {
    let mut table = zero_table(2);
    for y in 0..18 {
        table[0][y] = y as u32;
        table[1][y] = 0x01020304 + y as u32;
    }
    let (path, bytes) = cache_entry("pruning_tables", "twist_move", &table);
    assert_eq!(path, "pruning_tables/twist_move");
    let mut expected: Vec<u8> = Vec::new();
    expected.extend_from_slice(&2u64.to_le_bytes());
    for row in table.iter() {
        expected.extend_from_slice(&18u64.to_le_bytes());
        for v in row.iter() {
            expected.extend_from_slice(&v.to_le_bytes());
        }
    }
    assert_eq!(bytes, Some(expected));
    let (path, bytes) = cache_entry("", "", &zero_table(0));
    assert_eq!(path, "/");
    assert_eq!(bytes, Some(vec![0; 8]));
}
