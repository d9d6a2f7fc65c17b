use cube_tables::corners::{Corner, Corners};
use cube_tables::cube::Cube;
use cube_tables::edges::{Edge, Edges};
use cube_tables::face::Face;
use cube_tables::moves::{inverse_sequence, CubeMove, Move, UserMove};

const ALL_MOVES: [Move; 18] = [
    Move::Up,
    Move::Up2,
    Move::UpPrime,
    Move::Right,
    Move::Right2,
    Move::RightPrime,
    Move::Front,
    Move::Front2,
    Move::FrontPrime,
    Move::Down,
    Move::Down2,
    Move::DownPrime,
    Move::Left,
    Move::Left2,
    Move::LeftPrime,
    Move::Back,
    Move::Back2,
    Move::BackPrime,
];

fn read(text: &str) -> Vec<Move> {
    UserMove::sequence_from_str(text).unwrap()
}

fn order_of(text: &str) -> usize {
    let moves = read(text);
    let mut cube = Cube::new();
    let mut n = 0;
    loop {
        for m in moves.iter() {
            cube.apply_move(*m);
        }
        n += 1;
        if cube.is_solved() {
            return n;
        }
        assert!(n < 2000);
    }
}

fn twist_sum(cube: &Cube) -> u32 {
    cube.corners.orientations.iter().map(|o| *o as u32).sum()
}

fn flip_sum(cube: &Cube) -> u32 {
    cube.edges.orientations.iter().map(|o| *o as u32).sum()
}

fn letters(shown: [Face; 9]) -> String {
    shown.iter().map(|f| f.to_string()).collect()
}

#[test]
fn scramble_and_inverse_returns_to_solved() {
    let forward = vec![Move::Front, Move::Right2, Move::UpPrime];
    let cube = Cube::from_shuffle_sequence(&forward);
    assert!(!cube.is_solved());
    let back = inverse_sequence(&forward);
    assert_eq!(back, vec![Move::Up, Move::Right2, Move::FrontPrime]);
    let mut all = forward.clone();
    all.extend(back);
    let cube = Cube::from_shuffle_sequence(&all);
    assert!(cube.is_solved());
    assert_eq!(cube.twist(), 0);
    assert_eq!(cube.flip(), 0);
    assert_eq!(cube.urf_to_dlf(), 0);
    assert_eq!(cube.fr_to_br(), 0);
    assert_eq!(cube.corner_parity(), 0);
}

#[test]
fn new_cube_is_solved() {
    assert!(Cube::new().is_solved());
    assert!(Cube::new_default().is_solved());
    assert!(Cube::default().is_solved());
    assert!(Cube::from_shuffle_sequence(&Vec::new()).is_solved());
    assert_eq!(Cube::new(), Cube::default());
    assert!(Corners::new().is_solved());
    assert!(Edges::new().is_solved());
}

#[test]
fn default_cubies_are_solved() {
    assert_eq!(Corners::default(), Corners::new());
    assert_eq!(Edges::default(), Edges::new());
    assert!(Corners::default().is_solved());
    assert!(Edges::default().is_solved());
    assert_eq!(Corners::default().orientations, [0; 8]);
    assert_eq!(Edges::default().orientations, [0; 12]);
    assert_eq!(Corners::default().permutations[7], Corner::DRB);
    assert_eq!(Edges::default().permutations[10], Edge::BL);
    assert_eq!(usize::from(Corner::URF), 0);
    assert_eq!(usize::from(Corner::DRB), 7);
    assert_eq!(usize::from(Edge::UR), 0);
    assert_eq!(usize::from(Edge::FR), 8);
    assert_eq!(usize::from(Edge::BR), 11);
}

#[test]
fn well_formed_cubes() {
    assert!(Cube::new().is_well_formed());
    assert!(Cube::from_shuffle_sequence(&read("F R2 U' B L D2")).is_well_formed());
    let mut cube = Cube::new();
    cube.corners.permutations[0] = Corner::UFL;
    assert!(!cube.corners.is_well_formed());
    assert!(!cube.is_well_formed());
    cube.corners.permutations[1] = Corner::URF;
    assert!(cube.is_well_formed());
    cube.corners.orientations[7] = 3;
    assert!(!cube.is_well_formed());
    cube.corners.orientations[7] = 2;
    assert!(cube.is_well_formed());
    cube.edges.orientations[0] = 2;
    assert!(!cube.edges.is_well_formed());
    cube.edges.orientations[0] = 1;
    assert!(cube.is_well_formed());
    cube.edges.permutations[11] = Edge::UR;
    assert!(!cube.is_well_formed());
}

#[test]
fn one_move_unsolves_the_cube() {
    for m in ALL_MOVES.iter() {
        let cube = Cube::from_shuffle_sequence(&vec![*m]);
        assert!(!cube.is_solved());
    }
}

#[test]
fn move_then_inverse_is_identity() {
    let start = Cube::from_shuffle_sequence(&read("F R U' L2 D B' R2 U"));
    for m in ALL_MOVES.iter() {
        let mut cube = start;
        cube.apply_move(*m);
        assert_ne!(cube, start);
        cube.apply_move(m.inverse());
        assert_eq!(cube, start);
    }
}

#[test]
fn sequence_then_inverse_sequence_is_identity() {
    assert_eq!(inverse_sequence(&Vec::new()), Vec::new());
    assert_eq!(inverse_sequence(&read("R U R' U'")), read("U R U' R'"));
    let start = Cube::from_shuffle_sequence(&read("B2 L D' F"));
    for text in ["F R2 U'", "R U R' U' F2 D L' B", "U2 D2", "L", ""] {
        let moves = read(text);
        let mut cube = start;
        for m in moves.iter() {
            cube.apply_move(*m);
        }
        for m in inverse_sequence(&moves).iter() {
            cube.apply_move(*m);
        }
        assert_eq!(cube, start);
    }
}

#[test]
fn inverse_of_each_move() {
    assert_eq!(Move::Up.inverse(), Move::UpPrime);
    assert_eq!(Move::UpPrime.inverse(), Move::Up);
    assert_eq!(Move::Up2.inverse(), Move::Up2);
    assert_eq!(Move::Back.inverse(), Move::BackPrime);
    assert_eq!(Move::Left2.inverse(), Move::Left2);
    for m in ALL_MOVES.iter() {
        assert_eq!(m.inverse().inverse(), *m);
        assert_eq!(m.inverse().face(), m.face());
    }
}

#[test]
fn move_index_round_trip() {
    for (i, m) in ALL_MOVES.iter().enumerate() {
        assert_eq!(m.index(), i);
        assert_eq!(Move::from_index(i), *m);
    }
    for y in 0..6 {
        assert_eq!(Move::from_u(y), ALL_MOVES[3 * y]);
        assert_eq!(Face::from_axis(y).axis(), y);
        assert_eq!(Move::from_u(y).face(), Face::from_axis(y));
    }
    assert_eq!(Move::Front2.turns(), 2);
    assert_eq!(Move::FrontPrime.turns(), 3);
    assert_eq!(Move::Front.turns(), 1);
}

#[test]
fn slice_keeping_moves_are_ten() {
    let kept: Vec<usize> = ALL_MOVES.iter().filter(|m| m.keeps_slice()).map(|m| m.index()).collect();
    assert_eq!(kept, vec![0, 1, 2, 4, 7, 9, 10, 11, 13, 16]);
}

#[test]
fn half_turn_is_two_quarter_turns() {
    let mut a = Cube::new();
    a.apply_move(Move::Right2);
    let mut b = Cube::new();
    b.apply_move(Move::Right);
    b.apply_move(Move::Right);
    assert_eq!(a, b);
    let mut c = Cube::new();
    c.apply_cube_move(CubeMove::Right);
    c.apply_cube_move(CubeMove::Right);
    assert_eq!(a, c);
}

#[test]
fn prime_is_three_quarter_turns() {
    for y in 0..6 {
        let quarter = Move::from_u(y);
        let mut a = Cube::new();
        a.apply_move(quarter.inverse());
        let mut b = Cube::new();
        b.apply_move(quarter);
        b.apply_move(quarter);
        b.apply_move(quarter);
        assert_eq!(a, b);
        b.apply_move(quarter);
        assert!(b.is_solved());
    }
    let mut a = Cube::new();
    a.apply_cube_move(CubeMove::FrontPrime);
    let mut b = Cube::new();
    b.apply_move(Move::FrontPrime);
    assert_eq!(a, b);
    assert_eq!(CubeMove::FrontPrime.turns(), 3);
    assert_eq!(CubeMove::Down.turns(), 1);
    assert_eq!(CubeMove::LeftPrime.face(), Face::L);
}

#[test]
fn known_orders_of_sequences() {
    assert_eq!(order_of("R"), 4);
    assert_eq!(order_of("R2"), 2);
    assert_eq!(order_of("R U"), 105);
    assert_eq!(order_of("F R"), 105);
    assert_eq!(order_of("L B"), 105);
    assert_eq!(order_of("R U R' U'"), 6);
    assert_eq!(order_of("R U2 D' B D'"), 1260);
    assert_eq!(order_of("R2 U2"), 6);
    assert_eq!(order_of("U D"), 4);
    assert_eq!(order_of("R L' F B' U D' R L'"), 3);
}

#[test]
fn opposite_faces_commute() {
    for (a, b) in [("U", "D"), ("R", "L"), ("F", "B")] {
        let one = Cube::from_shuffle_sequence(&read(&format!("{} {}", a, b)));
        let other = Cube::from_shuffle_sequence(&read(&format!("{} {}", b, a)));
        assert_eq!(one, other);
    }
    let one = Cube::from_shuffle_sequence(&read("U R"));
    let other = Cube::from_shuffle_sequence(&read("R U"));
    assert_ne!(one, other);
}

#[test]
fn orientation_sums_stay_balanced() {
    let mut cube = Cube::new();
    let mut seed: u32 = 12345;
    for _ in 0..2000 {
        seed = seed.wrapping_mul(1103515245).wrapping_add(12345);
        let m = ALL_MOVES[((seed >> 16) % 18) as usize];
        cube.apply_move(m);
        assert_eq!(twist_sum(&cube) % 3, 0);
        assert_eq!(flip_sum(&cube) % 2, 0);
        for o in cube.corners.orientations.iter() {
            assert!(*o < 3);
        }
        for o in cube.edges.orientations.iter() {
            assert!(*o < 2);
        }
        let mut seen = [false; 8];
        for c in cube.corners.permutations.iter() {
            assert!(!seen[c.index() as usize]);
            seen[c.index() as usize] = true;
        }
        let mut seen = [false; 12];
        for e in cube.edges.permutations.iter() {
            assert!(!seen[e.index() as usize]);
            seen[e.index() as usize] = true;
        }
    }
}

#[test]
fn corners_and_edges_have_the_same_parity() {
    let falling = |numbers: Vec<u8>| -> usize {
        let mut n = 0;
        for i in 0..numbers.len() {
            for j in 0..i {
                if numbers[j] > numbers[i] {
                    n += 1;
                }
            }
        }
        n
    };
    let mut cube = Cube::new();
    let mut seed: u32 = 2024;
    for _ in 0..500 {
        seed = seed.wrapping_mul(1103515245).wrapping_add(12345);
        cube.apply_move(ALL_MOVES[((seed >> 16) % 18) as usize]);
        let corners = falling(cube.corners.numbers()) % 2;
        let edges = falling(cube.edges.numbers()) % 2;
        assert_eq!(corners, edges);
        assert_eq!(corners as u32, cube.corner_parity());
    }
}

#[test]
fn right_turn_moves_and_twists_corners() {
    let cube = Cube::from_shuffle_sequence(&vec![Move::Right]);
    assert_eq!(
        cube.corners.permutations,
        [
            Corner::DFR,
            Corner::UFL,
            Corner::ULB,
            Corner::URF,
            Corner::DRB,
            Corner::DLF,
            Corner::DBL,
            Corner::UBR
        ]
    );
    assert_eq!(cube.corners.orientations, [2, 0, 0, 1, 1, 0, 0, 2]);
    assert_eq!(
        cube.edges.permutations,
        [
            Edge::FR,
            Edge::UF,
            Edge::UL,
            Edge::UB,
            Edge::BR,
            Edge::DF,
            Edge::DL,
            Edge::DB,
            Edge::DR,
            Edge::FL,
            Edge::BL,
            Edge::UR
        ]
    );
    assert_eq!(cube.edges.orientations, [0; 12]);
}

#[test]
fn front_turn_flips_edges() {
    let cube = Cube::from_shuffle_sequence(&vec![Move::Front]);
    assert_eq!(cube.edges.orientations, [0, 1, 0, 0, 0, 1, 0, 0, 1, 1, 0, 0]);
    assert_eq!(cube.corners.orientations, [1, 2, 0, 0, 2, 1, 0, 0]);
    let cube = Cube::from_shuffle_sequence(&vec![Move::Up]);
    assert_eq!(cube.edges.orientations, [0; 12]);
    assert_eq!(cube.corners.orientations, [0; 8]);
}

#[test]
fn corners_and_edges_move_alone() {
    let mut cube = Cube::new();
    cube.corners_multiply(Move::Right);
    assert_eq!(cube.edges, Edges::new());
    assert_ne!(cube.corners, Corners::new());
    cube.edges_multiply(Move::Right);
    assert_eq!(cube, Cube::from_shuffle_sequence(&vec![Move::Right]));
}

#[test]
fn solved_cube_shows_one_colour_per_side() {
    let cube = Cube::new();
    for f in [Face::F, Face::B, Face::U, Face::D, Face::L, Face::R] {
        assert_eq!(cube.face(f), [f; 9]);
    }
}

#[test]
fn sides_after_moves() {
    let cube = Cube::from_shuffle_sequence(&read("U"));
    assert_eq!(letters(cube.face(Face::U)), "UUUUUUUUU");
    assert_eq!(letters(cube.face(Face::L)), "FFFLLLLLL");
    assert_eq!(letters(cube.face(Face::F)), "RRRFFFFFF");
    assert_eq!(letters(cube.face(Face::R)), "BBBRRRRRR");
    assert_eq!(letters(cube.face(Face::B)), "LLLBBBBBB");
    assert_eq!(letters(cube.face(Face::D)), "DDDDDDDDD");
    let cube = Cube::from_shuffle_sequence(&read("R"));
    assert_eq!(letters(cube.face(Face::U)), "UUFUUFUUF");
    assert_eq!(letters(cube.face(Face::F)), "FFDFFDFFD");
    assert_eq!(letters(cube.face(Face::R)), "RRRRRRRRR");
    assert_eq!(letters(cube.face(Face::B)), "UBBUBBUBB");
    assert_eq!(letters(cube.face(Face::D)), "DDBDDBDDB");
    assert_eq!(letters(cube.face(Face::L)), "LLLLLLLLL");
    let cube = Cube::from_shuffle_sequence(&read("F"));
    assert_eq!(letters(cube.face(Face::U)), "UUUUUULLL");
    assert_eq!(letters(cube.face(Face::R)), "URRURRURR");
    let cube = Cube::from_shuffle_sequence(&read("F R2 U'"));
    assert_eq!(letters(cube.face(Face::U)), "RDDUULUUL");
    assert_eq!(letters(cube.face(Face::L)), "FBBLLDLLD");
    assert_eq!(letters(cube.face(Face::F)), "LLDFFBFFB");
    assert_eq!(letters(cube.face(Face::R)), "FFBRRURRU");
    assert_eq!(letters(cube.face(Face::B)), "RRUFBBFBB");
    assert_eq!(letters(cube.face(Face::D)), "RRUDDUDDL");
}

#[test]
fn face_colours_and_letters() {
    assert_eq!(Face::F.color(), "\x1b[7;33m");
    assert_eq!(Face::B.color(), "\x1b[7;31m");
    assert_eq!(Face::U.color(), "\x1b[7;37m");
    assert_eq!(Face::D.color(), "\x1b[7;47;30m");
    assert_eq!(Face::L.color(), "\x1b[7;32m");
    assert_eq!(Face::R.color(), "\x1b[7;34m");
    assert_eq!(Face::F.to_string(), "F");
    assert_eq!(Face::B.to_string(), "B");
    assert_eq!(Face::U.to_string(), "U");
    assert_eq!(Face::D.to_string(), "D");
    assert_eq!(Face::L.to_string(), "L");
    assert_eq!(Face::R.to_string(), "R");
}

#[test]
fn cubie_numbers_round_trip() {
    let corners = [
        Corner::URF,
        Corner::UFL,
        Corner::ULB,
        Corner::UBR,
        Corner::DFR,
        Corner::DLF,
        Corner::DBL,
        Corner::DRB,
    ];
    for (i, c) in corners.iter().enumerate() {
        assert_eq!(c.index() as usize, i);
        assert_eq!(Corner::from_index(i as u8), *c);
    }
    let edges = [
        Edge::UR,
        Edge::UF,
        Edge::UL,
        Edge::UB,
        Edge::DR,
        Edge::DF,
        Edge::DL,
        Edge::DB,
        Edge::FR,
        Edge::FL,
        Edge::BL,
        Edge::BR,
    ];
    for (i, e) in edges.iter().enumerate() {
        assert_eq!(e.index() as usize, i);
        assert_eq!(Edge::from_index(i as u8), *e);
    }
}

#[test]
fn corner_faces() {
    assert_eq!(Corner::URF.decompose(), (Face::U, Face::R, Face::F));
    assert_eq!(Corner::DBL.decompose(), (Face::D, Face::B, Face::L));
    assert_eq!(Corner::URF.orient(0), (Face::U, Face::R, Face::F));
    assert_eq!(Corner::URF.orient(1), (Face::F, Face::U, Face::R));
    assert_eq!(Corner::URF.orient(2), (Face::R, Face::F, Face::U));
    assert_eq!(Corner::URF.get_face(Corner::URF, 0, Face::U), Face::U);
    assert_eq!(Corner::URF.get_face(Corner::URF, 0, Face::R), Face::R);
    assert_eq!(Corner::URF.get_face(Corner::URF, 0, Face::F), Face::F);
    assert_eq!(Corner::DFR.get_face(Corner::URF, 2, Face::U), Face::F);
    assert_eq!(Corner::DFR.get_face(Corner::URF, 2, Face::R), Face::R);
    assert_eq!(Corner::DFR.get_face(Corner::URF, 2, Face::F), Face::D);
}

#[test]
fn edge_faces() {
    assert_eq!(Edge::UR.decompose(), (Face::U, Face::R));
    assert_eq!(Edge::FR.decompose(), (Face::F, Face::R));
    assert_eq!(Edge::BL.decompose(), (Face::B, Face::L));
    assert_eq!(Edge::FR.orient(0), (Face::F, Face::R));
    assert_eq!(Edge::FR.orient(1), (Face::R, Face::F));
    assert_eq!(Edge::UF.get_face(Edge::FL, 0, Face::F), Face::U);
    assert_eq!(Edge::UF.get_face(Edge::FL, 0, Face::L), Face::F);
    assert_eq!(Edge::UF.get_face(Edge::FL, 1, Face::F), Face::F);
    assert_eq!(Edge::UF.get_face(Edge::FL, 1, Face::L), Face::U);
}

#[test]
fn reads_move_sequences() {
    assert_eq!(
        UserMove::sequence_from_str("F R2 U'"),
        Ok(vec![Move::Front, Move::Right2, Move::UpPrime])
    );
    assert_eq!(UserMove::sequence_from_str(""), Ok(vec![]));
    assert_eq!(UserMove::sequence_from_str("   "), Ok(vec![]));
    assert_eq!(
        UserMove::sequence_from_str("UD'L2B"),
        Ok(vec![Move::Up, Move::DownPrime, Move::Left2, Move::Back])
    );
    assert_eq!(
        UserMove::sequence_from_str(" U  U2 U' R R2 R' F F2 F' D D2 D' L L2 L' B B2 B' "),
        Ok(ALL_MOVES.to_vec())
    );
}

#[test]
fn rejects_malformed_move_sequences() {
    assert_eq!(UserMove::sequence_from_str("F X"), Err(2));
    assert_eq!(UserMove::sequence_from_str("2"), Err(0));
    assert_eq!(UserMove::sequence_from_str("F22"), Err(2));
    assert_eq!(UserMove::sequence_from_str("R U r"), Err(4));
    assert_eq!(UserMove::sequence_from_str("F'\t"), Err(2));
}
