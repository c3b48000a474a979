use game2048::direction_chooser::DirectionChooser;
use game2048::game_2048::Game2048Circuit;
use game2048::gen_next::GenNext;
use game2048::SynthesisError;

const UP: [u64; 4] = [1, 0, 0, 0];
const DOWN: [u64; 4] = [0, 1, 0, 0];
const LEFT: [u64; 4] = [0, 0, 1, 0];
const RIGHT: [u64; 4] = [0, 0, 0, 1];

fn step(board: &Vec<u64>, direction: [u64; 4]) -> Vec<u64> {
    let circuit = Game2048Circuit::new(&vec![direction.to_vec()]);
    circuit.synthesize(board).unwrap()
}

fn sum(board: &[u64]) -> u64 {
    board.iter().sum()
}

// Left, simple slide: the two tiles of row 0 slide together and merge to a
// 4; the source 4 picks the fifth empty cell (index 5) and an even source
// spawns a 2.
#[test]
fn e1_left_simple_slide() {
    let board: Vec<u64> = vec![
        0, 0, 2, 2, //
        0, 0, 0, 0, //
        0, 0, 0, 0, //
        0, 0, 0, 0,
    ];
    let out = step(&board, LEFT);
    assert_eq!(&out[0..4], &[4, 0, 0, 0]);
    let spawned: Vec<(usize, u64)> = (4..16).filter(|i| out[*i] != 0).map(|i| (i, out[i])).collect();
    assert_eq!(spawned.len(), 1);
    assert!(spawned[0].1 == 2 || spawned[0].1 == 4);
    assert_eq!(out, vec![4, 0, 0, 0, 0, 2, 0, 0, 0, 0, 0, 0, 0, 0, 0, 0]);
}

// Up, pair merge: column 0 merges to a 4 at the top.
#[test]
fn e2_up_pair_merge() {
    let board: Vec<u64> = vec![
        2, 0, 0, 0, //
        2, 0, 0, 0, //
        0, 0, 0, 0, //
        0, 0, 0, 0,
    ];
    let out = step(&board, UP);
    assert_eq!(&out[0..4], &[4, 0, 0, 0]);
    assert_eq!(out, vec![4, 0, 0, 0, 0, 2, 0, 0, 0, 0, 0, 0, 0, 0, 0, 0]);
}

// Left on an already-compacted row: the row comes through unchanged and the
// spawn lands elsewhere.
#[test]
fn e3_left_no_op() {
    let board: Vec<u64> = vec![
        2, 4, 8, 16, //
        0, 0, 0, 0, //
        0, 0, 0, 0, //
        0, 0, 0, 0,
    ];
    let out = step(&board, LEFT);
    assert_eq!(&out[0..4], &[2, 4, 8, 16]);
    assert_eq!(out, vec![2, 4, 8, 16, 0, 0, 0, 0, 0, 0, 2, 0, 0, 0, 0, 0]);
}

// Right, chained merges stop after one pass: 2 2 2 2 becomes 0 0 4 4, not
// an 8.
#[test]
fn e4_right_chained_merges() {
    let board: Vec<u64> = vec![
        2, 2, 2, 2, //
        0, 0, 0, 0, //
        0, 0, 0, 0, //
        0, 0, 0, 0,
    ];
    let out = step(&board, RIGHT);
    assert_eq!(&out[0..4], &[0, 0, 4, 4]);
    assert_eq!(out, vec![0, 0, 4, 4, 0, 0, 0, 0, 0, 0, 2, 0, 0, 0, 0, 0]);
}

// Down on a full board: the spawn stage's game-over path leaves a board
// without empty cells unchanged, and the full step stays satisfiable.
#[test]
fn e5_down_full_board() {
    let board: Vec<u64> = vec![4; 16];
    let moveable: u64 = 1;

    let mut spawn = GenNext::new(&board, &moveable);
    assert!(spawn.synthesize().is_ok());
    assert_eq!(spawn.new_board, board);

    let out = step(&board, DOWN);
    assert_eq!(
        out,
        vec![2, 0, 0, 0, 0, 0, 0, 0, 8, 8, 8, 8, 8, 8, 8, 8]
    );
}

// The board sum grows by exactly the spawned tile: 0 when no empty cell
// remains after the move, otherwise 2 or 4.
#[test]
fn step_sum_conservation() {
    let boards: Vec<Vec<u64>> = vec![
        vec![0, 0, 2, 2, 0, 0, 0, 0, 0, 0, 0, 0, 0, 0, 0, 0],
        vec![2, 4, 8, 16, 0, 0, 0, 0, 0, 0, 0, 0, 0, 0, 0, 0],
        vec![4; 16],
        vec![0, 8, 2, 2, 2, 0, 2, 2, 2, 8, 2, 0, 0, 0, 2, 2],
    ];
    for board in boards {
        for direction in [UP, DOWN, LEFT, RIGHT] {
            let out = step(&board, direction);
            let delta = sum(&out) - sum(&board);
            assert!(delta == 0 || delta == 2 || delta == 4);
            // The sum stays put exactly when the moved board is still full,
            // which a slide of a full board of equal tiles never leaves.
            if board.iter().all(|c| *c == 4) {
                assert_ne!(delta, 0);
            }
        }
    }
}

// A direction that is not one-hot leaves the constraint system
// unsatisfiable: the chooser and the whole step both reject it.
#[test]
fn direction_one_hot_rejection() {
    let board: Vec<u64> = vec![0; 16];

    // boolean but sums to 2
    let two_hot: Vec<u64> = vec![1, 1, 0, 0];
    let mut chooser = DirectionChooser::new(&board, &two_hot);
    assert_eq!(chooser.synthesize(), Err(SynthesisError::Unsatisfiable));

    // a coordinate that is not boolean
    let not_boolean: Vec<u64> = vec![2, 0, 0, 0];
    let mut chooser = DirectionChooser::new(&board, &not_boolean);
    assert_eq!(chooser.synthesize(), Err(SynthesisError::Unsatisfiable));

    let all_zero: Vec<u64> = vec![0, 0, 0, 0];
    let mut chooser = DirectionChooser::new(&board, &all_zero);
    assert_eq!(chooser.synthesize(), Err(SynthesisError::Unsatisfiable));

    let circuit = Game2048Circuit::new(&vec![LEFT.to_vec(), vec![1, 1, 0, 0]]);
    assert_eq!(circuit.synthesize(&board), Err(SynthesisError::Unsatisfiable));
}

// A batch of moves runs in sequence, as the step circuit plays them.
#[test]
fn step_batch_of_moves() {
    let circuit = Game2048Circuit::new(&vec![LEFT.to_vec(), UP.to_vec()]);
    assert_eq!(circuit.arity(), 16);

    let board: Vec<u64> = vec![
        0, 0, 2, 2, //
        0, 0, 0, 0, //
        0, 0, 0, 0, //
        0, 0, 0, 0,
    ];
    // After the left move: [4,0,0,0, 0,2,0,0, 0,...].  The up move slides
    // the 2 to the top row beside the 4 and spawns from source 6;
    // 6 mod 2 = 0 spawns a 2 into one of the 14 empty cells.
    let out = circuit.synthesize(&board).unwrap();
    assert_eq!(out[0], 4);
    assert_eq!(out[1], 2);
    assert_eq!(sum(&out), 8);
}
