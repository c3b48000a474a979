use game2048::can_move::CanMove;
use game2048::gen_next::GenNext;

#[test]
fn test_gen_next() {
    let board: Vec<u64> = vec![
        0, 0, 2, 2, //
        2, 2, 4, 8, //
        4, 8, 0, 0, //
        2, 4, 8, 0,
    ];
    let moveable: u64 = 1;

    let mut circuit = GenNext::new(&board, &moveable);
    assert!(circuit.synthesize().is_ok());

    // Source n = 46 (the board sum).  46 mod 5 = 1, so the second empty
    // cell (index 1) receives the tile; 46 mod 2 = 0, so the tile is a 2.
    assert_eq!(
        circuit.new_board,
        vec![
            0, 2, 2, 2, //
            2, 2, 4, 8, //
            4, 8, 0, 0, //
            2, 4, 8, 0,
        ]
    );
}

#[test]
fn test_game_over() {
    let board: Vec<u64> = vec![4; 16];
    let moveable: u64 = 1;

    let mut circuit = GenNext::new(&board, &moveable);
    assert!(circuit.synthesize().is_ok());

    // No empty cell: the substituted witnesses keep the selection
    // satisfiable and the gated value is zero, so nothing is written.
    assert_eq!(circuit.new_board, board);
}

// A move that changed nothing spawns nothing, even with empty cells.
#[test]
fn gen_next_not_moveable() {
    let board: Vec<u64> = vec![
        2, 4, 8, 16, //
        0, 0, 0, 0, //
        0, 0, 0, 0, //
        0, 0, 0, 0,
    ];
    let moveable: u64 = 0;

    let mut circuit = GenNext::new(&board, &moveable);
    assert!(circuit.synthesize().is_ok());
    assert_eq!(circuit.new_board, board);
}

#[test]
fn test_can_move() {
    let board: Vec<u64> = vec![
        2, 2, 2, 2, //
        0, 0, 0, 0, //
        0, 0, 0, 0, //
        0, 0, 0, 0,
    ];
    let restored_board: Vec<u64> = vec![
        4, 4, 0, 0, //
        0, 0, 0, 0, //
        0, 0, 0, 0, //
        0, 0, 0, 0,
    ];

    let circuit = CanMove::new(&board, &restored_board);
    let moveable = circuit.synthesize().unwrap();
    assert_eq!(moveable, 1);
}

#[test]
fn test_cannot_move() {
    let board: Vec<u64> = vec![
        2, 2, 4, 4, //
        0, 0, 0, 0, //
        0, 0, 0, 0, //
        0, 0, 0, 0,
    ];
    let restored_board = board.clone();

    let circuit = CanMove::new(&board, &restored_board);
    let moveable = circuit.synthesize().unwrap();
    assert_eq!(moveable, 0);
}
