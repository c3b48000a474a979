use game2048::direction_chooser::DirectionChooser;
use game2048::restore::Restore;

fn board_fixture() -> Vec<u64> {
    vec![
        0, 0, 2, 2, //
        2, 2, 4, 8, //
        4, 8, 0, 0, //
        2, 4, 8, 0,
    ]
}

#[test]
fn direction_chooser_test_up() {
    let board = board_fixture();
    let direction: Vec<u64> = vec![1, 0, 0, 0];

    let mut circuit = DirectionChooser::new(&board, &direction);
    assert!(circuit.synthesize().is_ok());

    let lines = circuit.lines;
    assert_eq!(lines[0], vec![board[0], board[4], board[8], board[12]]);
    assert_eq!(lines[1], vec![board[1], board[5], board[9], board[13]]);
    assert_eq!(lines[2], vec![board[2], board[6], board[10], board[14]]);
    assert_eq!(lines[3], vec![board[3], board[7], board[11], board[15]]);
}

#[test]
fn direction_chooser_test_down() {
    let board = board_fixture();
    let direction: Vec<u64> = vec![0, 1, 0, 0];

    let mut circuit = DirectionChooser::new(&board, &direction);
    assert!(circuit.synthesize().is_ok());

    let lines = circuit.lines;
    assert_eq!(lines[0], vec![board[12], board[8], board[4], board[0]]);
    assert_eq!(lines[1], vec![board[13], board[9], board[5], board[1]]);
    assert_eq!(lines[2], vec![board[14], board[10], board[6], board[2]]);
    assert_eq!(lines[3], vec![board[15], board[11], board[7], board[3]]);
}

#[test]
fn direction_chooser_test_left() {
    let board = board_fixture();
    let direction: Vec<u64> = vec![0, 0, 1, 0];

    let mut circuit = DirectionChooser::new(&board, &direction);
    assert!(circuit.synthesize().is_ok());

    let lines = circuit.lines;
    assert_eq!(lines[0], vec![board[0], board[1], board[2], board[3]]);
    assert_eq!(lines[1], vec![board[4], board[5], board[6], board[7]]);
    assert_eq!(lines[2], vec![board[8], board[9], board[10], board[11]]);
    assert_eq!(lines[3], vec![board[12], board[13], board[14], board[15]]);
}

#[test]
fn direction_chooser_test_right() {
    let board = board_fixture();
    let direction: Vec<u64> = vec![0, 0, 0, 1];

    let mut circuit = DirectionChooser::new(&board, &direction);
    assert!(circuit.synthesize().is_ok());

    let lines = circuit.lines;
    assert_eq!(lines[0], vec![board[3], board[2], board[1], board[0]]);
    assert_eq!(lines[1], vec![board[7], board[6], board[5], board[4]]);
    assert_eq!(lines[2], vec![board[11], board[10], board[9], board[8]]);
    assert_eq!(lines[3], vec![board[15], board[14], board[13], board[12]]);
}

// Restoring the chooser's lines unchanged reproduces the board, for every
// direction.
#[test]
fn direction_roundtrip_all_directions() {
    let board = board_fixture();
    for active in 0..4usize {
        let mut direction: Vec<u64> = vec![0, 0, 0, 0];
        direction[active] = 1;

        let mut chooser = DirectionChooser::new(&board, &direction);
        assert!(chooser.synthesize().is_ok());

        let mut restore = Restore::new(&chooser.lines, &direction);
        assert!(restore.synthesize().is_ok());
        assert_eq!(restore.board, board);
    }
}
