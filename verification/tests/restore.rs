use game2048::direction_chooser::DirectionChooser;
use game2048::merge::Merge;
use game2048::restore::Restore;
use game2048::sort::SortByZero;

fn board_fixture() -> Vec<u64> {
    vec![
        0, 8, 2, 2, //
        2, 0, 2, 2, //
        2, 8, 2, 0, //
        0, 0, 2, 2,
    ]
}

fn restored_for(direction: Vec<u64>) -> Vec<u64> {
    let board = board_fixture();

    let mut step_0 = DirectionChooser::new(&board, &direction);
    step_0.synthesize().unwrap();

    let mut step_1 = SortByZero::new(&step_0.lines, 0);
    step_1.synthesize().unwrap();

    let mut step_2 = Merge::new(&step_1.sorted_lines);
    step_2.synthesize().unwrap();

    let mut step_3 = SortByZero::new(&step_2.merged_lines, step_1.namespace_index);
    step_3.synthesize().unwrap();

    let mut step_4 = Restore::new(&step_3.sorted_lines, &direction);
    step_4.synthesize().unwrap();

    step_4.board
}

#[test]
fn restore_test_up() {
    let board = restored_for(vec![1, 0, 0, 0]);
    assert_eq!(
        board,
        vec![4, 16, 4, 4, 0, 0, 4, 2, 0, 0, 0, 0, 0, 0, 0, 0]
    );
}

#[test]
fn restore_test_down() {
    let board = restored_for(vec![0, 1, 0, 0]);
    assert_eq!(
        board,
        vec![0, 0, 0, 0, 0, 0, 0, 0, 0, 0, 4, 2, 4, 16, 4, 4]
    );
}

#[test]
fn restore_test_left() {
    let board = restored_for(vec![0, 0, 1, 0]);
    assert_eq!(
        board,
        vec![8, 4, 0, 0, 4, 2, 0, 0, 2, 8, 2, 0, 4, 0, 0, 0]
    );
}

#[test]
fn restore_test_right() {
    let board = restored_for(vec![0, 0, 0, 1]);
    assert_eq!(
        board,
        vec![0, 0, 8, 4, 0, 0, 2, 4, 0, 2, 8, 2, 0, 0, 0, 4]
    );
}
