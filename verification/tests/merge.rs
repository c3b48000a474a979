use game2048::direction_chooser::DirectionChooser;
use game2048::merge::Merge;
use game2048::sort::SortByZero;

fn board_fixture() -> Vec<u64> {
    vec![
        0, 8, 2, 2, //
        2, 0, 2, 2, //
        2, 8, 2, 0, //
        0, 0, 2, 2,
    ]
}

fn merged_for(direction: Vec<u64>) -> Vec<Vec<u64>> {
    let board = board_fixture();

    let mut step_0 = DirectionChooser::new(&board, &direction);
    step_0.synthesize().unwrap();

    let mut step_1 = SortByZero::new(&step_0.lines, 0);
    step_1.synthesize().unwrap();

    let mut step_2 = Merge::new(&step_1.sorted_lines);
    step_2.synthesize().unwrap();

    step_2.merged_lines
}

#[test]
fn merge_test_up() {
    let merged_lines = merged_for(vec![1, 0, 0, 0]);
    assert_eq!(merged_lines[0], vec![4, 0, 0, 0]);
    assert_eq!(merged_lines[1], vec![16, 0, 0, 0]);
    assert_eq!(merged_lines[2], vec![4, 0, 4, 0]);
    assert_eq!(merged_lines[3], vec![4, 0, 2, 0]);
}

#[test]
fn merge_test_down() {
    let merged_lines = merged_for(vec![0, 1, 0, 0]);
    assert_eq!(merged_lines[0], vec![4, 0, 0, 0]);
    assert_eq!(merged_lines[1], vec![16, 0, 0, 0]);
    assert_eq!(merged_lines[2], vec![4, 0, 4, 0]);
    assert_eq!(merged_lines[3], vec![4, 0, 2, 0]);
}

#[test]
fn merge_test_left() {
    let merged_lines = merged_for(vec![0, 0, 1, 0]);
    assert_eq!(merged_lines[0], vec![8, 4, 0, 0]);
    assert_eq!(merged_lines[1], vec![4, 0, 2, 0]);
    assert_eq!(merged_lines[2], vec![2, 8, 2, 0]);
    assert_eq!(merged_lines[3], vec![4, 0, 0, 0]);
}

#[test]
fn merge_test_right() {
    let merged_lines = merged_for(vec![0, 0, 0, 1]);
    assert_eq!(merged_lines[0], vec![4, 0, 8, 0]);
    assert_eq!(merged_lines[1], vec![4, 0, 2, 0]);
    assert_eq!(merged_lines[2], vec![2, 8, 2, 0]);
    assert_eq!(merged_lines[3], vec![4, 0, 0, 0]);
}

// A line of equal tiles merges pairwise in a single pass, not in a chain:
// the doubled survivor never merges again within the same move.
#[test]
fn merge_single_pass() {
    let lines: Vec<Vec<u64>> = vec![
        vec![2, 2, 2, 2],
        vec![4, 2, 2, 0],
        vec![2, 8, 4, 4],
        vec![2, 4, 8, 16],
    ];
    let mut circuit = Merge::new(&lines);
    assert!(circuit.synthesize().is_ok());

    assert_eq!(circuit.merged_lines[0], vec![4, 0, 4, 0]);
    assert_eq!(circuit.merged_lines[1], vec![4, 4, 0, 0]);
    assert_eq!(circuit.merged_lines[2], vec![2, 8, 8, 0]);
    assert_eq!(circuit.merged_lines[3], vec![2, 4, 8, 16]);

    // Merging conserves the weight of each line.
    for (input, merged) in lines.iter().zip(circuit.merged_lines.iter()) {
        let sum_in: u64 = input.iter().sum();
        let sum_out: u64 = merged.iter().sum();
        assert_eq!(sum_in, sum_out);
    }
}
