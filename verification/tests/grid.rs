use qmk_keymap::grid::{pad_even, shift_in, widen};
use qmk_keymap::{create_grid, PrintOptions};

fn cell(text: &str) -> Option<String> {
    Some(text.to_string())
}

fn row(keys: &[&str]) -> Vec<String> {
    keys.iter().map(|k| k.to_string()).collect()
}

fn options(shift: usize, thumbs: usize) -> PrintOptions {
    let mut ops = PrintOptions::default();
    ops.thumb_shift_in = shift;
    ops.number_of_thumbs = thumbs;
    ops
}

#[test]
fn parity_padding_makes_every_length_even() {
    for len in 0..9usize {
        let mut cells: Vec<Option<String>> = (0..len).map(|i| cell(&format!("K{}", i))).collect();
        pad_even(&mut cells);
        assert_eq!(cells.len() % 2, 0);
        assert_eq!(cells.len(), len + len % 2);
        for i in 0..len {
            assert_eq!(cells[i], cell(&format!("K{}", i)));
        }
        if len % 2 == 1 {
            assert_eq!(cells[len], None);
        }
    }
}

#[test]
fn thumb_shift_inserts_gaps_at_centre() {
    let mut cells = vec![cell("KC_A"), cell("KC_B"), cell("KC_C"), cell("KC_D")];
    shift_in(&mut cells, 1);
    assert_eq!(
        cells,
        vec![cell("KC_A"), cell("KC_B"), None, None, cell("KC_C"), cell("KC_D")]
    );
    shift_in(&mut cells, 2);
    assert_eq!(
        cells,
        vec![
            cell("KC_A"),
            cell("KC_B"),
            None,
            None,
            None,
            None,
            None,
            None,
            cell("KC_C"),
            cell("KC_D")
        ]
    );
}

#[test]
fn thumb_shift_of_zero_pairs_changes_nothing() {
    let mut cells = vec![cell("KC_A"), cell("KC_B")];
    shift_in(&mut cells, 0);
    assert_eq!(cells, vec![cell("KC_A"), cell("KC_B")]);
}

#[test]
fn thumb_shift_on_odd_row_keeps_left_half() {
    let mut cells = vec![cell("A"), cell("B"), cell("C")];
    shift_in(&mut cells, 1);
    assert_eq!(cells, vec![cell("A"), None, None, cell("B"), cell("C")]);
}

#[test]
fn widening_pushes_back_then_front() {
    let mut cells = vec![cell("A"), cell("B")];
    widen(&mut cells, 6);
    assert_eq!(cells, vec![None, None, cell("A"), cell("B"), None, None]);
    let mut cells = vec![cell("A"), cell("B")];
    widen(&mut cells, 5);
    assert_eq!(cells, vec![None, cell("A"), cell("B"), None, None]);
    let mut cells = vec![cell("A"), cell("B")];
    widen(&mut cells, 3);
    assert_eq!(cells, vec![cell("A"), cell("B"), None]);
    let mut cells = vec![cell("A"), cell("B")];
    widen(&mut cells, 1);
    assert_eq!(cells, vec![cell("A"), cell("B")]);
}

#[test]
fn shifted_row_against_longer_row() {
    let rows = vec![
        row(&["KC_A", "KC_B", "KC_C", "KC_D"]),
        row(&["T1", "T2", "T3", "T4", "T5", "T6", "T7", "T8", "T9", "T10"]),
    ];
    let grid = create_grid(rows, &options(1, 1));
    assert_eq!(grid.len(), 2);
    assert_eq!(
        grid[0],
        vec![
            None,
            None,
            cell("KC_A"),
            cell("KC_B"),
            None,
            None,
            cell("KC_C"),
            cell("KC_D"),
            None,
            None
        ]
    );
    assert_eq!(grid[1].len(), 10);
    assert_eq!(grid[1][0], cell("T1"));
    assert_eq!(grid[1][9], cell("T10"));
}

#[test]
fn split_3x6_3_layout() {
    let finger: Vec<String> = (0..12).map(|i| format!("F{}", i)).collect();
    let thumbs: Vec<String> = (0..6).map(|i| format!("T{}", i)).collect();
    let rows = vec![finger.clone(), finger.clone(), finger.clone(), thumbs];
    let grid = create_grid(rows, &options(1, 1));
    assert_eq!(grid.len(), 4);
    for r in 0..4 {
        assert_eq!(grid[r].len(), 14);
    }
    for r in 0..3 {
        for c in 0..6 {
            assert_eq!(grid[r][c], cell(&format!("F{}", c)));
            assert_eq!(grid[r][8 + c], cell(&format!("F{}", 6 + c)));
        }
        assert_eq!(grid[r][6], None);
        assert_eq!(grid[r][7], None);
    }
    let thumb_row: Vec<Option<String>> = vec![
        None,
        None,
        None,
        None,
        cell("T0"),
        cell("T1"),
        cell("T2"),
        cell("T3"),
        cell("T4"),
        cell("T5"),
        None,
        None,
        None,
        None,
    ];
    assert_eq!(grid[3], thumb_row);
}

#[test]
fn rows_are_rectangular_and_no_narrower_than_input() {
    let shapes: Vec<Vec<usize>> = vec![vec![1], vec![0, 3], vec![5, 2, 7], vec![4, 4, 4, 1], vec![0]];
    for lens in shapes {
        for shift in 0..3 {
            for thumbs in 0..3 {
                let rows: Vec<Vec<String>> = lens
                    .iter()
                    .map(|n| (0..*n).map(|i| format!("K{}", i)).collect())
                    .collect();
                let grid = create_grid(rows, &options(shift, thumbs));
                assert_eq!(grid.len(), lens.len());
                let width = grid[0].len();
                assert_eq!(width % 2, 0);
                for (r, line) in grid.iter().enumerate() {
                    assert_eq!(line.len(), width);
                    assert!(line.len() >= lens[r]);
                    let keys: Vec<String> = line.iter().flatten().cloned().collect();
                    let expected: Vec<String> = (0..lens[r]).map(|i| format!("K{}", i)).collect();
                    assert_eq!(keys, expected);
                }
            }
        }
    }
}

#[test]
fn empty_row_becomes_row_of_gaps() {
    let rows = vec![row(&[]), row(&["A", "B"])];
    let grid = create_grid(rows, &options(0, 0));
    assert_eq!(grid, vec![vec![None, None], vec![cell("A"), cell("B")]]);
}

#[test]
fn no_rows_give_empty_grid() {
    let grid = create_grid(Vec::new(), &PrintOptions::default());
    assert!(grid.is_empty());
}

#[test]
fn more_thumbs_than_rows_shifts_nothing() {
    let rows = vec![row(&["A", "B"]), row(&["C", "D"])];
    let grid = create_grid(rows, &options(2, 5));
    assert_eq!(
        grid,
        vec![vec![cell("A"), cell("B")], vec![cell("C"), cell("D")]]
    );
}

#[test]
fn odd_row_is_padded_before_the_shift() {
    let rows = vec![row(&["A", "B", "C"]), row(&["T"])];
    let grid = create_grid(rows, &options(1, 1));
    assert_eq!(
        grid,
        vec![
            vec![cell("A"), cell("B"), None, None, cell("C"), None],
            vec![None, None, cell("T"), None, None, None],
        ]
    );
}

#[test]
fn default_options() {
    let ops = PrintOptions::new();
    assert_eq!(ops.thumb_shift_in, 1);
    assert!(!ops.left_align);
    assert_eq!(ops.split_space, 5);
    assert!(ops.align_layers);
    assert_eq!(ops.number_of_thumbs, 1);
    assert!(!ops.draw_nice);
    let other = PrintOptions::default();
    assert_eq!(other.thumb_shift_in, 1);
    assert_eq!(other.split_space, 5);
}
