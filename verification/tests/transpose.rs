use gametree::utils::{all_rows_equally_long, zip, GridError};

#[test]
fn zip_transposes_a_rectangular_grid() {
    let grid = vec![vec![1, 2, 3], vec![4, 5, 6]];
    assert_eq!(zip(grid), Ok(vec![vec![1, 4], vec![2, 5], vec![3, 6]]));
}

#[test]
fn zip_twice_gives_the_grid_back() {
    let grid = vec![vec!['a', 'b'], vec!['c', 'd'], vec!['e', 'f']];
    let once = zip(grid.clone()).unwrap();
    assert_eq!(once, vec![vec!['a', 'c', 'e'], vec!['b', 'd', 'f']]);
    assert_eq!(zip(once), Ok(grid));
}

#[test]
fn zip_turns_one_row_into_one_column() {
    let grid = vec![vec![7, 8, 9, 10]];
    assert_eq!(zip(grid), Ok(vec![vec![7], vec![8], vec![9], vec![10]]));
}

#[test]
fn zip_rejects_rows_of_different_length() {
    assert_eq!(
        zip(vec![vec![1, 2, 3], vec![4]]),
        Err(GridError::NotRectangular)
    );
    assert_eq!(
        zip(vec![vec![], vec![4]]),
        Err(GridError::NotRectangular)
    );
}

#[test]
fn zip_of_nothing_is_nothing() {
    assert_eq!(zip(Vec::<Vec<u8>>::new()), Ok(Vec::new()));
    // Rows without cells have no columns.
    assert_eq!(zip(vec![Vec::<u8>::new(), Vec::new()]), Ok(Vec::new()));
}

#[test]
fn zip_moves_values_that_cannot_be_copied() {
    let grid = vec![
        vec![String::from("a"), String::from("b")],
        vec![String::from("c"), String::from("d")],
    ];
    assert_eq!(
        zip(grid),
        Ok(vec![
            vec![String::from("a"), String::from("c")],
            vec![String::from("b"), String::from("d")],
        ])
    );
}

#[test]
fn rows_of_one_length_make_a_rectangle() {
    assert!(all_rows_equally_long(&vec![vec![1, 2], vec![3, 4], vec![5, 6]]));
    assert!(all_rows_equally_long(&vec![Vec::<u8>::new(), Vec::new()]));
    assert!(all_rows_equally_long(&Vec::<Vec<u8>>::new()));
    assert!(!all_rows_equally_long(&vec![vec![1, 2], vec![3]]));
    assert!(!all_rows_equally_long(&vec![vec![1], vec![2], vec![3, 4]]));
}
