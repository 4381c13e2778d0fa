use foam_ls::position::{col_from_index, count_characters_per_line, index_from_line_and_col};

#[test]
fn line_table_counts_line_feeds() {
    assert_eq!(count_characters_per_line("ab\ncde\n"), vec![3, 4]);
    assert_eq!(count_characters_per_line("ab\ncd"), vec![3, 3]);
    assert_eq!(count_characters_per_line("\n\n"), vec![1, 1]);
    assert_eq!(count_characters_per_line(""), Vec::<usize>::new());
}

#[test]
fn carriage_return_before_line_feed_is_not_counted() {
    assert_eq!(count_characters_per_line("a\r\nb"), vec![2, 2]);
    assert_eq!(count_characters_per_line("ab\r\ncd\r\n"), vec![3, 3]);
    assert_eq!(count_characters_per_line("\r\n"), vec![1]);
    assert_eq!(count_characters_per_line("a\r"), vec![3]);
}

#[test]
fn offset_of_position() {
    assert_eq!(index_from_line_and_col(vec![3, 4], 0, 2), 2);
    assert_eq!(index_from_line_and_col(vec![3, 4], 1, 2), 5);
    assert_eq!(index_from_line_and_col(vec![3, 4], 5, 1), 8);
}

#[test]
fn column_of_offset() {
    assert_eq!(col_from_index(vec![3, 4], 5), 2);
    assert_eq!(col_from_index(vec![3, 4], 3), 0);
    assert_eq!(col_from_index(vec![3, 4], 100), 0);
}

#[test]
fn position_round_trip() {
    let table = count_characters_per_line("FoamFile\n{\n  format ascii;\n}\n");
    for line in 0..table.len() {
        for col in 0..table[line] {
            let offset = index_from_line_and_col(table.clone(), line, col);
            assert_eq!(col_from_index(table.clone(), offset), col);
        }
    }
}
