use rust_chess_engine::layout::{centered, column_widths, square_shade, SquareShade};

#[test]
fn text_is_centred_with_the_odd_space_after_it() {
    assert_eq!(centered("ab", 6), "  ab  ");
    assert_eq!(centered("ab", 7), "  ab   ");
    assert_eq!(centered("abc", 4), "abc ");
    assert_eq!(centered("abcdef", 6), "abcdef");
    assert_eq!(centered("abcdefg", 3), "abcdefg");
    assert_eq!(centered("", 3), "   ");
    // the room is counted in bytes
    assert_eq!(centered("é", 4), " é ");
}

#[test]
fn shade_of_a_square() {
    let none: Vec<usize> = Vec::new();
    // a1 is dark, b1 is light
    assert_eq!(square_shade(0x00, 0, 0, &none, None), SquareShade::Dark);
    assert_eq!(square_shade(0x01, 0, 1, &none, None), SquareShade::Light);
    assert_eq!(square_shade(0x77, 7, 7, &none, None), SquareShade::Dark);
    assert_eq!(square_shade(0x14, 1, 4, &none, Some((0x14, 0x34))), SquareShade::LastMove);
    assert_eq!(square_shade(0x34, 3, 4, &none, Some((0x14, 0x34))), SquareShade::LastMove);
    assert_eq!(square_shade(0x24, 2, 4, &none, Some((0x14, 0x34))), SquareShade::Dark);
    let picked = vec![0x33usize, 0x34];
    assert_eq!(square_shade(0x34, 3, 4, &picked, Some((0x14, 0x34))), SquareShade::Selected);
    assert_eq!(square_shade(0x35, 3, 5, &picked, None), SquareShade::Dark);
}

#[test]
fn widths_of_columns() {
    let headers = vec![6usize, 5];
    let rows = vec![vec![14usize, 3], vec![2, 9, 40], vec![1]];
    assert_eq!(column_widths(&headers, &rows), vec![14, 9]);
    assert_eq!(column_widths(&headers, &Vec::new()), vec![6, 5]);
    assert_eq!(column_widths(&Vec::new(), &rows), Vec::<usize>::new());
}
