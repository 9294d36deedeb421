use prime_walk::parse_color;

#[test]
fn test_parse_color_accepts_plain_triples() {
    assert_eq!(parse_color("255,0,0"), Ok((255, 0, 0)));
    assert_eq!(parse_color("0,0,255"), Ok((0, 0, 255)));
    assert_eq!(parse_color("12,34,56"), Ok((12, 34, 56)));
    assert_eq!(parse_color("007,08,9"), Ok((7, 8, 9)));
}

#[test]
fn test_parse_color_accepts_leading_plus() {
    assert_eq!(parse_color("+5,6,7"), Ok((5, 6, 7)));
}

#[test]
fn test_parse_color_rejects_wrong_part_count() {
    assert_eq!(
        parse_color("1,2"),
        Err("Color must be in R,G,B format, got: 1,2".to_string())
    );
    assert_eq!(
        parse_color("1,2,3,4"),
        Err("Color must be in R,G,B format, got: 1,2,3,4".to_string())
    );
    assert_eq!(
        parse_color(""),
        Err("Color must be in R,G,B format, got: ".to_string())
    );
}

#[test]
fn test_parse_color_rejects_out_of_range_values() {
    assert_eq!(parse_color("256,0,0"), Err("Invalid red value: 256".to_string()));
    assert_eq!(parse_color("0,999,0"), Err("Invalid green value: 999".to_string()));
    assert_eq!(parse_color("0,0,300"), Err("Invalid blue value: 300".to_string()));
}

#[test]
fn test_parse_color_rejects_non_numbers() {
    assert_eq!(parse_color("x,2,3"), Err("Invalid red value: x".to_string()));
    assert_eq!(parse_color("1,-2,3"), Err("Invalid green value: -2".to_string()));
    assert_eq!(parse_color("1,2,"), Err("Invalid blue value: ".to_string()));
    assert_eq!(parse_color("1,2, 3"), Err("Invalid blue value:  3".to_string()));
}

#[test]
fn test_parse_color_matches_standard_parser() {
    // The library's number parsing agrees with `str::parse::<u8>` on every
    // part it sees.
    for text in ["0", "255", "256", "+17", "-1", "", "1e2", "0255", " 4", "+"] {
        let combined = format!("{0},{0},{0}", text);
        let got = parse_color(&combined);
        let standard = text.parse::<u8>();
        assert_eq!(got.is_ok(), standard.is_ok(), "disagreement on {:?}", text);
        if let (Ok(triple), Ok(value)) = (got, standard) {
            assert_eq!(triple, (value, value, value));
        }
    }
}
