use mandelbrot::zoom_path::{number_of, split_elements, Quad, ZoomPath, ZoomPathError};

#[test]
fn a_path_is_read_element_by_element() {
    let path = ZoomPath::from_str("1,2,3,4").unwrap();
    assert_eq!(
        path.0,
        vec![Quad::TopLeft, Quad::TopRight, Quad::BottomLeft, Quad::BottomRight]
    );
    let path = ZoomPath::from_str("4").unwrap();
    assert_eq!(path.0, vec![Quad::BottomRight]);
    let path = ZoomPath::from_bytes(b"2,2").unwrap();
    assert_eq!(path.0, vec![Quad::TopRight, Quad::TopRight]);
}

#[test]
fn numbers_may_carry_a_plus_sign_and_leading_zeros() {
    let path = ZoomPath::from_str("+1,02,0003,+004").unwrap();
    assert_eq!(
        path.0,
        vec![Quad::TopLeft, Quad::TopRight, Quad::BottomLeft, Quad::BottomRight]
    );
}

#[test]
fn what_is_no_number_is_refused_with_its_index() {
    let cases: [(&str, usize); 12] = [
        ("", 0),
        (",", 0),
        ("1,", 1),
        ("1,,2", 1),
        ("a", 0),
        ("1,2,x,4", 2),
        ("-1", 0),
        ("+", 0),
        ("1, 2", 1),
        ("256", 0),
        ("1,99999999999999999999", 1),
        ("1,2,3,4,\u{661}", 4),
    ];
    for (text, index) in cases {
        assert_eq!(
            ZoomPath::from_str(text).unwrap_err(),
            ZoomPathError::NotANumber { index },
            "{:?}",
            text
        );
    }
}

#[test]
fn numbers_that_are_no_quadrant_are_refused_with_their_value() {
    assert_eq!(
        ZoomPath::from_str("0").unwrap_err(),
        ZoomPathError::OutOfRange { index: 0, value: 0 }
    );
    assert_eq!(
        ZoomPath::from_str("1,5").unwrap_err(),
        ZoomPathError::OutOfRange { index: 1, value: 5 }
    );
    assert_eq!(
        ZoomPath::from_str("4,3,255,x").unwrap_err(),
        ZoomPathError::OutOfRange { index: 2, value: 255 }
    );
}

#[test]
fn the_first_error_wins() {
    assert_eq!(
        ZoomPath::from_str("9,x").unwrap_err(),
        ZoomPathError::OutOfRange { index: 0, value: 9 }
    );
    assert_eq!(
        ZoomPath::from_str("x,9").unwrap_err(),
        ZoomPathError::NotANumber { index: 0 }
    );
}

#[test]
fn numbers_agree_with_the_standard_parser() {
    let texts = [
        "0", "7", "+7", "007", "255", "256", "+255", "+256", "-0", "", "+", "++1", "1+", "12a",
        " 1", "1 ", "0000000000000000000255", "999",
    ];
    for text in texts {
        let expected: Option<u8> = text.parse::<u8>().ok();
        assert_eq!(number_of(&text.as_bytes().to_vec()), expected, "{:?}", text);
    }
}

#[test]
fn splitting_keeps_empty_elements() {
    assert_eq!(split_elements(b""), vec![Vec::<u8>::new()]);
    assert_eq!(split_elements(b"12"), vec![b"12".to_vec()]);
    assert_eq!(
        split_elements(b",a,,b,"),
        vec![vec![], b"a".to_vec(), vec![], b"b".to_vec(), vec![]]
    );
}
