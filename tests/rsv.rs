use rsv_format::{
    convert_rsv_to_vec, convert_vec_to_rsv, json_text_to_table, table_to_json_text, DecodeError,
    JsonError, EOR, EOV, NULL,
};

fn text(s: &str) -> Option<String> {
    Some(String::from(s))
}

fn sample_bytes() -> Vec<u8> {
    vec![
        72, 101, 108, 108, 111, 255, 240, 159, 140, 142, 255, 253, 253, 254, 255, 255, 253,
    ]
}

#[test]
fn test_from_vec() {
    let table_data = vec![
        vec![
            Some(String::from("A")),
            Some(String::from("B")),
            Some(String::from("Hello")),
            Some(String::from("Word")),
        ],
        vec![],
        vec![Some(String::from("C")), None, Some(String::from("D"))],
    ];

    let file_content = convert_vec_to_rsv(table_data);
    assert_eq!(
        file_content,
        vec![
            b'A', EOV, b'B', EOV, b'H', b'e', b'l', b'l', b'o', EOV, b'W', b'o', b'r', b'd',
            EOV, EOR, EOR, b'C', EOV, NULL, EOV, b'D', EOV, EOR
        ]
    );
}

#[test]
fn test_from_json1() {
    let result = json_text_to_table("[[\"Hello\",\"🌎\"]]");
    assert!(result.is_ok());

    let file_content = convert_vec_to_rsv(result.unwrap());
    assert_eq!(
        file_content,
        vec![72, 101, 108, 108, 111, 255, 240, 159, 140, 142, 255, 253]
    );
}

#[test]
fn test_from_json2() {
    let result = json_text_to_table("[[\"Hello\", \"🌎\"], [], [null, \"\"]]");
    assert!(result.is_ok());

    let file_content = convert_vec_to_rsv(result.unwrap());
    assert_eq!(
        file_content,
        vec![
            72, 101, 108, 108, 111, 255, 240, 159, 140, 142, 255, 253, 253, 254, 255, 255, 253
        ]
    );
}

#[test]
fn test_to_vec() {
    let result = convert_rsv_to_vec(&sample_bytes());

    assert!(result.is_ok());

    assert_eq!(
        result.unwrap(),
        vec![
            vec![Some(String::from("Hello")), Some(String::from("🌎"))],
            vec![],
            vec![None, Some(String::from(""))]
        ]
    );
}

#[test]
fn test_to_json() {
    let table = convert_rsv_to_vec(&sample_bytes()).unwrap();
    let result = table_to_json_text(&table);

    assert!(result.is_ok());
}

#[test]
fn empty_table_encodes_to_nothing() {
    assert_eq!(convert_vec_to_rsv(vec![]), Vec::<u8>::new());
}

#[test]
fn empty_bytes_decode_to_empty_table() {
    assert_eq!(convert_rsv_to_vec(&[]), Ok(vec![]));
}

#[test]
fn empty_row_is_one_end_of_row() {
    assert_eq!(convert_vec_to_rsv(vec![vec![]]), vec![EOR]);
    assert_eq!(convert_rsv_to_vec(&[EOR]), Ok(vec![vec![]]));
}

#[test]
fn null_and_empty_text_stay_apart() {
    assert_eq!(convert_vec_to_rsv(vec![vec![None]]), vec![NULL, EOV, EOR]);
    assert_eq!(convert_vec_to_rsv(vec![vec![text("")]]), vec![EOV, EOR]);
    assert_eq!(convert_rsv_to_vec(&[NULL, EOV, EOR]), Ok(vec![vec![None]]));
    assert_eq!(convert_rsv_to_vec(&[EOV, EOR]), Ok(vec![vec![text("")]]));
}

#[test]
fn unterminated_row_is_dropped() {
    assert_eq!(convert_rsv_to_vec(&[b'A', EOV]), Ok(vec![]));
    assert_eq!(
        convert_rsv_to_vec(&[b'A', EOV, EOR, b'B', EOV, b'C']),
        Ok(vec![vec![text("A")]])
    );
}

#[test]
fn invalid_utf8_value_is_an_error() {
    assert_eq!(
        convert_rsv_to_vec(&[0xC3, EOV, EOR]),
        Err(DecodeError::InvalidText)
    );
    assert_eq!(
        convert_rsv_to_vec(&[b'o', b'k', EOV, EOR, 0x80, EOV]),
        Err(DecodeError::InvalidText)
    );
}

#[test]
fn invalid_bytes_never_ended_are_not_checked() {
    assert_eq!(convert_rsv_to_vec(&[b'A', EOV, EOR, 0xC3]), Ok(vec![vec![text("A")]]));
}

#[test]
fn null_marker_discards_pending_bytes() {
    assert_eq!(
        convert_rsv_to_vec(&[NULL, b'a', EOV, b'b', EOV, EOR]),
        Ok(vec![vec![None, text("b")]])
    );
}

#[test]
fn end_of_row_discards_value_in_progress() {
    assert_eq!(
        convert_rsv_to_vec(&[b'a', EOR, b'b', EOV, EOR]),
        Ok(vec![vec![], vec![text("b")]])
    );
}

#[test]
fn decoded_text_is_utf8_decoded() {
    assert_eq!(
        convert_rsv_to_vec(&[0xC3, 0xA9, EOV, EOR]),
        Ok(vec![vec![text("é")]])
    );
}

#[test]
fn round_trip_keeps_table() {
    let table = vec![
        vec![text("Hello"), None, text(""), text("🌎 wörld")],
        vec![],
        vec![None],
        vec![text("")],
        vec![],
    ];
    let bytes = convert_vec_to_rsv(table.clone());
    assert_eq!(convert_rsv_to_vec(&bytes), Ok(table));
}

#[test]
fn json_round_trip_keeps_table() {
    let table = vec![
        vec![text("Hello"), None, text("")],
        vec![],
        vec![text("quote \" and \\ slash"), text("🌎")],
    ];
    let json = table_to_json_text(&table).unwrap();
    assert_eq!(json_text_to_table(&json).unwrap(), table);
}

#[test]
fn table_to_json_text_writes_nulls_and_strings() {
    let table = vec![vec![text("A"), None], vec![]];
    assert_eq!(table_to_json_text(&table).unwrap(), "[[\"A\",null],[]]");
}

#[test]
fn malformed_json_is_a_parse_error() {
    assert!(matches!(json_text_to_table("not json"), Err(JsonError::Parse(_))));
    assert!(matches!(json_text_to_table("[[1]]"), Err(JsonError::Parse(_))));
    assert!(matches!(json_text_to_table("[\"A\"]"), Err(JsonError::Parse(_))));
}
