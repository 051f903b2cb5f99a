use ems_model::table::{
    find_column, has_columns, keep_number_bytes, normalize_decimal, same_bytes, split_fields,
    strip_quotes,
};

fn fields_of(line: &str) -> Vec<String> {
    split_fields(line.as_bytes())
        .into_iter()
        .map(|field| String::from_utf8(field).unwrap())
        .collect()
}

#[test]
fn line_is_split_at_its_commas() {
    assert_eq!(fields_of("Time,Solar"), vec!["Time", "Solar"]);
    assert_eq!(
        fields_of("2022-01-01 00:00,1.5,0.0,230.25,0"),
        vec!["2022-01-01 00:00", "1.5", "0.0", "230.25", "0"]
    );
    assert_eq!(fields_of("alone"), vec!["alone"]);
}

#[test]
fn empty_fields_are_kept() {
    assert_eq!(fields_of(""), vec![""]);
    assert_eq!(fields_of(","), vec!["", ""]);
    assert_eq!(fields_of("a,,b,"), vec!["a", "", "b", ""]);
    assert_eq!(fields_of(",x"), vec!["", "x"]);
}

#[test]
fn split_agrees_with_the_standard_split() {
    for line in [
        "Time,HotWater,SpaceHeat,Electricity,Charge",
        "\"3,67\",\"4,01\"",
        "Espa\u{f1}a,\u{20ac} 5,x",
        ",,,",
        "no comma at all",
    ] {
        let expected: Vec<&str> = line.split(',').collect();
        assert_eq!(fields_of(line), expected);
    }
}

#[test]
fn joined_fields_give_the_line_back() {
    let line = b"a,bc,,d";
    let fields = split_fields(line);
    let joined = fields.join(&b","[..]);
    assert_eq!(joined, line);
    assert!(fields.iter().all(|field| !field.contains(&b',')));
}

#[test]
fn column_is_found_by_its_name() {
    let header = split_fields(b"utc,ES_COP_ASHP_floor,ES_COP_ASHP_radiator,ES_heat_demand_space_SFH");
    assert_eq!(find_column(&header, b"ES_COP_ASHP_floor"), Some(1));
    assert_eq!(find_column(&header, b"ES_COP_ASHP_radiator"), Some(2));
    assert_eq!(find_column(&header, b"ES_heat_demand_space_SFH"), Some(3));
    assert_eq!(find_column(&header, b"ES_heat_demand_space_MFH"), None);
    assert_eq!(find_column(&header, b"ES_COP_ASHP"), None);
    let twice = split_fields(b"x,y,x");
    assert_eq!(find_column(&twice, b"x"), Some(0));
}

#[test]
fn columns_are_counted() {
    let fields = split_fields(b"a,b,c");
    assert!(has_columns(&fields, 0));
    assert!(has_columns(&fields, 3));
    assert!(!has_columns(&fields, 4));
}

#[test]
fn bytes_are_compared() {
    assert!(same_bytes(b"", b""));
    assert!(same_bytes(b"abc", b"abc"));
    assert!(!same_bytes(b"abc", b"abd"));
    assert!(!same_bytes(b"abc", b"ab"));
    assert!(!same_bytes(b"", b"a"));
}

#[test]
fn decimal_comma_becomes_a_point() {
    assert_eq!(normalize_decimal(b"3,67"), b"3.67");
    assert_eq!(normalize_decimal(b"3.67"), b"3.67");
    assert_eq!(normalize_decimal(b"-1,5"), b"-1.5");
    assert_eq!(normalize_decimal(b""), b"");
    assert_eq!(normalize_decimal(b"1,2,3"), b"1.2.3");
    assert_eq!("3,67".replace(',', "."), "3.67");
}

#[test]
fn quotes_around_a_field_are_taken_away() {
    assert_eq!(strip_quotes(b"\"3,67\""), b"3,67");
    assert_eq!(strip_quotes(b"3,67"), b"3,67");
    assert_eq!(strip_quotes(b"\"\"x\""), b"x");
    assert_eq!(strip_quotes(b"a\"b"), b"a\"b");
    assert_eq!(strip_quotes(b"\"\"\""), b"");
    assert_eq!(strip_quotes(b""), b"");
    for text in ["\"3,67\"", "\"\"x\"", "a\"b", "\"\"\"", "", "\"a"] {
        assert_eq!(
            strip_quotes(text.as_bytes()),
            text.trim_matches('"').as_bytes()
        );
    }
}

#[test]
fn only_number_bytes_are_kept() {
    assert_eq!(keep_number_bytes(b"1000"), b"1000");
    assert_eq!(keep_number_bytes(b" 1 500,25 Wh"), b"1500,25");
    assert_eq!(keep_number_bytes(b"-3.5e2"), b"-3.52");
    assert_eq!(keep_number_bytes(b"kWh"), b"");
    assert_eq!(keep_number_bytes("12\u{a0}345 \u{20ac}".as_bytes()), b"12345");
    for text in ["1000", " 1 500,25 Wh", "-3.5e2", "12\u{a0}345 \u{20ac}", "/:09"] {
        let expected: String = text
            .chars()
            .filter(|c| c.is_ascii_digit() || *c == '.' || *c == '-' || *c == ',')
            .collect();
        assert_eq!(keep_number_bytes(text.as_bytes()), expected.as_bytes());
    }
}

#[test]
fn cleaned_text_reads_as_the_number() {
    let cleaned = keep_number_bytes(b"1500,25 Wh");
    let text = String::from_utf8(normalize_decimal(&cleaned)).unwrap();
    assert_eq!(text.parse::<f64>().unwrap(), 1500.25);
    let quoted = strip_quotes(b"\"3,67\"");
    let text = String::from_utf8(normalize_decimal(&quoted)).unwrap();
    assert_eq!(text.parse::<f64>().unwrap(), 3.67);
}
