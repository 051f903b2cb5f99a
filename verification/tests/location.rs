use ems_model::location::{Address, Country};

#[test]
fn country_codes_and_names() {
    assert_eq!(Country::Germany.code(), "DE");
    assert_eq!(Country::Spain.code(), "ES");
    assert_eq!(Country::Portugal.code(), "PT");
    assert_eq!(Country::Germany.name(), "Germany");
    assert_eq!(Country::Spain.name(), "Spain");
    assert_eq!(Country::Portugal.name(), "Portugal");
    assert_eq!(Country::Germany.local_name(), "Deutschland");
    assert_eq!(Country::Spain.local_name(), "Espa\u{f1}a");
    assert_eq!(Country::Portugal.local_name(), "Portugal");
}

#[test]
fn address_keeps_its_parts() {
    let address = Address::new(
        "Calle Mayor 1".to_string(),
        "Madrid".to_string(),
        Some("Comunidad de Madrid".to_string()),
        "28013".to_string(),
        None,
    );
    assert_eq!(address.street, "Calle Mayor 1");
    assert_eq!(address.city, "Madrid");
    assert_eq!(address.region.as_deref(), Some("Comunidad de Madrid"));
    assert_eq!(address.postal_code, "28013");
    assert_eq!(address.additional_info, None);
}

#[test]
fn formatted_address_with_all_parts() {
    let address = Address::new(
        "Calle Mayor 1".to_string(),
        "Madrid".to_string(),
        Some("Comunidad de Madrid".to_string()),
        "28013".to_string(),
        Some("2B".to_string()),
    );
    assert_eq!(
        address.formatted(),
        "Calle Mayor 1, Madrid, Comunidad de Madrid, 28013, 2B"
    );
}

#[test]
fn formatted_address_leaves_absent_parts_out() {
    let plain = Address::new(
        "Rua Augusta 5".to_string(),
        "Lisboa".to_string(),
        None,
        "1100-048".to_string(),
        None,
    );
    assert_eq!(plain.formatted(), "Rua Augusta 5, Lisboa, 1100-048");

    let with_region = Address::new(
        "Hauptstr. 3".to_string(),
        "Freiburg".to_string(),
        Some("BW".to_string()),
        "79098".to_string(),
        None,
    );
    assert_eq!(with_region.formatted(), "Hauptstr. 3, Freiburg, BW, 79098");

    let with_info = Address::new(
        "Hauptstr. 3".to_string(),
        "Freiburg".to_string(),
        None,
        "79098".to_string(),
        Some("rear".to_string()),
    );
    assert_eq!(with_info.formatted(), "Hauptstr. 3, Freiburg, 79098, rear");
}

#[test]
fn formatted_address_keeps_empty_parts() {
    let address = Address::new(
        String::new(),
        "Porto".to_string(),
        None,
        "4000".to_string(),
        None,
    );
    assert_eq!(address.formatted(), ", Porto, 4000");
}
