use saba_core::attribute::Attribute;

#[test]
fn new_attribute_is_empty() {
    let a = Attribute::new();
    assert_eq!("".to_string(), a.name());
    assert_eq!("".to_string(), a.value());
}

#[test]
fn add_char_builds_name_and_value() {
    let mut a = Attribute::new();
    a.add_char('i', true);
    a.add_char('d', true);
    a.add_char('x', false);
    a.add_char('1', false);
    assert_eq!("id".to_string(), a.name());
    assert_eq!("x1".to_string(), a.value());
}

#[test]
fn default_attribute_is_empty() {
    let a = Attribute::default();
    assert_eq!("".to_string(), a.name());
    assert_eq!("".to_string(), a.value());
}
