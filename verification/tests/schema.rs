use speedymd::config::{
    check_field, check_fields, default_ext, default_output_path, default_required, FieldKind,
    FrontmatterField,
};
use speedymd::numbers::{parse_i64, render_i64};

fn plain(name: &str, kind: FieldKind) -> FrontmatterField {
    FrontmatterField {
        name: name.to_string(),
        kind,
        question: String::new(),
        placeholder: String::new(),
        required: false,
        options: Vec::new(),
        properties: Vec::new(),
    }
}

#[test]
fn defaults() {
    assert_eq!(default_ext(), "md");
    assert_eq!(default_output_path(), ".");
    assert!(!default_required());
}

#[test]
fn kind_codes() {
    assert_eq!(FieldKind::from_code("text"), Some(FieldKind::Text));
    assert_eq!(FieldKind::from_code("number"), Some(FieldKind::Number));
    assert_eq!(FieldKind::from_code("boolean"), Some(FieldKind::Boolean));
    assert_eq!(FieldKind::from_code("select"), Some(FieldKind::SingleChoice));
    assert_eq!(FieldKind::from_code("multiselect"), Some(FieldKind::MultiChoice));
    assert_eq!(FieldKind::from_code("object"), Some(FieldKind::Group));
    assert_eq!(FieldKind::from_code("date"), None);
    assert_eq!(FieldKind::from_code(""), None);
}

#[test]
fn well_formed_schema_checks() {
    let mut select = plain("lang", FieldKind::SingleChoice);
    assert!(!check_field(&select));
    select.options.push("en".to_string());
    assert!(check_field(&select));

    let mut text = plain("title", FieldKind::Text);
    assert!(check_field(&text));
    text.options.push("stray".to_string());
    assert!(!check_field(&text));

    let mut g = plain("meta", FieldKind::Group);
    assert!(check_field(&g));
    g.properties.push(plain("x", FieldKind::Text));
    assert!(check_field(&g));
    g.properties.push(plain("inner", FieldKind::Group));
    assert!(!check_field(&g));

    let fields = vec![plain("a", FieldKind::Text), plain("b", FieldKind::Boolean)];
    assert!(check_fields(&fields));
}

#[test]
fn parse_decimal_literals() {
    assert_eq!(parse_i64("0"), Some(0));
    assert_eq!(parse_i64("007"), Some(7));
    assert_eq!(parse_i64("-42"), Some(-42));
    assert_eq!(parse_i64("9223372036854775807"), Some(i64::MAX));
    assert_eq!(parse_i64("-9223372036854775808"), Some(i64::MIN));
    assert_eq!(parse_i64("9223372036854775808"), None);
    assert_eq!(parse_i64("-9223372036854775809"), None);
    assert_eq!(parse_i64(""), None);
    assert_eq!(parse_i64("-"), None);
    assert_eq!(parse_i64("+5"), None);
    assert_eq!(parse_i64("1.5"), None);
    assert_eq!(parse_i64("12a"), None);
    assert_eq!(parse_i64(" 12"), None);
}

#[test]
fn render_decimal_literals() {
    assert_eq!(render_i64(0), "0");
    assert_eq!(render_i64(7), "7");
    assert_eq!(render_i64(-42), "-42");
    assert_eq!(render_i64(i64::MAX), "9223372036854775807");
    assert_eq!(render_i64(i64::MIN), "-9223372036854775808");
}

#[test]
fn parse_render_roundtrip_samples() {
    for n in [0i64, 1, -1, 10, 99, -100, 123456789, i64::MAX, i64::MIN] {
        assert_eq!(parse_i64(&render_i64(n)), Some(n));
    }
}
