use rid_catalog::sanitize::{sanitize_label, sanitize_numeric};

#[test]
fn label_keeps_letters_digits_spaces() {
    assert_eq!(sanitize_label("Informatics 2021"), "Informatics 2021");
    assert_eq!(sanitize_label("Информатика и право"), "Информатика и право");
}

#[test]
fn label_strips_adversarial_characters() {
    assert_eq!(
        sanitize_label("Robert'); DROP TABLE Students;--"),
        "Robert DROP TABLE Students"
    );
    assert_eq!(sanitize_label("a\"b'c;d%e_f\\g"), "abcdefg");
    assert_eq!(sanitize_label("' or '1'='1"), " or 11");
}

#[test]
fn label_outside_basic_cyrillic_ranges_is_dropped() {
    assert_eq!(sanitize_label("ёлка"), "лка");
    assert_eq!(sanitize_label("Ёж и еж"), "ж и еж");
}

#[test]
fn label_empty_output_is_valid() {
    assert_eq!(sanitize_label(""), "");
    assert_eq!(sanitize_label("!!!;;;'''"), "");
}

#[test]
fn numeric_keeps_digits_only() {
    assert_eq!(sanitize_numeric("2021"), "2021");
    assert_eq!(sanitize_numeric("20a2'1; --"), "2021");
    assert_eq!(sanitize_numeric("год 2021"), "2021");
    assert_eq!(sanitize_numeric("no digits"), "");
}
