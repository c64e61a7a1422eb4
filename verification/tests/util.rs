use terra::util::{capitalize, hexstring, name_to_id, prepare_name, prepare_name_extra};

#[test]
fn capitalize_first_letter_only() {
    assert_eq!(capitalize("hello world"), "Hello world");
    assert_eq!(capitalize("привет"), "Привет");
    assert_eq!(capitalize("aBC"), "ABC");
    assert_eq!(capitalize("1abc"), "1abc");
    assert_eq!(capitalize(""), "");
}

#[test]
fn capitalize_may_lengthen() {
    assert_eq!(capitalize("ßa"), "SSa");
}

#[test]
fn prepare_name_normalises() {
    assert_eq!(prepare_name("  иВАН  "), "Иван");
    assert_eq!(prepare_name("АННА"), "Анна");
    assert_eq!(prepare_name("анна \t  мария"), "Анна мария");
    assert_eq!(prepare_name("a  b   c"), "A b c");
    assert_eq!(prepare_name(""), "");
    assert_eq!(prepare_name(" \n "), "");
}

#[test]
fn prepare_name_extra_normalises() {
    assert_eq!(prepare_name_extra(None), None);
    assert_eq!(prepare_name_extra(Some("")), None);
    assert_eq!(prepare_name_extra(Some("  \t ")), None);
    assert_eq!(prepare_name_extra(Some("  де   Ла  Круа ")), Some("де Ла Круа".to_string()));
    assert_eq!(prepare_name_extra(Some("x")), Some("x".to_string()));
}

#[test]
fn name_to_id_makes_identifiers() {
    assert_eq!(name_to_id("Hello World!"), "hello_world");
    assert_eq!(name_to_id("  Dark  Elves "), "dark__elves");
    assert_eq!(name_to_id("Already_fine_1"), "already_fine_1");
    assert_eq!(name_to_id("Эльфы крови"), "эльфы_крови");
    assert_eq!(name_to_id("!?"), "");
}

#[test]
fn hexstring_spells_bytes() {
    assert_eq!(hexstring(&[]), "");
    assert_eq!(hexstring(&[0]), "00");
    assert_eq!(hexstring(&[0, 255, 16, 0xab, 9]), "00FF10AB09");
}

#[test]
fn push_decimal_writes_digits() {
    let mut out: Vec<char> = vec!['x'];
    terra::util::push_decimal(&mut out, 0);
    terra::util::push_decimal(&mut out, 7);
    terra::util::push_decimal(&mut out, 1230);
    terra::util::push_decimal(&mut out, u32::MAX);
    assert_eq!(out.iter().collect::<String>(), "x0712304294967295");
}
