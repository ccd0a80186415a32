use mad::naming::NamingFormatter;

#[test]
fn test_default_format() {
    let generator = NamingFormatter::new(None);
    assert_eq!(generator.generate("John", "Romero", 1), "john.romero");
}

#[test]
fn test_custom_format_with_initials_and_counter() {
    let generator = NamingFormatter::new(Some(
        "{first_name}.{last_name}__{first_name_initial}{counter}".to_string(),
    ));
    assert_eq!(generator.generate("John", "Romero", 1), "john.romero__j001");
}

#[test]
fn test_case_sensitivity() {
    let generator = NamingFormatter::new(Some(
        "{FIRST_NAME}.{LAST_NAME_INITIAL}{counter}".to_string(),
    ));
    assert_eq!(generator.generate("John", "Romero", 42), "JOHN.R042");
}

#[test]
fn test_normalization() {
    let generator = NamingFormatter::new(Some("{first_name}.{last_name}".to_string()));
    assert_eq!(generator.generate("Adrián", "Peña", 1), "adrian.pena");
}

#[test]
fn test_all_caps_normalization() {
    let generator = NamingFormatter::new(Some("{FIRST_NAME}".to_string()));
    assert_eq!(generator.generate("Adrián", "Peña", 1), "ADRIAN");
}

#[test]
fn plain_template_is_kept() {
    let generator = NamingFormatter::new(Some("service.account".to_string()));
    assert_eq!(generator.generate("John", "Romero", 7), "service.account");
}

#[test]
fn counter_is_padded_to_three_digits_at_least() {
    let generator = NamingFormatter::new(Some("u{counter}".to_string()));
    assert_eq!(generator.generate("a", "b", 0), "u000");
    assert_eq!(generator.generate("a", "b", 7), "u007");
    assert_eq!(generator.generate("a", "b", 1234), "u1234");
    assert_eq!(generator.generate("a", "b", 4294967295), "u4294967295");
}

#[test]
fn empty_names_give_space_initials() {
    let generator = NamingFormatter::new(Some("[{first_name_initial}][{LAST_NAME_INITIAL}]".to_string()));
    assert_eq!(generator.generate("", "", 1), "[ ][ ]");
}

#[test]
fn every_placeholder_is_filled() {
    let generator = NamingFormatter::new(Some(
        "{first_name}|{FIRST_NAME}|{last_name}|{LAST_NAME}|{first_name_initial}|{FIRST_NAME_INITIAL}|{last_name_initial}|{LAST_NAME_INITIAL}|{counter}{counter}"
            .to_string(),
    ));
    assert_eq!(
        generator.generate("Íñigo", "Núñez", 5),
        "inigo|INIGO|nunez|NUNEZ|i|I|n|N|005005"
    );
}

#[test]
fn normalize_maps_accented_letters() {
    assert_eq!(NamingFormatter::normalize("ÁÉÍÓÚÜÑ áéíóúüñ ç"), "AEIOUUN aeiouun c");
    assert_eq!(NamingFormatter::normalize("è"), "e");
    assert_eq!(
        NamingFormatter::normalize("ÀÂÃÄÅ ÈÊË ÌÎÏ ÒÔÕÖ ÙÛ Ý Ç àâãäå èêë ìîï òôõö ùû ýÿ"),
        "AAAAA EEE III OOOO UU Y C aaaaa eee iii oooo uu yy"
    );
    assert_eq!(NamingFormatter::normalize("ØÆßŁ x"), "ØÆßŁ x");
}

#[test]
fn render_takes_cased_names() {
    let generator = NamingFormatter::new(Some("{FIRST_NAME}-{last_name_initial}{counter}".to_string()));
    assert_eq!(generator.render("ana", "ANA", "pérez", "PÉREZ", 3), "ANA-p003");
}

#[test]
fn template_without_placeholders_is_kept() {
    let generator = NamingFormatter::new(Some("{not_a_placeholder}.x".to_string()));
    assert_eq!(generator.generate("John", "Romero", 7), "{not_a_placeholder}.x");
}

#[test]
fn normalize_is_idempotent_and_keeps_length() {
    let once = NamingFormatter::normalize("Ñúñez Óscar");
    let twice = NamingFormatter::normalize(&once);
    assert_eq!(once, twice);
    assert_eq!(once.chars().count(), "Ñúñez Óscar".chars().count());
}

#[test]
fn default_template_joins_lowercase_names() {
    let generator = NamingFormatter::new(None);
    assert_eq!(generator.generate("ÁLVARO", "de la Peña", 99), "alvaro.de la pena");
}
