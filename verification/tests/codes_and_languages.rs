use intersections::codes::{generate_unique_code, insert_dashes, make_salt};
use intersections::lang::{
    last_url_segment, switched_index_language, switched_language, toggle_language_index_location,
    toggle_language_location, toggle_language_three_location, toggle_language_two_location, translation_direction,
    validated_lang,
};
use intersections::AppState;

fn dashes(s: &str) -> String {
    insert_dashes(&s.chars().collect()).into_iter().collect()
}

#[test]
fn dashes_group_codes() {
    assert_eq!(dashes("abcdefghijklmnopqrstuvwx"), "abcd-efg-hij-klm-nop-qrs-tuv-wx");
    assert_eq!(dashes("abcd"), "abcd-");
    assert_eq!(dashes("abc"), "abc");
    assert_eq!(dashes(""), "");
    assert_eq!(dashes("abcdefgh"), "abcd-efg-h");
}

#[test]
fn removing_dashes_gives_the_code_back() {
    let raw = "Ab3dEf7hIj9lMn0pQr2tUv4x";
    let d = dashes(raw);
    assert_eq!(d.replace('-', ""), raw);
}

#[test]
fn unique_codes_have_the_asked_shape() {
    let code = generate_unique_code(24, true);
    assert_eq!(code.chars().count(), 31);
    let raw: String = code.chars().filter(|c| *c != '-').collect();
    assert_eq!(raw.len(), 24);
    assert!(raw.chars().all(|c| c.is_ascii_alphanumeric()));
    assert_eq!(dashes(&raw), code);
    let long = generate_unique_code(100, false);
    assert_eq!(long.len(), 64);
    assert!(long.chars().all(|c| c.is_ascii_alphanumeric()));
}

#[test]
fn salts_come_from_the_alphabet() {
    let alphabet = "ABCDEFGHIJKLMNOPQRSTUVWXYZabcdefghijklmnopqrstuvwxyz0123456789)(*&^%$#@!~";
    let salt = make_salt();
    assert_eq!(salt.chars().count(), 128);
    assert!(salt.chars().all(|c| alphabet.contains(c)));
}

#[test]
fn languages_validate_and_switch() {
    assert_eq!(validated_lang("fr"), "fr");
    assert_eq!(validated_lang("de"), "en");
    assert_eq!(switched_language("en"), "fr");
    assert_eq!(switched_language("fr"), "en");
    assert_eq!(switched_language("xx"), "en");
    assert_eq!(switched_index_language("fr"), "en");
    assert_eq!(switched_index_language("en"), "fr");
    assert_eq!(switched_index_language("xx"), "en");
    assert_eq!(switched_language(&switched_language("fr")), "fr");
}

#[test]
fn language_toggles_redirect() {
    assert_eq!(toggle_language_index_location("en"), "/fr");
    assert_eq!(toggle_language_location("en", "http://x/en/about"), "/fr/about");
    assert_eq!(toggle_language_location("fr", "about"), "/en/about");
    assert_eq!(toggle_language_two_location("en", "node", "gen_x"), "/fr/node/gen_x");
    assert_eq!(toggle_language_three_location("fr", "community", "c1", "x"), "/en/community/c1/x");
    assert_eq!(last_url_segment("a/b/"), "");
    assert_eq!(last_url_segment("abc"), "abc");
}

#[test]
fn translation_goes_to_the_other_language() {
    assert_eq!(
        translation_direction("fr"),
        ("FR".to_string(), "EN".to_string(), "en".to_string())
    );
    assert_eq!(
        translation_direction("en"),
        ("EN".to_string(), "FR".to_string(), "fr".to_string())
    );
    assert_eq!(
        translation_direction("es"),
        ("EN".to_string(), "FR".to_string(), "fr".to_string())
    );
}

#[test]
fn app_state_keeps_its_name() {
    assert_eq!(AppState::new("intersections").app_name, "intersections");
}
