use interactive_clap_derive::helpers::snake_case_to_camel_case::snake_case_to_camel_case;
use interactive_clap_derive::helpers::to_kebab_case::to_kebab_case;
use interactive_clap_derive::text::{chars_of, text_contains, text_is};

#[test]
fn camel_case_of_snake_case_name() {
    assert_eq!(snake_case_to_camel_case("data_dir".to_string()), "DataDir");
    assert_eq!(snake_case_to_camel_case("sender_account_id".to_string()), "SenderAccountId");
    assert_eq!(snake_case_to_camel_case("sender".to_string()), "Sender");
}

#[test]
fn camel_case_replaces_every_occurrence_of_the_first_character() {
    assert_eq!(snake_case_to_camel_case("banana".to_string()), "Banana");
    assert_eq!(snake_case_to_camel_case("anna".to_string()), "AnnA");
    assert_eq!(snake_case_to_camel_case("a_b_a".to_string()), "ABA");
}

#[test]
fn camel_case_keeps_non_letters() {
    assert_eq!(snake_case_to_camel_case("x1_2y".to_string()), "X12y");
    assert_eq!(snake_case_to_camel_case("Already".to_string()), "Already");
}

#[test]
fn camel_case_drops_exactly_the_underscores() {
    let s = "public_key_mode".to_string();
    let r = snake_case_to_camel_case(s.clone());
    assert!(!r.contains('_'));
    assert_eq!(r.chars().count() + s.matches('_').count(), s.chars().count());
}

#[test]
fn camel_case_is_idempotent() {
    let once = snake_case_to_camel_case("network_config".to_string());
    let twice = snake_case_to_camel_case(once.clone());
    assert_eq!(once, "NetworkConfig");
    assert_eq!(twice, once);
}

#[test]
fn kebab_case_of_names() {
    assert_eq!(to_kebab_case("ServerAuth".to_string()), "server-auth");
    assert_eq!(to_kebab_case("data_dir".to_string()), "data-dir");
    assert_eq!(to_kebab_case("URL".to_string()), "u-r-l");
    assert_eq!(to_kebab_case("plain".to_string()), "plain");
    assert_eq!(to_kebab_case(String::new()), "");
}

#[test]
fn kebab_case_is_lower_and_idempotent() {
    let once = to_kebab_case("SignWithKeychain_Now".to_string());
    assert_eq!(once, "sign-with-keychain--now");
    assert!(!once.contains('_'));
    assert!(!once.chars().any(|c| c.is_ascii_uppercase()));
    assert_eq!(to_kebab_case(once.clone()), once);
}

#[test]
fn substring_search() {
    assert!(text_contains("output_context = Foo", "context"));
    assert!(text_contains("abc", ""));
    assert!(text_contains("skip", "skip"));
    assert!(!text_contains("ski", "skip"));
    assert!(!text_contains("named", "named_arg"));
}

#[test]
fn literal_comparison_and_characters() {
    assert!(text_is(&"doc".to_string(), "doc"));
    assert!(!text_is(&"docs".to_string(), "doc"));
    assert_eq!(chars_of("héllo"), vec!['h', 'é', 'l', 'l', 'o']);
}

#[test]
fn camel_case_of_joined_names() {
    let joined = snake_case_to_camel_case("data_dir".to_string());
    let parts = snake_case_to_camel_case("data".to_string()) + &snake_case_to_camel_case("dir".to_string());
    assert_eq!(joined, parts);
    assert_eq!(joined, "DataDir");
    let joined = snake_case_to_camel_case("public_key_mode".to_string());
    let parts =
        snake_case_to_camel_case("public".to_string()) + &snake_case_to_camel_case("key_mode".to_string());
    assert_eq!(joined, parts);
    assert_eq!(joined, "PublicKeyMode");
}
