use stencilwright::cli::{
    default_element_name, is_secret_ref, map_masked_command, search_categories, shell_quote,
    templates_for, validate_name, validate_onepassword_account, validate_secret_reference,
    value_search_query, AccountError, NameError, SearchError, SiteTemplates,
};
use stencilwright::model::UnmaskApprovalContext;

#[test]
fn masked_mapping_command_preserves_place_scope() {
    let mut context = UnmaskApprovalContext::empty();
    context.site = Some("example".to_string());
    context.place = Some("listing_main".to_string());

    assert_eq!(
        map_masked_command(&context, "app-post a[slot=title]", Some("post_titles"), None),
        "stencilwright example place listing_main element add 'app-post a[slot=title]' --as post_titles"
    );
}

#[test]
fn shell_quote_escapes_single_quotes() {
    assert_eq!(shell_quote("a[slot='title']"), r#"'a[slot='\''title'\'']'"#);
}

#[test]
fn otp_reference_form_is_valid() {
    validate_secret_reference("secret://1password/vault-id/item-id/otp?").unwrap();
}

#[test]
fn unsupported_provider_reference_is_rejected() {
    validate_secret_reference("secret://unsupported/item/field").unwrap_err();
}

#[test]
fn masked_command_without_place_or_site() {
    let context = UnmaskApprovalContext::empty();
    assert_eq!(
        map_masked_command(&context, ".x", Some(""), Some("{pw}")),
        "stencilwright '<site>' element add .x --auto-fill '{pw}'"
    );
}

#[test]
fn safe_words_stay_unquoted() {
    assert_eq!(shell_quote("abc-1.2/x:y@z_"), "abc-1.2/x:y@z_");
    assert_eq!(shell_quote(""), "");
    assert_eq!(shell_quote("a b"), "'a b'");
}

#[test]
fn value_names_are_snake_case() {
    assert_eq!(validate_name("example_username"), Ok(()));
    assert_eq!(validate_name("_x9"), Ok(()));
    assert_eq!(validate_name(""), Err(NameError::Empty));
    assert_eq!(validate_name("9x"), Err(NameError::BadStart));
    assert_eq!(validate_name("aB"), Err(NameError::NotSnakeCase));
}

#[test]
fn onepassword_accounts_are_trimmed_words() {
    assert_eq!(
        validate_onepassword_account("  my.1password.com "),
        Ok("my.1password.com".to_string())
    );
    assert_eq!(validate_onepassword_account("   "), Err(AccountError::Empty));
    assert_eq!(
        validate_onepassword_account("a b"),
        Err(AccountError::ContainsWhitespace)
    );
}

#[test]
fn search_defaults() {
    assert_eq!(search_categories(true, &vec!["X".to_string()]), Vec::<String>::new());
    assert_eq!(search_categories(false, &vec![]), vec!["Login".to_string()]);
    assert_eq!(
        search_categories(false, &vec!["A".to_string()]),
        vec!["A".to_string()]
    );
    match value_search_query(" x ", None, false, &vec![], 10) {
        Err(e) => assert_eq!(e, SearchError::QueryTooShort),
        Ok(_) => panic!("short query accepted"),
    }
    let (q, n) = value_search_query(" bank ", Some("  ".to_string()), false, &vec![], 100)
        .unwrap_or_else(|_| panic!("query"));
    assert_eq!(q.search.as_deref(), Some("bank"));
    assert_eq!(q.vault, None);
    assert_eq!(q.categories, vec!["Login".to_string()]);
    assert_eq!(n, 25);
    let (_, n) = value_search_query("ab", None, true, &vec![], 0).unwrap_or_else(|_| panic!("query"));
    assert_eq!(n, 1);
}

#[test]
fn fill_values_that_are_references() {
    assert!(is_secret_ref("secret://1password/v/i/f"));
    assert!(is_secret_ref("{name}"));
    assert!(is_secret_ref("{}"));
    assert!(!is_secret_ref("{"));
    assert!(!is_secret_ref("plain"));
}

#[test]
fn example_site_gets_example_templates() {
    assert_eq!(templates_for("example"), SiteTemplates::Example);
    assert_eq!(templates_for("other"), SiteTemplates::Default);
    assert_eq!(default_element_name(3), "auto_3");
}
