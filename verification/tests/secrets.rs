use stencilwright::slot::ValueNameMap;
use stencilwright::discovery::{
    compare_discovered_items, discovered_item_from_value, discovered_url_from_value,
    select_discovered_items,
    sort_discovered_items, DiscoveredSecretItem, DiscoveredSecretUrl, ItemEntry, JsonField,
    UrlEntry, VaultEntry,
};
use stencilwright::model::SiteConfig;
use stencilwright::percent::{decode_component, encode_component, DecodeError};
use stencilwright::secrets::{
    clean_account, is_credential_reference, is_secret_reference, is_totp_reference,
    item_field_get_args, item_list_args, normalized_search, op_account_args,
    resolve_command_args, secret_from_output, selected_account, validate_reference, OpConfig,
    SecretDiscoveryQuery, SecretProvider, SecretProviderId, SecretRefError, SecretReference,
    OnePasswordProvider,
};
use std::cmp::Ordering;

fn text(s: &str) -> JsonField {
    JsonField::Text(s.to_string())
}

#[test]
fn op_config_uses_trimmed_site_account() {
    let config = SiteConfig {
        onepassword_account: Some("  my.1password.com  ".to_string()),
    };
    let op_config = OpConfig::from_site_config(&config);
    assert_eq!(op_config.account(), Some("my.1password.com"));
}

#[test]
fn op_config_treats_blank_account_as_absent() {
    let config = OpConfig::new(Some("   ".to_string()));
    assert_eq!(config.account(), None);
}

#[test]
fn parses_opaque_1password_references() {
    let reference =
        SecretReference::onepassword_item_field("vault id", "item/id", "one-time password");
    assert_eq!(
        reference.as_str(),
        "secret://1password/vault%20id/item%2Fid/one-time%20password"
    );

    let reparsed = SecretReference::parse(reference.as_str()).unwrap_or_else(|_| panic!("parse"));
    assert!(reparsed == reference);
    assert!(reparsed.is_credential());
}

#[test]
fn otp_reference_uses_trailing_sentinel() {
    let reference = SecretReference::onepassword_item_otp("vault", "item");
    assert_eq!(reference.as_str(), "secret://1password/vault/item/otp?");
    assert!(is_totp_reference(reference.as_str()));
    assert!(is_credential_reference(reference.as_str()));
}

#[test]
fn item_field_reads_reveal_concealed_values() {
    let args = item_field_get_args("item-id", "vault-id", "password");
    assert_eq!(
        args,
        vec![
            "item",
            "get",
            "item-id",
            "--vault",
            "vault-id",
            "--fields",
            "label=password",
            "--reveal"
        ]
    );
}

#[test]
fn rejects_unsupported_provider_references() {
    assert!(SecretReference::parse("secret://unsupported/item/field").is_err());
    assert!(!is_secret_reference("secret://unsupported/item/field"));
}

#[test]
fn debug_redacts_discovered_item_names() {
    let item = DiscoveredSecretItem::new(
        "item".to_string(),
        "Sensitive Login".to_string(),
        "vault".to_string(),
        Some("Private".to_string()),
        Some("LOGIN".to_string()),
        None,
        None,
        vec![],
    );

    let debug = item.redacted_debug();
    assert!(!debug.contains("Sensitive Login"));
    assert!(!debug.contains("Private"));
    assert_eq!(
        debug,
        "DiscoveredSecretItem { provider: OnePassword, category: Some(\"LOGIN\"), updated_at: None, title: \"<redacted>\", vault: \"<redacted>\", urls: 0, references: 3, .. }"
    );
}

fn entry(id: &str, title: &str, vault_id: &str, vault_name: &str) -> ItemEntry {
    ItemEntry {
        id: text(id),
        title: text(title),
        vault: Some(VaultEntry {
            id: text(vault_id),
            name: text(vault_name),
        }),
        category: text("LOGIN"),
        created_at: JsonField::Missing,
        updated_at: JsonField::Missing,
        urls: None,
    }
}

#[test]
fn parses_item_list_entries_without_values() {
    let value = entry("item-id", "Example", "vault-id", "Personal");

    let item = discovered_item_from_value(&value).unwrap_or_else(|| panic!("item"));
    assert_eq!(item.item_id(), "item-id");
    assert_eq!(item.title(), "Example");
    assert_eq!(item.vault_id(), "vault-id");
    assert_eq!(item.vault_name(), Some("Personal"));
    assert_eq!(item.category(), Some("LOGIN"));
    assert_eq!(
        item.field_reference("username").as_str(),
        "secret://1password/vault-id/item-id/username"
    );
}

#[test]
fn parses_urls_and_generated_references_from_item_list() {
    let mut value = entry("item-id", "Example", "vault-id", "Private");
    value.created_at = text("2025-01-01T00:00:00Z");
    value.updated_at = text("2026-01-01T00:00:00Z");
    value.urls = Some(vec![UrlEntry {
        href: text("https://example.com/login"),
        label: text("website"),
        primary: Some(true),
    }]);

    let item = discovered_item_from_value(&value).unwrap_or_else(|| panic!("item"));
    assert_eq!(item.updated_at(), Some("2026-01-01T00:00:00Z"));
    assert_eq!(item.urls().len(), 1);
    assert_eq!(item.urls()[0].href(), "https://example.com/login");
    let references = item
        .references()
        .iter()
        .map(|reference| (reference.field(), reference.reference()))
        .collect::<Vec<_>>();
    assert!(references.contains(&("username", "secret://1password/vault-id/item-id/username")));
    assert!(references.contains(&("password", "secret://1password/vault-id/item-id/password")));
    assert!(references.contains(&("otp", "secret://1password/vault-id/item-id/otp?")));
}

fn listed(item_id: &str, title: &str, updated_at: Option<&str>) -> DiscoveredSecretItem {
    DiscoveredSecretItem::new(
        item_id.to_string(),
        title.to_string(),
        "vault".to_string(),
        None,
        Some("LOGIN".to_string()),
        None,
        updated_at.map(ToOwned::to_owned),
        vec![],
    )
}

#[test]
fn discovered_items_sort_updated_desc_then_title() {
    let mut items = vec![
        listed("old", "Old", Some("2024-01-01T00:00:00Z")),
        listed("new-b", "Beta", Some("2026-01-01T00:00:00Z")),
        listed("new-a", "Alpha", Some("2026-01-01T00:00:00Z")),
        listed("missing", "Missing", None),
    ];

    sort_discovered_items(&mut items);

    assert_eq!(
        items.iter().map(|item| item.item_id()).collect::<Vec<_>>(),
        vec!["new-a", "new-b", "old", "missing"]
    );
}

#[test]
fn credential_uri_detection_is_field_based() {
    assert!(is_credential_reference("secret://1password/vault/item/username"));
    assert!(is_credential_reference("secret://1password/vault/item/password"));
    assert!(is_credential_reference("secret://1password/vault/item/otp?"));
    assert!(!is_credential_reference(
        "secret://1password/vault/item/account_number"
    ));
}

#[test]
fn compare_orders_by_update_then_title_then_id() {
    let newer = listed("b", "Zeta", Some("2026"));
    let older = listed("a", "Alpha", Some("2025"));
    let undated = listed("c", "Alpha", None);
    assert_eq!(compare_discovered_items(&newer, &older), Ordering::Less);
    assert_eq!(compare_discovered_items(&older, &undated), Ordering::Less);
    assert_eq!(compare_discovered_items(&undated, &newer), Ordering::Greater);
    let same_a = listed("a", "Same", None);
    let same_b = listed("b", "Same", None);
    assert_eq!(compare_discovered_items(&same_a, &same_b), Ordering::Less);
    assert_eq!(compare_discovered_items(&same_a, &same_a), Ordering::Equal);
}

#[test]
fn selection_filters_by_search_and_sorts() {
    let mut a = entry("a", "Bank Login", "v", "Personal");
    a.updated_at = text("2025");
    let mut b = entry("b", "Mail", "v", "Work");
    b.updated_at = text("2026");
    let mut c = entry("c", "Other", "v", "Personal");
    c.urls = Some(vec![UrlEntry {
        href: text("https://BANK.example/login"),
        label: JsonField::Missing,
        primary: None,
    }]);
    let broken = ItemEntry {
        id: JsonField::Other,
        ..entry("x", "Bank", "v", "Personal")
    };
    let entries = vec![a, b, c, broken];
    let found = select_discovered_items(&entries, &Some("  BANK ".to_string()));
    assert_eq!(
        found.iter().map(|i| i.item_id()).collect::<Vec<_>>(),
        vec!["a", "c"]
    );
    let all = select_discovered_items(&entries, &Some("   ".to_string()));
    assert_eq!(
        all.iter().map(|i| i.item_id()).collect::<Vec<_>>(),
        vec!["b", "a", "c"]
    );
}

#[test]
fn entries_without_id_title_or_vault_id_are_skipped() {
    let mut no_vault = entry("a", "A", "v", "n");
    no_vault.vault = None;
    assert!(discovered_item_from_value(&no_vault).is_none());
    let mut vault_object = entry("a", "A", "v", "n");
    vault_object.vault = Some(VaultEntry {
        id: JsonField::Object {
            name: None,
            id: Some("vid".to_string()),
        },
        name: JsonField::Missing,
    });
    let item = discovered_item_from_value(&vault_object).unwrap_or_else(|| panic!("item"));
    assert_eq!(item.vault_id(), "vid");
    assert_eq!(item.vault_name(), None);
}

#[test]
fn blank_urls_are_dropped() {
    let blank = UrlEntry {
        href: text("   "),
        label: JsonField::Missing,
        primary: None,
    };
    assert!(DiscoveredSecretUrl::from_entry(&blank).is_none());
    let url = DiscoveredSecretUrl::from_entry(&UrlEntry {
        href: text("https://a.example"),
        label: JsonField::Object {
            name: Some("site".to_string()),
            id: Some("x".to_string()),
        },
        primary: None,
    })
    .unwrap_or_else(|| panic!("url"));
    assert_eq!(url.label(), Some("site"));
    assert!(!url.primary());
}

#[test]
fn component_encoding_round_trips() {
    for s in ["vault id", "item/id", "ü€𝄞", "plain-._~", "%?#&="] {
        let e = encode_component(s);
        assert_eq!(decode_component(&e).unwrap(), s);
    }
    assert_eq!(encode_component("a b/c"), "a%20b%2Fc");
    assert_eq!(encode_component("é"), "%C3%A9");
}

#[test]
fn component_decoding_errors() {
    assert_eq!(decode_component("abc%2"), Err(DecodeError::IncompleteEscape));
    assert_eq!(decode_component("abc%zz"), Err(DecodeError::InvalidEscape));
    assert_eq!(decode_component("%FF"), Err(DecodeError::InvalidUtf8));
    assert_eq!(decode_component("%+7"), Ok("\u{7}".to_string()));
    assert_eq!(decode_component("%41%62"), Ok("Ab".to_string()));
}

#[test]
fn reference_errors_name_the_failing_part() {
    assert_eq!(
        validate_reference("secret://1password/vault/item"),
        Err(SecretRefError::MissingComponents)
    );
    assert_eq!(
        validate_reference("secret://1password/vault//field"),
        Err(SecretRefError::MissingComponents)
    );
    assert_eq!(
        validate_reference("secret://1password/va%zz/item/field"),
        Err(SecretRefError::Vault(DecodeError::InvalidEscape))
    );
    assert_eq!(
        validate_reference("secret://1password/vault/item/f%"),
        Err(SecretRefError::Field(DecodeError::IncompleteEscape))
    );
    assert_eq!(validate_reference("secret://1password/v/i/f"), Ok(()));
}

#[test]
fn parsed_reference_exposes_its_parts() {
    let r = SecretReference::parse("secret://1password/v%2F1/i%201/otp?").unwrap_or_else(|_| panic!("parse"));
    assert_eq!(r.vault_id(), "v/1");
    assert_eq!(r.item_id(), "i 1");
    assert_eq!(r.field(), "otp");
    assert!(r.is_otp());
    assert_eq!(r.provider(), SecretProviderId::OnePassword);
    let plain = SecretReference::parse("secret://1password/v/i/notes").unwrap_or_else(|_| panic!("parse"));
    assert!(!plain.is_credential());
    assert!(!plain.is_otp());
}

#[test]
fn resolve_args_follow_the_reference_kind() {
    let otp = SecretReference::onepassword_item_otp("v", "i");
    assert_eq!(
        resolve_command_args(&otp),
        vec!["item", "get", "i", "--vault", "v", "--otp"]
    );
    let field = SecretReference::onepassword_item_field("v", "i", "password");
    assert_eq!(
        resolve_command_args(&field),
        vec!["item", "get", "i", "--vault", "v", "--fields", "label=password", "--reveal"]
    );
}

#[test]
fn account_selection_prefers_the_site_config() {
    let configured = OpConfig::new(Some(" team ".to_string()));
    assert_eq!(
        selected_account(&configured, Some("env".to_string())),
        Some("team".to_string())
    );
    let unset = OpConfig::new(None);
    assert_eq!(
        selected_account(&unset, Some("  env  ".to_string())),
        Some("env".to_string())
    );
    assert_eq!(selected_account(&unset, Some("  ".to_string())), None);
    assert_eq!(op_account_args(&configured, None), vec!["--account", "team"]);
    assert!(op_account_args(&unset, None).is_empty());
    assert_eq!(clean_account(Some(" a ".to_string())), Some("a".to_string()));
}

#[test]
fn output_loses_trailing_newlines_only() {
    assert_eq!(
        secret_from_output(b"123456\n\n".to_vec()),
        Some("123456".to_string())
    );
    assert_eq!(secret_from_output(b" a\nb ".to_vec()), Some(" a\nb ".to_string()));
    assert_eq!(secret_from_output(vec![0xff]), None);
}

#[test]
fn item_list_args_carry_vault_and_categories() {
    let query = SecretDiscoveryQuery {
        search: None,
        vault: Some("Work".to_string()),
        categories: vec!["Login".to_string(), "Password".to_string()],
    };
    assert_eq!(
        item_list_args(&query),
        vec![
            "item",
            "list",
            "--format",
            "json",
            "--long",
            "--vault",
            "Work",
            "--categories",
            "Login,Password"
        ]
    );
    let blank = SecretDiscoveryQuery {
        search: None,
        vault: Some(String::new()),
        categories: vec![],
    };
    assert_eq!(
        item_list_args(&blank),
        vec!["item", "list", "--format", "json", "--long"]
    );
    assert_eq!(normalized_search(&Some("  MiXed ".to_string())), Some("mixed".to_string()));
    assert_eq!(normalized_search(&Some(" ".to_string())), None);
}

#[test]
fn provider_reports_its_id() {
    let provider = OnePasswordProvider::new(OpConfig::new(None));
    assert_eq!(provider.id(), SecretProviderId::OnePassword);
    assert_eq!(provider.config().account(), None);
}

#[test]
fn debug_of_references_and_urls_hides_what_they_name() {
    let reference = SecretReference::parse("secret://1password/vault-id/item-id/otp?").unwrap();
    let debug = reference.redacted_debug();
    assert_eq!(debug, "SecretReference { provider: OnePassword, otp: true, .. }");
    assert!(!debug.contains("vault-id"));

    let item = DiscoveredSecretItem::new(
        "item-id".to_string(),
        "Title".to_string(),
        "vault-id".to_string(),
        None,
        Some("LOGIN".to_string()),
        None,
        None,
        vec![],
    );
    let r = &item.references()[0];
    assert_eq!(
        r.redacted_debug(),
        "DiscoveredSecretReference { field: \"username\", reference: \"<opaque>\" }"
    );

    let url = UrlEntry {
        href: text("https://example.com/login?token=abc"),
        label: text("website"),
        primary: Some(true),
    };
    let url = discovered_url_from_value(&url).unwrap();
    let debug = url.redacted_debug();
    assert_eq!(
        debug,
        "DiscoveredSecretUrl { label: Some(\"website\"), primary: true, href: \"<redacted>\" }"
    );
    assert!(!debug.contains("example.com"));
}

#[test]
fn items_that_tie_keep_their_list_order() {
    let a = entry("same-id", "Same", "vault-a", "A");
    let b = entry("same-id", "Same", "vault-b", "B");
    let z = entry("other", "Earlier", "vault-z", "Z");
    let picked = select_discovered_items(&vec![a.clone(), z.clone(), b.clone()], &None);
    let vaults: Vec<&str> = picked.iter().map(|i| i.vault_id()).collect();
    assert_eq!(vaults, vec!["vault-z", "vault-a", "vault-b"]);
    let picked = select_discovered_items(&vec![b, z, a], &None);
    let vaults: Vec<&str> = picked.iter().map(|i| i.vault_id()).collect();
    assert_eq!(vaults, vec!["vault-z", "vault-b", "vault-a"]);
}

#[test]
fn value_map_length_counts_new_values_only() {
    let mut vn = ValueNameMap::new();
    assert!(vn.is_empty());
    vn.insert("12345".to_string(), "acct".to_string());
    vn.insert("jane".to_string(), "user".to_string());
    assert_eq!(vn.len(), 2);
    vn.insert("12345".to_string(), "account".to_string());
    assert_eq!(vn.len(), 2);
    assert_eq!(vn.lookup("12345"), Some("account"));
    assert!(!vn.is_empty());
}
