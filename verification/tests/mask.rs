use stencilwright::describer::describe;
use stencilwright::mask::{
    compute_masked_attribute, compute_masked_text, is_content_attribute, is_sensitive_attribute,
    split_selector_list, CompiledPattern, MaskPolicy, MaskPolicyError,
};
use stencilwright::model::{Element, MaskConfig, MaskInner, PatternRule, Place, RedactSelector, SlotId};
use stencilwright::rawtext::{mask_comments, mask_raw_text_elements, prepare_html};
use stencilwright::slot::{derive_slot, short_hash, ValueNameMap};

#[test]
fn email() {
    assert_eq!(describe("a@b.co"), "email");
}

#[test]
fn ipv4() {
    assert_eq!(describe("198.51.100.7"), "ipv4");
}

#[test]
fn iso_date() {
    assert_eq!(describe("2026-04-27"), "date");
}

#[test]
fn currency() {
    assert_eq!(describe("$1,234.56"), "currency");
}

#[test]
fn long_digits() {
    assert_eq!(describe("12345678"), "8-digit numeric");
}

#[test]
fn describer_fallbacks() {
    assert_eq!(describe("1234567"), "text");
    assert_eq!(describe("hello"), "text");
    assert_eq!(describe("550e8400-e29b-41d4-a716-446655440000"), "uuid");
    assert_eq!(describe("2026-04-27T10:30"), "datetime");
    assert_eq!(describe("12:30 pm"), "time");
    assert_eq!(describe("-12.5%"), "percent");
}

#[test]
fn unnamed_uses_hash() {
    let vn = ValueNameMap::new();
    let s = derive_slot("12345678", &vn);
    assert!(
        matches!(s.id, SlotId::Hash(ref h) if h.len() == 8 && h.chars().all(|c| c.is_ascii_hexdigit()))
    );
    assert_eq!(s.description, "8-digit numeric");
}

#[test]
fn named_uses_name() {
    let mut vn = ValueNameMap::new();
    vn.insert("12345678".into(), "ira_account".into());
    let s = derive_slot("12345678", &vn);
    assert!(matches!(s.id, SlotId::Named(ref n) if n == "ira_account"));
    assert_eq!(s.description, "8-digit numeric");
}

#[test]
fn render_format() {
    let mut vn = ValueNameMap::new();
    vn.insert("12345678".into(), "ira_account".into());
    let s = derive_slot("12345678", &vn);
    assert_eq!(s.render(), "[$ira_account 8-digit numeric]");
}

#[test]
fn same_value_same_slot() {
    let vn = ValueNameMap::new();
    let a = derive_slot("203.0.113.7", &vn);
    let b = derive_slot("203.0.113.7", &vn);
    assert_eq!(a, b);
}

#[test]
fn real_value_never_in_slot_string() {
    let vn = ValueNameMap::new();
    let secret = "87654321";
    let s = derive_slot(secret, &vn);
    let rendered = s.render();
    assert!(
        !rendered.contains(secret),
        "real value leaked into slot rendering: {rendered}"
    );
}

#[test]
fn hash_ids_are_sha256_prefixes() {
    assert_eq!(short_hash("12345678"), "ef797c81");
    assert_eq!(short_hash("87654321"), "e24df920");
    assert_eq!(short_hash(""), "e3b0c442");
    let vn = ValueNameMap::new();
    assert_eq!(derive_slot("203.0.113.7", &vn).render(), "[$fec52565 ipv4]");
}

#[test]
fn value_map_insert_replaces_and_counts() {
    let mut vn = ValueNameMap::new();
    assert!(vn.is_empty());
    vn.insert("a".into(), "first".into());
    vn.insert("b".into(), "second".into());
    vn.insert("a".into(), "again".into());
    assert_eq!(vn.len(), 2);
    assert_eq!(vn.lookup("a"), Some("again"));
    assert_eq!(vn.lookup("c"), None);
    assert_eq!(
        vn.entries(),
        vec![
            ("a".to_string(), "again".to_string()),
            ("b".to_string(), "second".to_string())
        ]
    );
}

#[test]
fn selector_lists_split_on_commas() {
    assert_eq!(split_selector_list(" a , b,, c "), vec!["a", "b", "c"]);
    assert!(split_selector_list(" , ").is_empty());
}

#[test]
fn attribute_classes() {
    assert!(is_sensitive_attribute("x-current-user-badge", "class"));
    assert!(is_sensitive_attribute("div", "author-id"));
    assert!(!is_sensitive_attribute("div", "class"));
    assert!(is_content_attribute("div", "aria-label"));
    assert!(is_content_attribute("input", "value"));
    assert!(!is_content_attribute("option", "value"));
    assert!(!is_content_attribute("a", "href"));
}

fn digits() -> Vec<CompiledPattern> {
    vec![CompiledPattern {
        name: "long_digits".to_string(),
        regex: r"\d{6,}".to_string(),
    }]
}

#[test]
fn text_ladder() {
    let vn = ValueNameMap::new();
    let p = digits();
    assert_eq!(compute_masked_text("  \n ", 0, 0, &p, 200, &vn), "  \n ");
    assert_eq!(compute_masked_text("Hello", 0, 0, &p, 200, &vn), "[TEXT:5]");
    assert_eq!(
        compute_masked_text(" 12345678 ", 1, 1, &p, 200, &vn),
        "[$ef797c81 8-digit numeric]"
    );
    assert_eq!(
        compute_masked_text("acct 12345678 ok", 0, 1, &p, 200, &vn),
        "acct [$ef797c81 8-digit numeric] ok"
    );
    assert_eq!(compute_masked_text("acct 12345678 ok", 0, 1, &p, 5, &vn), "[TEXT:16]");
}

#[test]
fn blacklist_prefers_longest_match_at_a_start() {
    let vn = ValueNameMap::new();
    let p = vec![
        CompiledPattern {
            name: "short".to_string(),
            regex: r"\d{3}".to_string(),
        },
        CompiledPattern {
            name: "long".to_string(),
            regex: r"\d{8}".to_string(),
        },
    ];
    assert_eq!(
        compute_masked_text("x12345678", 0, 1, &p, 200, &vn),
        "x[$ef797c81 8-digit numeric]"
    );
}

#[test]
fn attribute_ladder() {
    let mut vn = ValueNameMap::new();
    vn.insert("Jane".into(), "person".into());
    let p = digits();
    assert_eq!(
        compute_masked_attribute("div", "data-user-id", "x Jane y", 0, 0, 200, &p, &vn),
        "x [$person text] y"
    );
    assert_eq!(
        compute_masked_attribute("div", "aria-label", "Jane Doe", 0, 0, 200, &p, &vn),
        "[ATTR:8]"
    );
    assert_eq!(
        compute_masked_attribute("div", "aria-label", "Jane Doe", 0, 1, 200, &p, &vn),
        "Jane Doe"
    );
    assert_eq!(
        compute_masked_attribute("div", "username", " Jane ", 0, 0, 200, &p, &vn),
        "[$person text]"
    );
    assert_eq!(
        compute_masked_attribute("div", "class", " ", 0, 0, 200, &p, &vn),
        " "
    );
    assert_eq!(
        compute_masked_attribute("a", "href", "/acct/12345678", 0, 0, 200, &p, &vn),
        "/acct/[$ef797c81 8-digit numeric]"
    );
}

#[test]
fn comments_and_raw_text_collapse() {
    assert_eq!(mask_comments("a<!-- hi -->b<!--x"), "a<!--[TEXT:4]-->b<!--x");
    assert_eq!(
        mask_raw_text_elements("<SCRIPT type=x>var a;</script><style>p{}</STYLE>"),
        "<script type=x>[TEXT:6]</script><style>[TEXT:3]</style>"
    );
    assert_eq!(
        prepare_html("<template><!-- c --></template>"),
        "<template>[TEXT:15]</template>"
    );
    assert_eq!(mask_raw_text_elements("<script>unclosed"), "<script>unclosed");
}

fn element(name: &str, selector: &str, unmasked: bool) -> Element {
    Element {
        name: name.to_string(),
        selector: selector.to_string(),
        auto_fill: None,
        unmasked,
    }
}

#[test]
fn policy_build_and_place_layering() {
    let cfg = MaskConfig {
        mask: MaskInner {
            patterns: vec![PatternRule {
                name: "long_digits".to_string(),
                regex: r"\d{8,}".to_string(),
            }],
            redact_selectors: vec![RedactSelector {
                selector: ".secret, .balance".to_string(),
            }],
        },
        max_unmasked_chars: 0,
    };
    let site = vec![element("title", "h1", true), element("nav", "nav", false)];
    let policy = MaskPolicy::build(&cfg, &site).unwrap_or_else(|_| panic!("build"));
    assert_eq!(policy.max_unmasked_chars(), 200);
    let mut place = Place::named("home".to_string());
    place.elements.push(element("post", "article, .post", true));
    let effective = policy.for_place(&place);
    assert_eq!(effective.redact_selectors(), &vec![".secret".to_string(), ".balance".to_string()]);
    assert_eq!(
        effective.unmask_selectors(),
        &vec!["h1".to_string(), "article".to_string(), ".post".to_string()]
    );
    let vn = ValueNameMap::new();
    assert_eq!(effective.mask_text("Hello", 0, 0, &vn), "[TEXT:5]");
}

#[test]
fn policy_refuses_invalid_pattern() {
    let cfg = MaskConfig {
        mask: MaskInner {
            patterns: vec![
                PatternRule {
                    name: "ok".to_string(),
                    regex: "a+".to_string(),
                },
                PatternRule {
                    name: "broken".to_string(),
                    regex: "(".to_string(),
                },
            ],
            redact_selectors: vec![],
        },
        max_unmasked_chars: 50,
    };
    match MaskPolicy::build(&cfg, &[]) {
        Err(MaskPolicyError::InvalidPattern(name)) => assert_eq!(name, "broken"),
        Ok(_) => panic!("invalid pattern accepted"),
    }
}

#[test]
fn configured_blacklist_reaches_structural_attributes_and_unmasked_text() {
    let cfg = MaskConfig {
        mask: MaskInner {
            patterns: vec![PatternRule {
                name: "long_number".to_string(),
                regex: r"\d{8,}".to_string(),
            }],
            redact_selectors: vec![],
        },
        max_unmasked_chars: 200,
    };
    let mut place = Place::named("x".to_string());
    place.elements = vec![Element {
        name: "lbl".to_string(),
        selector: "div.lbl".to_string(),
        auto_fill: None,
        unmasked: true,
    }];
    let eff = MaskPolicy::build(&cfg, &[]).unwrap().for_place(&place);
    let vn = ValueNameMap::new();
    assert_eq!(
        eff.mask_attribute("div", "data-note", "safe 12345678", 0, 0, &vn),
        "safe [$ef797c81 8-digit numeric]"
    );
    assert_eq!(
        eff.mask_attribute("div", "aria-label", "hello 12345678 world", 0, 1, &vn),
        "hello [$ef797c81 8-digit numeric] world"
    );
    assert_eq!(
        eff.mask_text("Account 12345678", 0, 1, &vn),
        "Account [$ef797c81 8-digit numeric]"
    );
    assert_eq!(eff.mask_text("Jane Doe", 0, 0, &vn), "[TEXT:8]");
}

#[test]
fn missing_mask_toml_stores_cap_zero_and_the_policy_reads_it_as_200() {
    let cfg = MaskConfig::default();
    assert_eq!(cfg.max_unmasked_chars, 0);
    let policy = MaskPolicy::build(&cfg, &[]).unwrap();
    assert_eq!(policy.max_unmasked_chars(), 200);
}
