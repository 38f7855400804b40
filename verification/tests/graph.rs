use stencilwright::graph::{signature_url_matches, validate, GraphError, PlaceGraph};
use stencilwright::model::{Element, MaskConfig, Place, Signature, Submit};
use stencilwright::resolver::{
    maskable_values, next_interpolation, resolve_spec_target, substitute_value, template_url,
    value_needle, InterpolateStep, ResolveError, SecretResolver,
};
use stencilwright::runner::{
    auto_fill_targets, goto_step, goto_target_url, submit_click, AutoFillReport, GotoError,
    GotoProgress, GotoStep,
    MAX_ATTEMPTS,
};
use stencilwright::secrets::OpConfig;
use stencilwright::values::ValuesConfig;

fn element(name: &str, selector: &str) -> Element {
    Element {
        name: name.to_string(),
        selector: selector.to_string(),
        auto_fill: None,
        unmasked: false,
    }
}

fn place(name: &str, elements: Vec<Element>) -> Place {
    let mut p = Place::named(name.to_string());
    p.elements = elements;
    p
}

#[test]
fn validation_reports_the_first_naming_problem() {
    assert!(validate(&vec![place("a", vec![]), place("b", vec![])], &vec![]).is_ok());
    match validate(&vec![place("a", vec![]), place("a", vec![])], &vec![]) {
        Err(GraphError::DuplicatePlace(n)) => assert_eq!(n, "a"),
        _ => panic!("expected duplicate place"),
    }
    match validate(&vec![], &vec![element("x", "a"), element("x", "b")]) {
        Err(GraphError::DuplicateSiteElement(n)) => assert_eq!(n, "x"),
        _ => panic!("expected duplicate site element"),
    }
    match validate(
        &vec![place("p", vec![element("e", "a"), element("e", "b")])],
        &vec![],
    ) {
        Err(GraphError::DuplicateElement { element, place }) => {
            assert_eq!(element, "e");
            assert_eq!(place, "p");
        }
        _ => panic!("expected duplicate element"),
    }
    match validate(&vec![place("p", vec![element("s", "a")])], &vec![element("s", "b")]) {
        Err(GraphError::ShadowedElement { element, place }) => {
            assert_eq!(element, "s");
            assert_eq!(place, "p");
        }
        _ => panic!("expected shadowed element"),
    }
}

fn graph() -> PlaceGraph {
    let mut login = place("login", vec![]);
    login.interactive = true;
    login.submit = Some(Submit {
        click: Some("button".to_string()),
    });
    let mut denied = place("denied", vec![]);
    denied.redirect = Some("https://example.test/login".to_string());
    let mut home = place("home", vec![element("title", "h1")]);
    home.url = Some("https://example.test/".to_string());
    let stuck = place("stuck", vec![]);
    PlaceGraph::from_parts(
        vec![login, denied, home, stuck],
        vec![element("nav", "nav")],
        MaskConfig::empty(),
        ValuesConfig::new(),
    )
    .unwrap_or_else(|_| panic!("graph"))
}

#[test]
fn places_and_elements_are_found_by_name() {
    let g = graph();
    assert_eq!(
        g.place("home").and_then(|p| p.url.clone()),
        Some("https://example.test/".to_string())
    );
    assert!(g.place("nowhere").is_none());
    let at_home: Vec<&str> = g.elements_at("home").iter().map(|e| e.name.as_str()).collect();
    assert_eq!(at_home, vec!["nav", "title"]);
    let elsewhere: Vec<&str> = g.elements_at("nowhere").iter().map(|e| e.name.as_str()).collect();
    assert_eq!(elsewhere, vec!["nav"]);
}

#[test]
fn goto_steps_follow_the_recognized_place() {
    let g = graph();
    assert_eq!(goto_step(&g, "home", Some("home")), GotoStep::Capture);
    assert_eq!(
        goto_step(&g, "home", Some("denied")),
        GotoStep::Redirect("https://example.test/login".to_string())
    );
    assert_eq!(
        goto_step(&g, "home", Some("login")),
        GotoStep::Interactive("login".to_string())
    );
    assert_eq!(
        goto_step(&g, "home", Some("stuck")),
        GotoStep::Stuck("stuck".to_string())
    );
    assert_eq!(goto_step(&g, "home", None), GotoStep::WaitForAny);
}

#[test]
fn attempts_are_capped() {
    let mut p = GotoProgress::start();
    let mut begun = 0;
    while p.begin_attempt() {
        begun += 1;
        p.continue_without_navigation();
    }
    assert_eq!(begun, MAX_ATTEMPTS);
    assert!(!p.needs_navigation);
}

#[test]
fn submit_runs_only_after_clean_fills() {
    let g = graph();
    let login = g.place("login").unwrap_or_else(|| panic!("login"));
    let mut report = AutoFillReport::new();
    report.record(true);
    assert_eq!(submit_click(login, &report), Some("button".to_string()));
    report.record(false);
    assert_eq!(report.attempted, 2);
    assert_eq!(report.failed, 1);
    assert_eq!(submit_click(login, &report), None);
}

#[test]
fn auto_fill_targets_are_elements_with_sources() {
    let mut a = element("user", "#u");
    a.auto_fill = Some("{example_username}".to_string());
    let b = element("plain", "#p");
    let targets = auto_fill_targets(&vec![a, b]);
    assert_eq!(
        targets,
        vec![("#u".to_string(), "{example_username}".to_string())]
    );
}

#[test]
fn signature_without_url_accepts_any_page() {
    let sig = Signature::empty();
    assert_eq!(signature_url_matches(&sig, "about:blank"), Ok(true));
    let mut with_url = Signature::empty();
    with_url.url = Some("https://example.test/a".to_string());
    assert_eq!(signature_url_matches(&with_url, "https://example.test/b"), Ok(false));
}

fn values() -> ValuesConfig {
    let mut v = ValuesConfig::new();
    v.insert("zeta".to_string(), "secret://1password/v/i/account_number".to_string());
    v.insert("alpha".to_string(), "secret://1password/v/i/password".to_string());
    v.insert("mid".to_string(), "secret://1password/v/i/otp?".to_string());
    v
}

#[test]
fn values_keep_name_order() {
    let mut v = values();
    v.insert("alpha".to_string(), "secret://1password/v/j/notes".to_string());
    let names: Vec<&str> = v.entries().iter().map(|(n, _)| n.as_str()).collect();
    assert_eq!(names, vec!["alpha", "mid", "zeta"]);
    assert_eq!(v.get("alpha"), Some("secret://1password/v/j/notes"));
    assert_eq!(v.get("nope"), None);
    assert_eq!(v.len(), 3);
}

#[test]
fn fill_specs_name_references() {
    let v = values();
    assert_eq!(
        resolve_spec_target("secret://1password/a/b/c", &v),
        Ok("secret://1password/a/b/c".to_string())
    );
    assert_eq!(
        resolve_spec_target("{zeta}", &v),
        Ok("secret://1password/v/i/account_number".to_string())
    );
    assert_eq!(
        resolve_spec_target("{nope}", &v),
        Err(ResolveError::UnknownValue("nope".to_string()))
    );
    assert_eq!(resolve_spec_target("plain", &v), Err(ResolveError::NotAReference));
}

#[test]
fn only_non_credentials_are_masked_passively() {
    let kept = maskable_values(&values());
    assert_eq!(
        kept,
        vec![(
            "zeta".to_string(),
            "secret://1password/v/i/account_number".to_string()
        )]
    );
}

#[test]
fn urls_are_templated_longest_value_first() {
    let resolved = vec![
        ("acct".to_string(), "12345".to_string()),
        ("long".to_string(), "123456".to_string()),
        ("empty".to_string(), String::new()),
    ];
    assert_eq!(
        template_url("https://x.test/a/123456/b/12345", &resolved),
        "https://x.test/a/{long}/b/{acct}"
    );
    assert_eq!(value_needle("n"), "{n}");
}

#[test]
fn resolver_never_caches_one_time_passwords() {
    let mut r = SecretResolver::new(OpConfig::new(None));
    r.remember("secret://1password/v/i/otp?".to_string(), "123456".to_string());
    assert_eq!(r.cached("secret://1password/v/i/otp?"), None);
    r.remember("secret://1password/v/i/account".to_string(), "42".to_string());
    assert_eq!(r.cached("secret://1password/v/i/account"), Some("42".to_string()));
    assert_eq!(r.cached("secret://1password/v/i/other"), None);
}

#[test]
fn templates_are_filled_entry_by_entry_in_name_order() {
    let mut values = ValuesConfig::new();
    values.insert("user".to_string(), "secret://1password/v/i/username".to_string());
    values.insert("acct".to_string(), "secret://1password/v/i/account".to_string());
    values.insert("unused".to_string(), "secret://1password/v/i/other".to_string());
    let mut out = "https://example.test/{acct}/positions?u={user}".to_string();
    let mut from = 0;
    let mut asked = Vec::new();
    loop {
        match next_interpolation(&out, &values, from) {
            InterpolateStep::Resolve {
                index,
                name,
                reference,
            } => {
                asked.push(reference);
                let value = if name == "acct" { "12345" } else { "jane" };
                out = substitute_value(&out, &name, value);
                from = index + 1;
            }
            InterpolateStep::Done => break,
        }
    }
    assert_eq!(out, "https://example.test/12345/positions?u=jane");
    assert_eq!(
        asked,
        vec![
            "secret://1password/v/i/account".to_string(),
            "secret://1password/v/i/username".to_string(),
        ]
    );
}

#[test]
fn goto_needs_a_known_target_with_a_url() {
    let g = graph();
    assert_eq!(goto_target_url(&g, "home"), Ok("https://example.test/".to_string()));
    assert_eq!(
        goto_target_url(&g, "login"),
        Err(GotoError::NoUrl("login".to_string()))
    );
    assert_eq!(
        goto_target_url(&g, "nowhere"),
        Err(GotoError::UnknownPlace("nowhere".to_string()))
    );
}

#[test]
fn the_target_is_navigated_to_only_on_the_first_attempt() {
    let mut p = GotoProgress::start();
    assert!(p.begin_attempt());
    assert!(p.needs_navigation);
    p.after_step(&GotoStep::Stuck("x".to_string()));
    assert!(p.needs_navigation);
    p.after_step(&GotoStep::Redirect("https://example.test/".to_string()));
    assert!(!p.needs_navigation);
    assert!(p.begin_attempt());
    p.after_step(&GotoStep::Capture);
    assert!(!p.needs_navigation);
    assert_eq!(p.attempt, 2);
}
