use stencilwright::graph::{GraphError, PlaceGraph};
use stencilwright::model::{Element, MaskConfig, Place, Signature, SiteConfig};
use stencilwright::paths::{root_dir, site_dir};
use stencilwright::recognize::{
    recognize_step, signature_matches, ProbeKind, RecognizeStep, SignatureCheck,
};
use stencilwright::secrets::load_op_config;
use stencilwright::values::ValuesConfig;

fn place(name: &str) -> Place {
    Place::named(name.to_string())
}

fn graph(places: Vec<Place>) -> PlaceGraph {
    PlaceGraph::from_toml_strs(Some(places), None, None, None).expect("valid graph")
}

/// Drive the stepper over the whole graph against a page described by
/// `page(kind, selector)`, recording every query.
fn recognize(
    g: &PlaceGraph,
    url: &str,
    page: &dyn Fn(ProbeKind, &str) -> bool,
) -> (Option<String>, Vec<(ProbeKind, String)>) {
    let mut asked = Vec::new();
    let mut place = 0;
    let mut hits = Vec::new();
    loop {
        match recognize_step(g, url, place, &hits).expect("valid url") {
            RecognizeStep::Probe(p) => {
                hits.push(page(p.kind, &p.selector));
                asked.push((p.kind, p.selector));
            }
            RecognizeStep::NextPlace => {
                place += 1;
                hits.clear();
            }
            RecognizeStep::Matched(m) => return (Some(m.place_name), asked),
            RecognizeStep::NoMatch => return (None, asked),
        }
    }
}

#[test]
fn first_place_whose_signature_holds_is_recognized() {
    let mut login = place("login");
    login.signature.url = Some("https://example.test/login".to_string());
    let mut home = place("home");
    home.signature.selector = Some("main, #app".to_string());
    home.signature.absent_selector = Some("form.login".to_string());
    let mut any = place("any");
    any.signature.visible_selector = Some("body".to_string());
    let g = graph(vec![login, home, any]);

    let page = |kind: ProbeKind, sel: &str| match (kind, sel) {
        (ProbeKind::Present, "#app") => true,
        (ProbeKind::Visible, "body") => true,
        _ => false,
    };
    let (found, asked) = recognize(&g, "https://example.test/feed", &page);
    assert_eq!(found.as_deref(), Some("home"));
    assert_eq!(
        asked,
        vec![
            (ProbeKind::Present, "main".to_string()),
            (ProbeKind::Present, "#app".to_string()),
            (ProbeKind::Absent, "form.login".to_string()),
        ]
    );

    let on_login = |kind: ProbeKind, sel: &str| kind == ProbeKind::Absent && sel == "form.login";
    let (found, _) = recognize(&g, "https://example.test/login", &on_login);
    assert_eq!(found.as_deref(), Some("login"));
}

#[test]
fn absent_selector_rejects_and_nothing_left_is_no_match() {
    let mut home = place("home");
    home.signature.absent_selector = Some("form.login, .modal".to_string());
    let g = graph(vec![home]);
    let page = |_: ProbeKind, sel: &str| sel == ".modal";
    let (found, asked) = recognize(&g, "https://example.test/", &page);
    assert_eq!(found, None);
    assert_eq!(asked.len(), 2);
    assert!(matches!(
        recognize_step(&g, "https://example.test/", 1, &vec![]),
        Ok(RecognizeStep::NoMatch)
    ));
}

#[test]
fn empty_selector_list_never_matches() {
    let mut p = place("p");
    p.signature.selector = Some(" , ".to_string());
    let g = graph(vec![p]);
    assert!(matches!(
        recognize_step(&g, "https://example.test/", 0, &vec![]),
        Ok(RecognizeStep::NextPlace)
    ));
}

#[test]
fn invalid_page_url_is_an_error_only_where_a_url_is_checked() {
    let mut p = place("p");
    p.signature.url = Some("https://example.test/".to_string());
    let g = graph(vec![p]);
    assert!(recognize_step(&g, "about:blank", 0, &vec![]).is_ok());
    let mut bad = place("bad");
    bad.signature.url = Some("not a url".to_string());
    let g = graph(vec![bad]);
    assert!(recognize_step(&g, "https://example.test/", 0, &vec![]).is_err());
}

#[test]
fn missing_documents_mean_defaults() {
    let g = PlaceGraph::from_toml_strs(None, None, None, None).unwrap();
    assert!(g.places.is_empty());
    assert!(g.site_elements.is_empty());
    assert_eq!(g.mask_config.max_unmasked_chars, 0);
    assert_eq!(g.values.len(), 0);

    let mut values = ValuesConfig::new();
    values.insert("user".to_string(), "secret://1password/v/i/username".to_string());
    let mask = MaskConfig::empty();
    let g = PlaceGraph::from_toml_strs(Some(vec![place("a")]), Some(vec![]), Some(mask), Some(values))
        .unwrap();
    assert_eq!(g.places.len(), 1);
    assert_eq!(g.values.get("user"), Some("secret://1password/v/i/username"));

    let dup = Element {
        name: "x".to_string(),
        selector: "a".to_string(),
        auto_fill: None,
        unmasked: false,
    };
    match PlaceGraph::from_toml_strs(None, Some(vec![dup.clone(), dup]), None, None) {
        Err(GraphError::DuplicateSiteElement(n)) => assert_eq!(n, "x"),
        _ => panic!("expected duplicate site element"),
    }
}

#[test]
fn op_config_comes_from_site_toml() {
    assert_eq!(load_op_config(None).account(), None);
    let cfg = SiteConfig {
        onepassword_account: Some("  my.1password.com ".to_string()),
    };
    assert_eq!(load_op_config(Some(cfg)).account(), Some("my.1password.com"));
    let blank = SiteConfig {
        onepassword_account: Some("   ".to_string()),
    };
    assert_eq!(load_op_config(Some(blank)).account(), None);
    assert_eq!(load_op_config(Some(SiteConfig::empty())).account(), None);
}

#[test]
fn site_dirs_live_under_the_home_directory() {
    assert_eq!(root_dir(Some("/home/u")), "/home/u/.stencilwright");
    assert_eq!(root_dir(Some("/home/u/")), "/home/u/.stencilwright");
    assert_eq!(root_dir(None), "./.stencilwright");
    assert_eq!(site_dir(Some("/home/u"), "example"), "/home/u/.stencilwright/example");
    assert_eq!(site_dir(Some("/home/u"), "/abs"), "/abs");
    assert_eq!(site_dir(Some(""), "x"), ".stencilwright/x");
}

#[test]
fn completion_signature_is_checked_on_its_own() {
    let mut sig = Signature::empty();
    sig.absent_selector = Some("input[type=password]".to_string());
    match signature_matches(&sig, "https://example.test/", &vec![]).unwrap() {
        SignatureCheck::Probe(p) => {
            assert_eq!(p.kind, ProbeKind::Absent);
            assert_eq!(p.selector, "input[type=password]");
        }
        _ => panic!("expected a probe"),
    }
    assert!(matches!(
        signature_matches(&sig, "https://example.test/", &vec![true]),
        Ok(SignatureCheck::Fails)
    ));
    assert!(matches!(
        signature_matches(&sig, "https://example.test/", &vec![false]),
        Ok(SignatureCheck::Matches)
    ));
    assert!(matches!(
        signature_matches(&Signature::empty(), "about:blank", &vec![]),
        Ok(SignatureCheck::Matches)
    ));
}
