use stencilwright::model::{clean_feedback, Slot, SlotId, UnmaskApprovalDecision};
use stencilwright::visibility::{RuntimeConfig, SurfacePolicy, SurfaceTrigger, Visibility};

#[test]
fn approval_decision_drops_blank_feedback() {
    let decision = UnmaskApprovalDecision::new(false, " \n\t ");
    assert_eq!(decision.feedback, None);
}

#[test]
fn approval_decision_normalizes_feedback_whitespace() {
    let decision = UnmaskApprovalDecision::new(true, " private field\n\nmap it masked ");
    assert_eq!(
        decision.feedback.as_deref(),
        Some("private field map it masked")
    );
    assert!(decision.approved);
}

#[test]
fn clean_feedback_collapses_unicode_whitespace() {
    assert_eq!(
        clean_feedback("a\u{3000}b\u{a0}\u{a0}c".to_string()),
        Some("a b c".to_string())
    );
    assert_eq!(clean_feedback(String::new()), None);
}

#[test]
fn slot_renders_with_and_without_description() {
    let named = Slot {
        id: SlotId::Named("acct".to_string()),
        description: "8-digit numeric".to_string(),
    };
    assert_eq!(named.render(), "[$acct 8-digit numeric]");
    let bare = Slot {
        id: SlotId::Hash("0a1b2c3d".to_string()),
        description: String::new(),
    };
    assert_eq!(bare.render(), "[$0a1b2c3d]");
}

#[test]
fn surface_policy_defaults_and_unattended() {
    let attended = SurfacePolicy::default();
    for t in [
        SurfaceTrigger::Login,
        SurfaceTrigger::Captcha,
        SurfaceTrigger::Unrecognized,
        SurfaceTrigger::Consent,
        SurfaceTrigger::Requested,
    ] {
        assert!(attended.surfaces(t));
        assert_eq!(
            SurfacePolicy::unattended().surfaces(t),
            t == SurfaceTrigger::Requested
        );
    }
}

#[test]
fn only_offscreen_sessions_surface() {
    let headed = RuntimeConfig::new("site".to_string());
    assert_eq!(headed.visibility, Visibility::Headed);
    assert!(!headed.should_surface(SurfaceTrigger::Requested));
    let off = RuntimeConfig::new("site".to_string()).offscreen();
    assert!(off.should_surface(SurfaceTrigger::Login));
    let quiet = off.surface_policy(SurfacePolicy::unattended());
    assert!(!quiet.should_surface(SurfaceTrigger::Login));
    assert!(quiet.should_surface(SurfaceTrigger::Requested));
    assert_eq!(quiet.site, "site");
}
