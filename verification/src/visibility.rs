//! The visibility and consent model of an adapter's browser: it runs
//! headed, or off-screen with the ability to surface on demand, and never
//! fully headless. Anything the user should witness (a login, a captcha,
//! an unrecognized page, a consent checkpoint, an explicit request) can
//! bring an off-screen window forward. Also the daemon's command-line
//! options that carry the choice across the re-exec.

use vstd::prelude::*;
use vstd::string::StringExecFns;
use crate::chars::{owned, str_eq, string_views};

verus! {

/// How the adapter's browser window is presented.
#[derive(Debug, Clone, Copy, PartialEq, Eq, Structural)]
pub enum Visibility {
    /// Visible, focused window.
    Headed,
    /// Running but not presented; can be surfaced on demand.
    Offscreen,
}

/// Events that should pull an off-screen browser to the foreground.
#[derive(Debug, Clone, Copy, PartialEq, Eq, Structural)]
pub enum SurfaceTrigger {
    Login,
    Captcha,
    Unrecognized,
    Consent,
    Requested,
}

/// Which triggers auto-surface an off-screen session.
#[derive(Debug, Clone, Copy, PartialEq, Eq, Structural)]
pub struct SurfacePolicy {
    pub on_login: bool,
    pub on_captcha: bool,
    pub on_unrecognized: bool,
    pub on_consent: bool,
}

/// Whether `trigger` brings an off-screen window forward under `policy`.
pub open spec fn spec_surfaces(policy: SurfacePolicy, trigger: SurfaceTrigger) -> bool {
    match trigger {
        SurfaceTrigger::Login => policy.on_login,
        SurfaceTrigger::Captcha => policy.on_captcha,
        SurfaceTrigger::Unrecognized => policy.on_unrecognized,
        SurfaceTrigger::Consent => policy.on_consent,
        SurfaceTrigger::Requested => true,
    }
}

impl SurfacePolicy {
    /// The conservative default: every trigger surfaces.
    pub fn attended() -> (p: SurfacePolicy)
        ensures
            p.on_login && p.on_captcha && p.on_unrecognized && p.on_consent,
    {
        SurfacePolicy { on_login: true, on_captcha: true, on_unrecognized: true, on_consent: true }
    }

    /// Never auto-surface; only an explicit request surfaces.
    pub fn unattended() -> (p: SurfacePolicy)
        ensures
            !p.on_login && !p.on_captcha && !p.on_unrecognized && !p.on_consent,
    {
        SurfacePolicy {
            on_login: false,
            on_captcha: false,
            on_unrecognized: false,
            on_consent: false,
        }
    }

    /// Whether `trigger` should bring an off-screen window forward.
    pub fn surfaces(&self, trigger: SurfaceTrigger) -> (r: bool)
        ensures
            r == spec_surfaces(*self, trigger),
    {
        match trigger {
            SurfaceTrigger::Login => self.on_login,
            SurfaceTrigger::Captcha => self.on_captcha,
            SurfaceTrigger::Unrecognized => self.on_unrecognized,
            SurfaceTrigger::Consent => self.on_consent,
            SurfaceTrigger::Requested => true,
        }
    }
}

impl Default for SurfacePolicy {
    fn default() -> (p: SurfacePolicy)
        ensures
            p == SurfacePolicy::spec_default(),
    {
        SurfacePolicy::attended()
    }
}

impl SurfacePolicy {
    pub open spec fn spec_default() -> SurfacePolicy {
        SurfacePolicy { on_login: true, on_captcha: true, on_unrecognized: true, on_consent: true }
    }
}

/// An explicit request always surfaces, whatever the policy.
pub proof fn lemma_requested_always_surfaces(policy: SurfacePolicy)
    ensures
        spec_surfaces(policy, SurfaceTrigger::Requested),
{
}

/// An unattended policy surfaces only on explicit request.
pub proof fn lemma_unattended_surfaces_only_on_request(trigger: SurfaceTrigger)
    ensures
        spec_surfaces(
            (SurfacePolicy {
                on_login: false,
                on_captcha: false,
                on_unrecognized: false,
                on_consent: false,
            }),
            trigger,
        ) <==> trigger == SurfaceTrigger::Requested,
{
}

/// Runtime configuration for an adapter session.
#[derive(Debug, Clone)]
pub struct RuntimeConfig {
    /// Site name, selecting the per-user profile directory.
    pub site: String,
    pub visibility: Visibility,
    pub surface: SurfacePolicy,
}

impl RuntimeConfig {
    /// A headed session with the default surface policy.
    pub fn new(site: String) -> (c: RuntimeConfig)
        ensures
            c.site@ == site@,
            c.visibility == Visibility::Headed,
            c.surface == SurfacePolicy::spec_default(),
    {
        RuntimeConfig { site, visibility: Visibility::Headed, surface: SurfacePolicy::attended() }
    }

    /// Run off-screen; the window can still be surfaced.
    pub fn offscreen(self) -> (c: RuntimeConfig)
        ensures
            c.site@ == self.site@,
            c.visibility == Visibility::Offscreen,
            c.surface == self.surface,
    {
        RuntimeConfig { visibility: Visibility::Offscreen, ..self }
    }

    pub fn surface_policy(self, policy: SurfacePolicy) -> (c: RuntimeConfig)
        ensures
            c.site@ == self.site@,
            c.visibility == self.visibility,
            c.surface == policy,
    {
        RuntimeConfig { surface: policy, ..self }
    }

    /// Whether a session with this configuration surfaces on `trigger`:
    /// only an off-screen session whose policy opts into the trigger.
    pub fn should_surface(&self, trigger: SurfaceTrigger) -> (r: bool)
        ensures
            r == (self.visibility == Visibility::Offscreen && spec_surfaces(self.surface, trigger)),
    {
        self.visibility == Visibility::Offscreen && self.surface.surfaces(trigger)
    }
}

/// The option that asks the daemon for an off-screen window.
pub open spec fn offscreen_arg() -> Seq<char> {
    "--offscreen"@
}

/// How the daemon presents its browser window.
#[derive(Debug, Clone, Copy, PartialEq, Eq, Structural)]
pub struct RunOptions {
    pub presentation: Visibility,
}

impl RunOptions {
    /// A visible window.
    pub fn headed() -> (o: RunOptions)
        ensures
            o.presentation == Visibility::Headed,
    {
        RunOptions { presentation: Visibility::Headed }
    }

    /// An off-screen window.
    pub fn offscreen() -> (o: RunOptions)
        ensures
            o.presentation == Visibility::Offscreen,
    {
        RunOptions { presentation: Visibility::Offscreen }
    }
}

/// An option the daemon does not know.
#[derive(Debug, Clone, PartialEq, Eq)]
pub struct DaemonOptionError {
    pub option: String,
}

impl DaemonOptionError {
    /// `unknown daemon option: <option>`.
    pub fn message(&self) -> (r: String)
        ensures
            r@ == "unknown daemon option: "@ + self.option@,
    {
        let mut r = owned("unknown daemon option: ");
        r.append(self.option.as_str());
        r
    }
}

/// The options passed to the daemon for a presentation.
pub open spec fn daemon_args_spec(visibility: Visibility) -> Seq<Seq<char>> {
    if visibility == Visibility::Offscreen {
        seq![offscreen_arg()]
    } else {
        Seq::empty()
    }
}

/// The presentation a list of accepted options selects.
pub open spec fn parsed_presentation(args: Seq<Seq<char>>) -> Visibility {
    if args.len() > 0 {
        Visibility::Offscreen
    } else {
        Visibility::Headed
    }
}

/// The first option from `i` on that is not `--offscreen`.
pub open spec fn first_unknown_option(args: Seq<Seq<char>>, i: int) -> Option<int>
    decreases args.len() - i,
{
    if i < 0 || i >= args.len() {
        None
    } else if args[i] != offscreen_arg() {
        Some(i)
    } else {
        first_unknown_option(args, i + 1)
    }
}

/// Read the daemon's options: `--offscreen` selects an off-screen window
/// (headed otherwise); any other option is refused.
pub fn parse_daemon_options(args: &Vec<String>) -> (r: Result<RunOptions, DaemonOptionError>)
    ensures
        match first_unknown_option(string_views(args@), 0) {
            Some(i) => r matches Err(e) && e.option@ == args@[i]@,
            None => r == Ok::<RunOptions, DaemonOptionError>(
                (RunOptions { presentation: parsed_presentation(string_views(args@)) }),
            ),
        },
{
    let ghost views = string_views(args@);
    let mut options = RunOptions::headed();
    let mut i: usize = 0;
    while i < args.len()
        invariant
            i <= args@.len(),
            views == string_views(args@),
            first_unknown_option(views, 0) == first_unknown_option(views, i as int),
            options.presentation == if i > 0 {
                Visibility::Offscreen
            } else {
                Visibility::Headed
            },
        decreases args@.len() - i,
    {
        proof {
            reveal_strlit("--offscreen");
        }
        assert(views[i as int] == args@[i as int]@);
        if str_eq(args[i].as_str(), "--offscreen") {
            options.presentation = Visibility::Offscreen;
        } else {
            return Err(DaemonOptionError { option: args[i].clone() });
        }
        i = i + 1;
    }
    Ok(options)
}

/// The options a spawner passes the daemon for a window presentation.
pub fn daemon_option_args(visibility: Visibility) -> (r: Vec<String>)
    ensures
        string_views(r@) == daemon_args_spec(visibility),
{
    proof {
        reveal_strlit("--offscreen");
    }
    if visibility == Visibility::Offscreen {
        let r = vec![owned("--offscreen")];
        assert(string_views(r@) =~= seq![offscreen_arg()]);
        r
    } else {
        let r: Vec<String> = Vec::new();
        assert(string_views(r@) =~= Seq::<Seq<char>>::empty());
        r
    }
}

/// The daemon reads back the presentation its spawner asked for: the
/// options passed for a presentation are all accepted and select that
/// presentation.
pub proof fn lemma_daemon_options_round_trip(visibility: Visibility)
    ensures
        first_unknown_option(daemon_args_spec(visibility), 0) is None,
        parsed_presentation(daemon_args_spec(visibility)) == visibility,
{
    if visibility == Visibility::Offscreen {
        assert(first_unknown_option(daemon_args_spec(visibility), 1) is None);
    }
}

} // verus!
