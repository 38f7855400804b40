//! The decisions of `place goto`: after each recognition, whether the
//! target is reached, a redirect is due, an interactive flow must be
//! handled, or the run is stuck; how many attempts remain; what auto-fill
//! fills and whether the place's submit click runs.

use vstd::prelude::*;
use crate::chars::{opt_chars, str_eq};
use crate::graph::{PlaceGraph, find_place};
use crate::model::{Element, Place};

verus! {

/// How many times `place goto` navigates or re-recognizes before giving up.
pub const MAX_ATTEMPTS: usize = 5;

/// What to do after recognizing the page.
#[derive(Debug, Clone, PartialEq, Eq)]
pub enum GotoStep {
    /// At the target: capture it.
    Capture,
    /// At a place that redirects: go to this URL, then recognize again.
    Redirect(String),
    /// At an interactive place: fill, submit, wait for the flow to end.
    Interactive(String),
    /// At a place with no way on to the target.
    Stuck(String),
    /// At no known place: wait until one appears.
    WaitForAny,
}

/// The step after recognizing `recognized` (by name) while heading for
/// `target`.
pub open spec fn goto_step_spec(places: Seq<Place>, target: Seq<char>, recognized: Option<Seq<char>>) -> (int, Seq<char>) {
    match recognized {
        None => (4, Seq::empty()),
        Some(n) => if n == target {
            (0, Seq::empty())
        } else {
            match find_place(places, n, 0) {
                Some(i) => match places[i].redirect {
                    Some(u) => (1, u@),
                    None => if places[i].interactive {
                        (2, n)
                    } else {
                        (3, n)
                    },
                },
                None => (3, n),
            }
        },
    }
}

/// A step as kind and text.
pub open spec fn step_view(s: GotoStep) -> (int, Seq<char>) {
    match s {
        GotoStep::Capture => (0, Seq::empty()),
        GotoStep::Redirect(u) => (1, u@),
        GotoStep::Interactive(n) => (2, n@),
        GotoStep::Stuck(n) => (3, n@),
        GotoStep::WaitForAny => (4, Seq::empty()),
    }
}

/// Decide the step after a recognition.
pub fn goto_step(graph: &PlaceGraph, target_name: &str, recognized: Option<&str>) -> (r: GotoStep)
    ensures
        step_view(r) == goto_step_spec(graph.places@, target_name@, crate::chars::opt_str_chars(recognized)),
{
    match recognized {
        None => GotoStep::WaitForAny,
        Some(n) => {
            if str_eq(n, target_name) {
                return GotoStep::Capture;
            }
            match graph.place(n) {
                Some(p) => match &p.redirect {
                    Some(u) => GotoStep::Redirect(u.clone()),
                    None => if p.interactive {
                        GotoStep::Interactive(crate::chars::owned(n))
                    } else {
                        GotoStep::Stuck(crate::chars::owned(n))
                    },
                },
                None => GotoStep::Stuck(crate::chars::owned(n)),
            }
        },
    }
}

/// Why `place goto` cannot head for its target.
#[derive(Debug, Clone, PartialEq, Eq)]
pub enum GotoError {
    /// No place has this name.
    UnknownPlace(String),
    /// The place has no `url` to navigate to.
    NoUrl(String),
}

/// The URL `place goto` navigates to for `target_name`: the target place's
/// own `url`; refused when no place has that name or the place has none.
pub fn goto_target_url(graph: &PlaceGraph, target_name: &str) -> (r: Result<String, GotoError>)
    ensures
        match find_place(graph.places@, target_name@, 0) {
            None => r matches Err(GotoError::UnknownPlace(n)) && n@ == target_name@,
            Some(i) => match graph.places@[i].url {
                Some(u) => r matches Ok(v) && v@ == u@,
                None => r matches Err(GotoError::NoUrl(n)) && n@ == target_name@,
            },
        },
{
    match graph.place(target_name) {
        None => Err(GotoError::UnknownPlace(crate::chars::owned(target_name))),
        Some(p) => match &p.url {
            Some(u) => Ok(u.clone()),
            None => Err(GotoError::NoUrl(crate::chars::owned(target_name))),
        },
    }
}

/// Progress of a `place goto` run.
#[derive(Debug, Clone, Copy, PartialEq, Eq, Structural)]
pub struct GotoProgress {
    /// Attempts begun so far.
    pub attempt: usize,
    /// Whether the next attempt navigates to the target's URL first.
    pub needs_navigation: bool,
}

impl GotoProgress {
    /// No attempt yet; the first one navigates.
    pub fn start() -> (p: GotoProgress)
        ensures
            p.attempt == 0,
            p.needs_navigation,
    {
        GotoProgress { attempt: 0, needs_navigation: true }
    }

    /// Begin the next attempt; `false` when all attempts are used.
    pub fn begin_attempt(&mut self) -> (r: bool)
        ensures
            r == (old(self).attempt < MAX_ATTEMPTS),
            final(self).attempt == if r {
                old(self).attempt + 1
            } else {
                old(self).attempt as int
            },
            final(self).needs_navigation == old(self).needs_navigation,
    {
        if self.attempt < MAX_ATTEMPTS {
            self.attempt = self.attempt + 1;
            true
        } else {
            false
        }
    }

    /// Apply the step taken after a recognition: a redirect, an
    /// interactive flow or a wait for any place leaves the next attempt
    /// without navigation; capturing or being stuck ends the run and
    /// changes nothing. The target is thus navigated to at most once, on
    /// the first attempt.
    pub fn after_step(&mut self, step: &GotoStep)
        ensures
            final(self).attempt == old(self).attempt,
            final(self).needs_navigation == (old(self).needs_navigation && match step {
                GotoStep::Redirect(_) | GotoStep::Interactive(_) | GotoStep::WaitForAny => false,
                _ => true,
            }),
    {
        match step {
            GotoStep::Redirect(_) | GotoStep::Interactive(_) | GotoStep::WaitForAny => {
                self.continue_without_navigation();
            },
            _ => {},
        }
    }

    /// After a redirect, an interactive flow or a wait that found a place,
    /// the next attempt recognizes again without navigating.
    pub fn continue_without_navigation(&mut self)
        ensures
            final(self).attempt == old(self).attempt,
            !final(self).needs_navigation,
    {
        self.needs_navigation = false;
    }
}

/// How auto-fill went on one place.
#[derive(Debug, Clone, Copy, PartialEq, Eq, Structural)]
pub struct AutoFillReport {
    pub attempted: usize,
    pub failed: usize,
}

impl AutoFillReport {
    pub fn new() -> (r: AutoFillReport)
        ensures
            r.attempted == 0,
            r.failed == 0,
    {
        AutoFillReport { attempted: 0, failed: 0 }
    }

    /// Count one fill and whether it failed.
    pub fn record(&mut self, ok: bool)
        requires
            old(self).attempted < usize::MAX,
            old(self).failed <= old(self).attempted,
        ensures
            final(self).attempted == old(self).attempted + 1,
            final(self).failed == old(self).failed + if ok {
                0int
            } else {
                1int
            },
            final(self).failed <= final(self).attempted,
    {
        self.attempted = self.attempted + 1;
        if !ok {
            self.failed = self.failed + 1;
        }
    }
}

/// The elements auto-fill fills: those with an `auto_fill` source, in order.
pub open spec fn fill_targets(els: Seq<Element>) -> Seq<Element>
    decreases els.len(),
{
    if els.len() == 0 {
        Seq::empty()
    } else if els.last().auto_fill is Some {
        fill_targets(els.drop_last()).push(els.last())
    } else {
        fill_targets(els.drop_last())
    }
}

/// The elements auto-fill fills, as (selector, source) pairs.
pub fn auto_fill_targets(elements: &Vec<Element>) -> (r: Vec<(String, String)>)
    ensures
        r@.len() == fill_targets(elements@).len(),
        forall|k: int| 0 <= k < r@.len() ==> {
            &&& (#[trigger] r@[k]).0@ == fill_targets(elements@)[k].selector@
            &&& opt_chars(fill_targets(elements@)[k].auto_fill) == Some(r@[k].1@)
        },
{
    let mut r: Vec<(String, String)> = Vec::new();
    let mut i: usize = 0;
    assert(elements@.take(0) =~= Seq::<Element>::empty());
    while i < elements.len()
        invariant
            i <= elements@.len(),
            r@.len() == fill_targets(elements@.take(i as int)).len(),
            forall|k: int| 0 <= k < r@.len() ==> {
                &&& (#[trigger] r@[k]).0@ == fill_targets(elements@.take(i as int))[k].selector@
                &&& opt_chars(fill_targets(elements@.take(i as int))[k].auto_fill) == Some(r@[k].1@)
            },
        decreases elements@.len() - i,
    {
        proof {
            assert(elements@.take(i + 1).drop_last() =~= elements@.take(i as int));
            assert(elements@.take(i + 1).last() == elements@[i as int]);
        }
        match &elements[i].auto_fill {
            Some(source) => {
                let sel = elements[i].selector.clone();
                let src = source.clone();
                r.push((sel, src));
            },
            None => {},
        }
        i = i + 1;
    }
    assert(elements@.take(i as int) =~= elements@);
    r
}

/// The submit click that runs after auto-fill: the place's, and only when
/// no fill failed.
pub fn submit_click(place: &Place, report: &AutoFillReport) -> (r: Option<String>)
    ensures
        match place.submit {
            Some(s) => if report.failed == 0 {
                opt_chars(r) == opt_chars(s.click)
            } else {
                r is None
            },
            None => r is None,
        },
{
    match &place.submit {
        Some(s) => if report.failed == 0 {
            match &s.click {
                Some(c) => Some(c.clone()),
                None => None,
            }
        } else {
            None
        },
        None => None,
    }
}

} // verus!
