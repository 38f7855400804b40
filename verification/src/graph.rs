//! The place graph of a site: places, site-wide elements, the mask
//! configuration and the values map, validated when built: place names are
//! unique, site-wide element names are unique, element names are unique
//! within a place, and no place element shadows a site-wide one.

use vstd::prelude::*;
use vstd::string::StringSliceAdditionalSpecFns;
use crate::chars::str_eq;
use crate::model::{Element, MaskConfig, Place, Signature};
use crate::values::ValuesConfig;
use crate::url_match::{UrlError, matches_signature_url, url_matches};

verus! {

/// The names of the places.
pub open spec fn place_names(ps: Seq<Place>) -> Seq<Seq<char>> {
    Seq::new(ps.len(), |i: int| ps[i].name@)
}

/// The names of the elements.
pub open spec fn element_names(es: Seq<Element>) -> Seq<Seq<char>> {
    Seq::new(es.len(), |i: int| es[i].name@)
}

/// Whether `names[k]` already occurred before `k`.
pub open spec fn seen_before(names: Seq<Seq<char>>, k: int) -> bool {
    exists|i: int| 0 <= i < k && names[i] == names[k]
}

/// The first name that repeats an earlier one.
pub open spec fn first_repeat_from(names: Seq<Seq<char>>, k: int) -> Option<int>
    decreases names.len() - k,
{
    if k < 0 || k >= names.len() {
        None
    } else if seen_before(names, k) {
        Some(k)
    } else {
        first_repeat_from(names, k + 1)
    }
}

/// What is wrong with the elements of one place: the first element that
/// repeats a name of the place (`true`) or takes a site-wide name
/// (`false`).
pub open spec fn element_problem_from(names: Seq<Seq<char>>, site: Seq<Seq<char>>, k: int) -> Option<(int, bool)>
    decreases names.len() - k,
{
    if k < 0 || k >= names.len() {
        None
    } else if seen_before(names, k) {
        Some((k, true))
    } else if site.contains(names[k]) {
        Some((k, false))
    } else {
        element_problem_from(names, site, k + 1)
    }
}

/// The first place, from `p` on, whose elements have a problem.
pub open spec fn place_problem_from(ps: Seq<Place>, site: Seq<Seq<char>>, p: int) -> Option<(int, int, bool)>
    decreases ps.len() - p,
{
    if p < 0 || p >= ps.len() {
        None
    } else {
        match element_problem_from(element_names(ps[p].elements@), site, 0) {
            Some((k, dup)) => Some((p, k, dup)),
            None => place_problem_from(ps, site, p + 1),
        }
    }
}

/// Why a place graph was refused.
#[derive(Debug, Clone)]
pub enum GraphError {
    DuplicatePlace(String),
    DuplicateSiteElement(String),
    DuplicateElement { element: String, place: String },
    ShadowedElement { element: String, place: String },
}

/// What validation finds, by the names involved: the first repeated
/// place, else the first repeated site-wide element, else the first place
/// element that repeats a name of its place or shadows a site-wide one.
pub open spec fn validation(ps: Seq<Place>, site: Seq<Element>) -> Option<(int, Seq<char>, Seq<char>)> {
    match first_repeat_from(place_names(ps), 0) {
        Some(j) => Some((0, place_names(ps)[j], Seq::empty())),
        None => match first_repeat_from(element_names(site), 0) {
            Some(j) => Some((1, element_names(site)[j], Seq::empty())),
            None => match place_problem_from(ps, element_names(site), 0) {
                Some((p, k, dup)) => Some(
                    (if dup {
                        2int
                    } else {
                        3int
                    }, element_names(ps[p].elements@)[k], ps[p].name@),
                ),
                None => None,
            },
        },
    }
}

/// The error as kind, first name, second name.
pub open spec fn error_view(e: GraphError) -> (int, Seq<char>, Seq<char>) {
    match e {
        GraphError::DuplicatePlace(n) => (0, n@, Seq::empty()),
        GraphError::DuplicateSiteElement(n) => (1, n@, Seq::empty()),
        GraphError::DuplicateElement { element, place } => (2, element@, place@),
        GraphError::ShadowedElement { element, place } => (3, element@, place@),
    }
}

fn name_in(names: &Vec<String>, upto: usize, name: &String) -> (r: bool)
    requires
        upto <= names@.len(),
    ensures
        r == exists|i: int| 0 <= i < upto && #[trigger] names@[i]@ == name@,
{
    let mut i: usize = 0;
    while i < upto
        invariant
            i <= upto <= names@.len(),
            forall|j: int| 0 <= j < i ==> #[trigger] names@[j]@ != name@,
        decreases upto - i,
    {
        if str_eq(names[i].as_str(), name.as_str()) {
            return true;
        }
        i = i + 1;
    }
    false
}

fn strings_of_places(ps: &Vec<Place>) -> (r: Vec<String>)
    ensures
        crate::chars::string_views(r@) == place_names(ps@),
{
    let mut r: Vec<String> = Vec::new();
    let mut i: usize = 0;
    while i < ps.len()
        invariant
            i <= ps@.len(),
            crate::chars::string_views(r@) == place_names(ps@).take(i as int),
        decreases ps@.len() - i,
    {
        let c = ps[i].name.clone();
        assert(c@ == ps@[i as int].name@);
        let ghost before = r@;
        r.push(c);
        assert(crate::chars::string_views(r@) =~= crate::chars::string_views(before).push(c@));
        assert(crate::chars::string_views(r@) =~= place_names(ps@).take(i + 1));
        i = i + 1;
    }
    assert(place_names(ps@).take(i as int) =~= place_names(ps@));
    r
}

fn strings_of_elements(es: &Vec<Element>) -> (r: Vec<String>)
    ensures
        crate::chars::string_views(r@) == element_names(es@),
{
    let mut r: Vec<String> = Vec::new();
    let mut i: usize = 0;
    while i < es.len()
        invariant
            i <= es@.len(),
            crate::chars::string_views(r@) == element_names(es@).take(i as int),
        decreases es@.len() - i,
    {
        let c = es[i].name.clone();
        assert(c@ == es@[i as int].name@);
        let ghost before = r@;
        r.push(c);
        assert(crate::chars::string_views(r@) =~= crate::chars::string_views(before).push(c@));
        assert(crate::chars::string_views(r@) =~= element_names(es@).take(i + 1));
        i = i + 1;
    }
    assert(element_names(es@).take(i as int) =~= element_names(es@));
    r
}

/// The first name repeating an earlier one.
fn first_repeat(names: &Vec<String>) -> (r: Option<usize>)
    ensures
        match r {
            Some(j) => first_repeat_from(crate::chars::string_views(names@), 0) == Some(j as int) && j
                < names@.len(),
            None => first_repeat_from(crate::chars::string_views(names@), 0) is None,
        },
{
    let ghost ns = crate::chars::string_views(names@);
    let mut k: usize = 0;
    while k < names.len()
        invariant
            k <= names@.len(),
            ns == crate::chars::string_views(names@),
            first_repeat_from(ns, 0) == first_repeat_from(ns, k as int),
        decreases names@.len() - k,
    {
        let seen = name_in(names, k, &names[k]);
        proof {
            if seen {
                let i = choose|i: int| 0 <= i < k && #[trigger] names@[i]@ == names@[k as int]@;
                assert(ns[i] == ns[k as int]);
            } else {
                assert forall|i: int| 0 <= i < k implies ns[i] != ns[k as int] by {
                    assert(ns[i] == names@[i]@);
                }
            }
        }
        if seen {
            return Some(k);
        }
        k = k + 1;
    }
    None
}

fn element_problem(names: &Vec<String>, site: &Vec<String>) -> (r: Option<(usize, bool)>)
    ensures
        match r {
            Some((k, dup)) => element_problem_from(
                crate::chars::string_views(names@),
                crate::chars::string_views(site@),
                0,
            ) == Some((k as int, dup)) && k < names@.len(),
            None => element_problem_from(
                crate::chars::string_views(names@),
                crate::chars::string_views(site@),
                0,
            ) is None,
        },
{
    let ghost ns = crate::chars::string_views(names@);
    let ghost ss = crate::chars::string_views(site@);
    let mut k: usize = 0;
    while k < names.len()
        invariant
            k <= names@.len(),
            ns == crate::chars::string_views(names@),
            ss == crate::chars::string_views(site@),
            element_problem_from(ns, ss, 0) == element_problem_from(ns, ss, k as int),
        decreases names@.len() - k,
    {
        let seen = name_in(names, k, &names[k]);
        proof {
            if seen {
                let i = choose|i: int| 0 <= i < k && #[trigger] names@[i]@ == names@[k as int]@;
                assert(ns[i] == ns[k as int]);
            } else {
                assert forall|i: int| 0 <= i < k implies ns[i] != ns[k as int] by {
                    assert(ns[i] == names@[i]@);
                }
            }
        }
        if seen {
            return Some((k, true));
        }
        let shadows = name_in(site, site.len(), &names[k]);
        proof {
            if shadows {
                let i = choose|i: int| 0 <= i < site@.len() && #[trigger] site@[i]@ == names@[k as int]@;
                assert(ss[i] == ns[k as int]);
            } else {
                assert forall|i: int| 0 <= i < ss.len() implies ss[i] != ns[k as int] by {
                    assert(ss[i] == site@[i]@);
                }
            }
        }
        if shadows {
            return Some((k, false));
        }
        k = k + 1;
    }
    None
}

/// Check the naming rules of a place graph.
pub fn validate(places: &Vec<Place>, site_elements: &Vec<Element>) -> (r: Result<(), GraphError>)
    ensures
        match r {
            Ok(()) => validation(places@, site_elements@) is None,
            Err(e) => validation(places@, site_elements@) == Some(error_view(e)),
        },
{
    let pn = strings_of_places(places);
    match first_repeat(&pn) {
        Some(j) => {
            return Err(GraphError::DuplicatePlace(pn[j].clone()));
        },
        None => {},
    }
    let sn = strings_of_elements(site_elements);
    match first_repeat(&sn) {
        Some(j) => {
            return Err(GraphError::DuplicateSiteElement(sn[j].clone()));
        },
        None => {},
    }
    let ghost site_v = element_names(site_elements@);
    let mut p: usize = 0;
    while p < places.len()
        invariant
            p <= places@.len(),
            site_v == element_names(site_elements@),
            crate::chars::string_views(sn@) == site_v,
            first_repeat_from(place_names(places@), 0) is None,
            first_repeat_from(site_v, 0) is None,
            place_problem_from(places@, site_v, 0) == place_problem_from(places@, site_v, p as int),
        decreases places@.len() - p,
    {
        let en = strings_of_elements(&places[p].elements);
        match element_problem(&en, &sn) {
            Some((k, dup)) => {
                let element = en[k].clone();
                let place = places[p].name.clone();
                if dup {
                    return Err(GraphError::DuplicateElement { element, place });
                } else {
                    return Err(GraphError::ShadowedElement { element, place });
                }
            },
            None => {},
        }
        p = p + 1;
    }
    Ok(())
}

/// The items of an optional list; an absent list has none.
pub open spec fn opt_seq<T>(o: Option<Vec<T>>) -> Seq<T> {
    match o {
        Some(v) => v@,
        None => Seq::empty(),
    }
}

/// A site's place graph.
#[derive(Debug)]
pub struct PlaceGraph {
    pub places: Vec<Place>,
    pub site_elements: Vec<Element>,
    pub mask_config: MaskConfig,
    pub values: ValuesConfig,
}

/// The first place with the given name.
pub open spec fn find_place(ps: Seq<Place>, name: Seq<char>, i: int) -> Option<int>
    decreases ps.len() - i,
{
    if i < 0 || i >= ps.len() {
        None
    } else if ps[i].name@ == name {
        Some(i)
    } else {
        find_place(ps, name, i + 1)
    }
}

impl PlaceGraph {
    /// A graph from its parts; refused when the naming rules fail.
    pub fn from_parts(
        places: Vec<Place>,
        site_elements: Vec<Element>,
        mask_config: MaskConfig,
        values: ValuesConfig,
    ) -> (r: Result<PlaceGraph, GraphError>)
        ensures
            match r {
                Ok(g) => validation(places@, site_elements@) is None && g.places@ == places@
                    && g.site_elements@ == site_elements@ && g.mask_config == mask_config && g.values
                    == values,
                Err(e) => validation(places@, site_elements@) == Some(error_view(e)),
            },
    {
        match validate(&places, &site_elements) {
            Ok(()) => Ok(PlaceGraph { places, site_elements, mask_config, values }),
            Err(e) => Err(e),
        }
    }

    /// A graph from the parsed mapping documents (`places.toml`,
    /// `elements.toml`, `mask.toml`, `values.toml`). An absent document
    /// stands for its defaults: no places, no site elements, the default
    /// mask configuration (no patterns or redact selectors, a stored cap of
    /// 0 that the mask policy reads as its default cap), no values.
    pub fn from_toml_strs(
        places: Option<Vec<Place>>,
        elements: Option<Vec<Element>>,
        mask: Option<MaskConfig>,
        values: Option<ValuesConfig>,
    ) -> (r: Result<PlaceGraph, GraphError>)
        ensures
            ({
                let ps = opt_seq(places);
                let es = opt_seq(elements);
                match r {
                    Ok(g) => {
                        &&& validation(ps, es) is None
                        &&& g.places@ == ps
                        &&& g.site_elements@ == es
                        &&& (match mask {
                            Some(m) => g.mask_config == m,
                            None => g.mask_config.mask.patterns@.len() == 0
                                && g.mask_config.mask.redact_selectors@.len() == 0
                                && g.mask_config.max_unmasked_chars == 0,
                        })
                        &&& (match values {
                            Some(v) => g.values == v,
                            None => g.values@ == Map::<Seq<char>, Seq<char>>::empty(),
                        })
                    },
                    Err(e) => validation(ps, es) == Some(error_view(e)),
                }
            }),
    {
        let places = match places {
            Some(v) => v,
            None => Vec::new(),
        };
        let elements = match elements {
            Some(v) => v,
            None => Vec::new(),
        };
        let mask = match mask {
            Some(m) => m,
            None => MaskConfig::default(),
        };
        let values = match values {
            Some(v) => v,
            None => ValuesConfig::new(),
        };
        PlaceGraph::from_parts(places, elements, mask, values)
    }

    /// The first place with the given name.
    pub fn place(&self, name: &str) -> (r: Option<&Place>)
        ensures
            match r {
                Some(p) => find_place(self.places@, name@, 0) matches Some(i) && *p == self.places@[i],
                None => find_place(self.places@, name@, 0) is None,
            },
    {
        let mut i: usize = 0;
        while i < self.places.len()
            invariant
                i <= self.places@.len(),
                find_place(self.places@, name@, 0) == find_place(self.places@, name@, i as int),
            decreases self.places@.len() - i,
        {
            if str_eq(self.places[i].name.as_str(), name) {
                return Some(&self.places[i]);
            }
            i = i + 1;
        }
        None
    }

    /// The site-wide elements followed by the place's own.
    pub fn elements_at(&self, place_name: &str) -> (r: Vec<&Element>)
        ensures
            r@.len() == self.site_elements@.len() + match find_place(self.places@, place_name@, 0) {
                Some(i) => self.places@[i].elements@.len(),
                None => 0,
            },
            forall|k: int| 0 <= k < self.site_elements@.len() ==> *r@[k] == self.site_elements@[k],
            find_place(self.places@, place_name@, 0) matches Some(i) ==> forall|k: int|
                0 <= k < self.places@[i].elements@.len() ==> *r@[self.site_elements@.len() + k]
                    == self.places@[i].elements@[k],
    {
        let mut out: Vec<&Element> = Vec::new();
        let mut i: usize = 0;
        while i < self.site_elements.len()
            invariant
                i <= self.site_elements@.len(),
                out@.len() == i,
                forall|k: int| 0 <= k < i ==> *out@[k] == self.site_elements@[k],
            decreases self.site_elements@.len() - i,
        {
            out.push(&self.site_elements[i]);
            i = i + 1;
        }
        match self.place(place_name) {
            Some(p) => {
                let n = out.len();
                let mut j: usize = 0;
                while j < p.elements.len()
                    invariant
                        j <= p.elements@.len(),
                        n == self.site_elements@.len(),
                        out@.len() == n + j,
                        forall|k: int| 0 <= k < n ==> *out@[k] == self.site_elements@[k],
                        forall|k: int| 0 <= k < j ==> *out@[n + k] == p.elements@[k],
                    decreases p.elements@.len() - j,
                {
                    out.push(&p.elements[j]);
                    j = j + 1;
                }
            },
            None => {},
        }
        out
    }
}

/// Whether the URL part of a signature accepts `url`: a signature without
/// a URL accepts any.
pub fn signature_url_matches(sig: &Signature, url: &str) -> (r: Result<bool, UrlError>)
    ensures
        match sig.url {
            Some(u) => r == url_matches(vstd::utf8::encode_utf8(u@), url.spec_bytes()),
            None => r == Ok::<bool, UrlError>(true),
        },
{
    match &sig.url {
        Some(u) => matches_signature_url(u.as_str(), url),
        None => Ok(true),
    }
}

proof fn lemma_no_repeat_from(names: Seq<Seq<char>>, k: int)
    requires
        0 <= k,
        first_repeat_from(names, k) is None,
    ensures
        forall|i: int, j: int| 0 <= i < j < names.len() && k <= j ==> names[i] != names[j],
    decreases names.len() - k,
{
    if k < names.len() {
        lemma_no_repeat_from(names, k + 1);
        assert(!seen_before(names, k));
    }
}

proof fn lemma_no_element_problem_from(names: Seq<Seq<char>>, site: Seq<Seq<char>>, k: int)
    requires
        0 <= k,
        element_problem_from(names, site, k) is None,
    ensures
        forall|i: int, j: int| 0 <= i < j < names.len() && k <= j ==> names[i] != names[j],
        forall|j: int| k <= j < names.len() ==> !site.contains(#[trigger] names[j]),
    decreases names.len() - k,
{
    if k < names.len() {
        lemma_no_element_problem_from(names, site, k + 1);
        assert(!seen_before(names, k));
    }
}

proof fn lemma_no_place_problem_from(ps: Seq<Place>, site: Seq<Seq<char>>, p: int)
    requires
        0 <= p,
        place_problem_from(ps, site, p) is None,
    ensures
        forall|q: int| p <= q < ps.len() ==> element_problem_from(element_names(#[trigger] ps[q].elements@), site, 0) is None,
    decreases ps.len() - p,
{
    if p < ps.len() {
        lemma_no_place_problem_from(ps, site, p + 1);
    }
}

/// A graph that passes validation has unique place names, unique
/// site-wide element names, unique element names within each place, and
/// no place element named like a site-wide one.
pub proof fn lemma_valid_graph_names(ps: Seq<Place>, site: Seq<Element>)
    requires
        validation(ps, site) is None,
    ensures
        forall|i: int, j: int| 0 <= i < j < ps.len() ==> ps[i].name@ != ps[j].name@,
        forall|i: int, j: int| 0 <= i < j < site.len() ==> site[i].name@ != site[j].name@,
        forall|q: int, i: int, j: int|
            0 <= q < ps.len() && 0 <= i < j < ps[q].elements@.len() ==> ps[q].elements@[i].name@
                != ps[q].elements@[j].name@,
        forall|q: int, i: int, k: int|
            0 <= q < ps.len() && 0 <= i < ps[q].elements@.len() && 0 <= k < site.len() ==> ps[q].elements@[i].name@
                != site[k].name@,
{
    lemma_no_repeat_from(place_names(ps), 0);
    lemma_no_repeat_from(element_names(site), 0);
    lemma_no_place_problem_from(ps, element_names(site), 0);
    assert forall|i: int, j: int| 0 <= i < j < ps.len() implies ps[i].name@ != ps[j].name@ by {
        assert(place_names(ps)[i] == ps[i].name@ && place_names(ps)[j] == ps[j].name@);
    }
    assert forall|i: int, j: int| 0 <= i < j < site.len() implies site[i].name@ != site[j].name@ by {
        assert(element_names(site)[i] == site[i].name@ && element_names(site)[j] == site[j].name@);
    }
    assert forall|q: int, i: int, j: int|
        0 <= q < ps.len() && 0 <= i < j < ps[q].elements@.len() implies ps[q].elements@[i].name@
            != ps[q].elements@[j].name@ by {
        let names = element_names(ps[q].elements@);
        lemma_no_element_problem_from(names, element_names(site), 0);
        assert(names[i] == ps[q].elements@[i].name@ && names[j] == ps[q].elements@[j].name@);
    }
    assert forall|q: int, i: int, k: int|
        0 <= q < ps.len() && 0 <= i < ps[q].elements@.len() && 0 <= k < site.len() implies ps[q].elements@[i].name@
            != site[k].name@ by {
        let names = element_names(ps[q].elements@);
        lemma_no_element_problem_from(names, element_names(site), 0);
        assert(names[i] == ps[q].elements@[i].name@);
        assert(element_names(site)[k] == site[k].name@);
        assert(!element_names(site).contains(names[i]));
    }
}

} // verus!
