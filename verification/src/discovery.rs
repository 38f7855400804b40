//! Secret items discovered through a provider's item list: what one list
//! entry yields, the generated references, the text a search runs over,
//! and the order the items are shown in (most recently updated first,
//! then by title, then by id).

use vstd::prelude::*;
use vstd::utf8::{decode_utf8, encode_utf8};
use vstd::string::{StringExecFns, StringSliceAdditionalSpecFns};
use std::cmp::Ordering;
use crate::chars::{
    ascii_lower_seq, contains_seq, contains_str, debug_quoted, decimal, opt_chars, opt_str_chars, owned,
    push_debug_quoted, to_ascii_lowercase, usize_to_decimal,
};
use crate::order::{compare_bytes, compare_opt_bytes, lemma_lex_order_antisymmetric, lemma_lex_order_transitive, lemma_opt_order, lex_order, opt_order};
use crate::secrets::{
    SecretProviderId, SecretReference, field_reference_bytes, join_with, normalized_search,
    otp_reference_bytes, search_needle,
};

verus! {

/// One field of an item-list entry, as the JSON held it: a string, an
/// object (with its `name` and `id` when they are strings), missing, or
/// anything else.
#[derive(Debug, Clone)]
pub enum JsonField {
    Missing,
    Text(String),
    Object { name: Option<String>, id: Option<String> },
    Other,
}

/// The `vault` object of an entry.
#[derive(Debug, Clone)]
pub struct VaultEntry {
    pub id: JsonField,
    pub name: JsonField,
}

/// One element of an entry's `urls` array.
#[derive(Debug, Clone)]
pub struct UrlEntry {
    pub href: JsonField,
    pub label: JsonField,
    /// `primary`, when it is a boolean.
    pub primary: Option<bool>,
}

/// One element of the item list printed by `op item list --format json`.
#[derive(Debug, Clone)]
pub struct ItemEntry {
    pub id: JsonField,
    pub title: JsonField,
    /// `None` when the entry has no `vault`.
    pub vault: Option<VaultEntry>,
    pub category: JsonField,
    pub created_at: JsonField,
    pub updated_at: JsonField,
    /// `None` when `urls` is missing or not an array.
    pub urls: Option<Vec<UrlEntry>>,
}

/// The text of a field: a string itself, or an object's `name`, else its
/// `id`.
pub open spec fn field_text(f: JsonField) -> Option<Seq<char>> {
    match f {
        JsonField::Text(s) => Some(s@),
        JsonField::Object { name, id } => match name {
            Some(n) => Some(n@),
            None => opt_chars(id),
        },
        _ => None,
    }
}

/// The text of a field.
pub fn value_string(value: &JsonField) -> (r: Option<String>)
    ensures
        opt_chars(r) == field_text(*value),
{
    match value {
        JsonField::Text(s) => Some(s.clone()),
        JsonField::Object { name, id } => match name {
            Some(n) => Some(n.clone()),
            None => match id {
                Some(i) => Some(i.clone()),
                None => None,
            },
        },
        _ => None,
    }
}

/// What a discovered URL shows.
pub struct UrlView {
    pub label: Option<Seq<char>>,
    pub primary: bool,
    pub href: Seq<char>,
}

/// A generated reference, by field.
pub struct ReferenceView {
    pub field: Seq<char>,
    pub reference: Seq<char>,
}

/// What a discovered item shows.
pub struct ItemView {
    pub item_id: Seq<char>,
    pub title: Seq<char>,
    pub vault_id: Seq<char>,
    pub vault_name: Option<Seq<char>>,
    pub category: Option<Seq<char>>,
    pub created_at: Option<Seq<char>>,
    pub updated_at: Option<Seq<char>>,
    pub urls: Seq<UrlView>,
    pub references: Seq<ReferenceView>,
}

/// A URL of a discovered item.
pub struct DiscoveredSecretUrl {
    label: Option<String>,
    primary: bool,
    href: String,
}

/// A reference generated for a discovered item.
pub struct DiscoveredSecretReference {
    field: String,
    reference: String,
}

/// An item found by listing a provider's items; its values are never read.
pub struct DiscoveredSecretItem {
    provider: SecretProviderId,
    item_id: String,
    title: String,
    vault_id: String,
    vault_name: Option<String>,
    category: Option<String>,
    created_at: Option<String>,
    updated_at: Option<String>,
    urls: Vec<DiscoveredSecretUrl>,
    references: Vec<DiscoveredSecretReference>,
}

impl View for DiscoveredSecretUrl {
    type V = UrlView;

    closed spec fn view(&self) -> UrlView {
        UrlView { label: opt_chars(self.label), primary: self.primary, href: self.href@ }
    }
}

impl View for DiscoveredSecretReference {
    type V = ReferenceView;

    closed spec fn view(&self) -> ReferenceView {
        ReferenceView { field: self.field@, reference: self.reference@ }
    }
}

/// The views of a sequence of URLs.
pub open spec fn url_views(s: Seq<DiscoveredSecretUrl>) -> Seq<UrlView> {
    Seq::new(s.len(), |i: int| s[i]@)
}

/// The views of a sequence of references.
pub open spec fn reference_views(s: Seq<DiscoveredSecretReference>) -> Seq<ReferenceView> {
    Seq::new(s.len(), |i: int| s[i]@)
}

impl View for DiscoveredSecretItem {
    type V = ItemView;

    closed spec fn view(&self) -> ItemView {
        ItemView {
            item_id: self.item_id@,
            title: self.title@,
            vault_id: self.vault_id@,
            vault_name: opt_chars(self.vault_name),
            category: opt_chars(self.category),
            created_at: opt_chars(self.created_at),
            updated_at: opt_chars(self.updated_at),
            urls: url_views(self.urls@),
            references: reference_views(self.references@),
        }
    }
}

fn clone_opt(o: &Option<String>) -> (r: Option<String>)
    ensures
        r == *o,
{
    match o {
        Some(s) => Some(s.clone()),
        None => None,
    }
}

fn opt_as_str(o: &Option<String>) -> (r: Option<&str>)
    ensures
        opt_str_chars(r) == opt_chars(*o),
{
    match o {
        Some(s) => Some(s.as_str()),
        None => None,
    }
}

impl Clone for DiscoveredSecretUrl {
    fn clone(&self) -> (r: DiscoveredSecretUrl)
        ensures
            r == *self,
    {
        DiscoveredSecretUrl { label: clone_opt(&self.label), primary: self.primary, href: self.href.clone() }
    }
}

impl Clone for DiscoveredSecretReference {
    fn clone(&self) -> (r: DiscoveredSecretReference)
        ensures
            r == *self,
    {
        DiscoveredSecretReference { field: self.field.clone(), reference: self.reference.clone() }
    }
}

impl Clone for DiscoveredSecretItem {
    fn clone(&self) -> (r: DiscoveredSecretItem)
        ensures
            r@ == self@,
    {
        let urls = self.urls.clone();
        let references = self.references.clone();
        proof {
            assert(urls@ =~= self.urls@);
            assert(references@ =~= self.references@);
        }
        DiscoveredSecretItem {
            provider: self.provider,
            item_id: self.item_id.clone(),
            title: self.title.clone(),
            vault_id: self.vault_id.clone(),
            vault_name: clone_opt(&self.vault_name),
            category: clone_opt(&self.category),
            created_at: clone_opt(&self.created_at),
            updated_at: clone_opt(&self.updated_at),
            urls,
            references,
        }
    }
}

impl DiscoveredSecretUrl {
    /// A URL as the item list gave it; `None` when `href` is not a string
    /// or is blank.
    pub fn from_entry(entry: &UrlEntry) -> (r: Option<DiscoveredSecretUrl>)
        ensures
            r is Some <==> url_from_entry(*entry) is Some,
            r matches Some(u) ==> url_from_entry(*entry) == Some(u@),
    {
        discovered_url_from_value(entry)
    }

    pub fn label(&self) -> (r: Option<&str>)
        ensures
            opt_str_chars(r) == self@.label,
    {
        opt_as_str(&self.label)
    }

    pub fn primary(&self) -> (r: bool)
        ensures
            r == self@.primary,
    {
        self.primary
    }

    pub fn href(&self) -> (r: &str)
        ensures
            r@ == self@.href,
    {
        self.href.as_str()
    }
}

impl DiscoveredSecretReference {
    pub fn field(&self) -> (r: &str)
        ensures
            r@ == self@.field,
    {
        self.field.as_str()
    }

    pub fn reference(&self) -> (r: &str)
        ensures
            r@ == self@.reference,
    {
        self.reference.as_str()
    }
}

/// The URL an entry gives: its `href` when that is a non-blank string,
/// its label, and whether it is the primary one.
pub open spec fn url_from_entry(e: UrlEntry) -> Option<UrlView> {
    match e.href {
        JsonField::Text(h) => if crate::chars::trim(h@).len() == 0 {
            None
        } else {
            Some(
                UrlView {
                    label: field_text(e.label),
                    primary: match e.primary {
                        Some(b) => b,
                        None => false,
                    },
                    href: h@,
                },
            )
        },
        _ => None,
    }
}

/// A URL from one element of an entry's `urls` array.
pub fn discovered_url_from_value(value: &UrlEntry) -> (r: Option<DiscoveredSecretUrl>)
    ensures
        r is Some <==> url_from_entry(*value) is Some,
        r matches Some(u) ==> url_from_entry(*value) == Some(u@),
{
    let href = match &value.href {
        JsonField::Text(h) => h.clone(),
        _ => {
            return None;
        },
    };
    let trimmed = crate::chars::trim_str(href.as_str());
    if trimmed.as_str().is_empty() {
        return None;
    }
    let primary = match value.primary {
        Some(b) => b,
        None => false,
    };
    Some(DiscoveredSecretUrl { label: value_string(&value.label), primary, href })
}

/// The references generated for every item: username, password and
/// one-time password.
pub open spec fn generated_references(vault_id: Seq<char>, item_id: Seq<char>) -> Seq<ReferenceView> {
    seq![
        ReferenceView {
            field: "username"@,
            reference: decode_utf8(
                field_reference_bytes(encode_utf8(vault_id), encode_utf8(item_id), encode_utf8("username"@)),
            ),
        },
        ReferenceView {
            field: "password"@,
            reference: decode_utf8(
                field_reference_bytes(encode_utf8(vault_id), encode_utf8(item_id), encode_utf8("password"@)),
            ),
        },
        ReferenceView {
            field: "otp"@,
            reference: decode_utf8(otp_reference_bytes(encode_utf8(vault_id), encode_utf8(item_id))),
        },
    ]
}

fn reference_entry(field: &str, reference: &SecretReference) -> (r: DiscoveredSecretReference)
    ensures
        r@.field == field@,
        r@.reference == decode_utf8(reference.raw_bytes()),
{
    proof {
        reference.lemma_raw();
        vstd::utf8::encode_utf8_decode_utf8(reference.raw_chars());
    }
    DiscoveredSecretReference { field: owned(field), reference: owned(reference.as_str()) }
}

impl DiscoveredSecretItem {
    pub fn provider(&self) -> (r: SecretProviderId)
        ensures
            r == SecretProviderId::OnePassword,
    {
        proof {
            assert(self.provider == SecretProviderId::OnePassword);
        }
        self.provider
    }

    pub fn item_id(&self) -> (r: &str)
        ensures
            r@ == self@.item_id,
    {
        self.item_id.as_str()
    }

    pub fn title(&self) -> (r: &str)
        ensures
            r@ == self@.title,
    {
        self.title.as_str()
    }

    pub fn vault_id(&self) -> (r: &str)
        ensures
            r@ == self@.vault_id,
    {
        self.vault_id.as_str()
    }

    pub fn vault_name(&self) -> (r: Option<&str>)
        ensures
            opt_str_chars(r) == self@.vault_name,
    {
        opt_as_str(&self.vault_name)
    }

    pub fn category(&self) -> (r: Option<&str>)
        ensures
            opt_str_chars(r) == self@.category,
    {
        opt_as_str(&self.category)
    }

    pub fn created_at(&self) -> (r: Option<&str>)
        ensures
            opt_str_chars(r) == self@.created_at,
    {
        opt_as_str(&self.created_at)
    }

    pub fn updated_at(&self) -> (r: Option<&str>)
        ensures
            opt_str_chars(r) == self@.updated_at,
    {
        opt_as_str(&self.updated_at)
    }

    pub fn urls(&self) -> (r: &[DiscoveredSecretUrl])
        ensures
            url_views(r@) == self@.urls,
    {
        self.urls.as_slice()
    }

    pub fn references(&self) -> (r: &[DiscoveredSecretReference])
        ensures
            reference_views(r@) == self@.references,
    {
        self.references.as_slice()
    }

    /// The reference to one field of this item.
    pub fn field_reference(&self, field: &str) -> (r: SecretReference)
        ensures
            r.raw_bytes() == field_reference_bytes(
                encode_utf8(self@.vault_id),
                encode_utf8(self@.item_id),
                field.spec_bytes(),
            ),
    {
        SecretReference::onepassword_item_field(self.vault_id.as_str(), self.item_id.as_str(), field)
    }

    /// The reference to this item's one-time password.
    pub fn otp_reference(&self) -> (r: SecretReference)
        ensures
            r.raw_bytes() == otp_reference_bytes(encode_utf8(self@.vault_id), encode_utf8(self@.item_id)),
    {
        SecretReference::onepassword_item_otp(self.vault_id.as_str(), self.item_id.as_str())
    }
}

/// The references every discovered item gets.
pub fn discovered_references_for(item: &DiscoveredSecretItem) -> (r: Vec<DiscoveredSecretReference>)
    ensures
        reference_views(r@) == generated_references(item@.vault_id, item@.item_id),
{
    let username = item.field_reference("username");
    let password = item.field_reference("password");
    let otp = item.otp_reference();
    let r = vec![
        reference_entry("username", &username),
        reference_entry("password", &password),
        reference_entry("otp", &otp),
    ];
    proof {
        let v = reference_views(r@);
        assert(v[0] == r@[0]@);
        assert(v[1] == r@[1]@);
        assert(v[2] == r@[2]@);
        assert(v =~= generated_references(item@.vault_id, item@.item_id));
    }
    r
}

/// The URLs an entry yields, in order.
pub open spec fn entry_urls(urls: Seq<UrlEntry>) -> Seq<UrlView>
    decreases urls.len(),
{
    if urls.len() == 0 {
        Seq::empty()
    } else {
        match url_from_entry(urls.last()) {
            Some(u) => entry_urls(urls.drop_last()).push(u),
            None => entry_urls(urls.drop_last()),
        }
    }
}

/// The item an entry yields.
pub open spec fn item_from_entry(e: ItemEntry) -> Option<ItemView> {
    match (e.id, e.title, e.vault) {
        (JsonField::Text(id), JsonField::Text(title), Some(vault)) => match field_text(vault.id) {
            Some(vault_id) => Some(
                ItemView {
                    item_id: id@,
                    title: title@,
                    vault_id,
                    vault_name: field_text(vault.name),
                    category: field_text(e.category),
                    created_at: field_text(e.created_at),
                    updated_at: field_text(e.updated_at),
                    urls: match e.urls {
                        Some(us) => entry_urls(us@),
                        None => Seq::<UrlView>::empty(),
                    },
                    references: generated_references(vault_id, id@),
                },
            ),
            None => None,
        },
        _ => None,
    }
}

fn urls_from_entries(urls: &Vec<UrlEntry>) -> (r: Vec<DiscoveredSecretUrl>)
    ensures
        url_views(r@) == entry_urls(urls@),
{
    let mut out: Vec<DiscoveredSecretUrl> = Vec::new();
    let mut i: usize = 0;
    while i < urls.len()
        invariant
            i <= urls@.len(),
            url_views(out@) == entry_urls(urls@.take(i as int)),
        decreases urls@.len() - i,
    {
        proof {
            assert(urls@.take(i + 1).drop_last() =~= urls@.take(i as int));
            assert(urls@.take(i + 1).last() == urls@[i as int]);
        }
        match discovered_url_from_value(&urls[i]) {
            Some(u) => {
                let ghost before = out@;
                out.push(u);
                assert(url_views(out@) =~= url_views(before).push(u@));
            },
            None => {},
        }
        i = i + 1;
    }
    assert(urls@.take(i as int) =~= urls@);
    out
}

/// The item one entry of the item list yields; `None` when the entry
/// lacks a string id or title, or a vault id.
pub fn discovered_item_from_value(value: &ItemEntry) -> (r: Option<DiscoveredSecretItem>)
    ensures
        r is Some <==> item_from_entry(*value) is Some,
        r matches Some(item) ==> item_from_entry(*value) == Some(item@),
{
    let item_id = match &value.id {
        JsonField::Text(s) => s.clone(),
        _ => {
            return None;
        },
    };
    let title = match &value.title {
        JsonField::Text(s) => s.clone(),
        _ => {
            return None;
        },
    };
    let vault = match &value.vault {
        Some(v) => v,
        None => {
            return None;
        },
    };
    let vault_id = match value_string(&vault.id) {
        Some(v) => v,
        None => {
            return None;
        },
    };
    let urls = match &value.urls {
        Some(us) => urls_from_entries(us),
        None => Vec::new(),
    };
    let mut item = DiscoveredSecretItem {
        provider: SecretProviderId::OnePassword,
        item_id,
        title,
        vault_id,
        vault_name: value_string(&vault.name),
        category: value_string(&value.category),
        created_at: value_string(&value.created_at),
        updated_at: value_string(&value.updated_at),
        urls,
        references: Vec::new(),
    };
    proof {
        if value.urls is None {
            assert(url_views(item.urls@) =~= Seq::<UrlView>::empty());
        }
    }
    item.references = discovered_references_for(&item);
    Some(item)
}

/// `s`, or nothing.
pub open spec fn or_empty(o: Option<Seq<char>>) -> Seq<char> {
    match o {
        Some(s) => s,
        None => Seq::empty(),
    }
}

/// How a boolean is printed.
pub open spec fn bool_text(b: bool) -> Seq<char> {
    if b {
        "true"@
    } else {
        "false"@
    }
}

/// One URL in the search text: label, primary flag and href.
pub open spec fn url_text(u: UrlView) -> Seq<char> {
    or_empty(u.label) + " "@ + bool_text(u.primary) + " "@ + u.href
}

/// The text a search runs over: title, vault name, category and the URLs,
/// separated by spaces, in ASCII lower case.
pub open spec fn haystack_of(v: ItemView) -> Seq<char> {
    ascii_lower_seq(
        v.title + " "@ + or_empty(v.vault_name) + " "@ + or_empty(v.category) + " "@ + join_with(
            Seq::new(v.urls.len(), |i: int| url_text(v.urls[i])),
            " "@,
        ),
    )
}

fn append_opt(out: &mut String, o: &Option<String>)
    ensures
        final(out)@ == old(out)@ + or_empty(opt_chars(*o)),
{
    match o {
        Some(s) => out.append(s.as_str()),
        None => {
            assert(old(out)@ + Seq::<char>::empty() =~= old(out)@);
        },
    }
}

fn url_search_text(u: &DiscoveredSecretUrl) -> (r: String)
    ensures
        r@ == url_text(u@),
{
    let mut out = String::new();
    append_opt(&mut out, &u.label);
    out.append(" ");
    if u.primary {
        out.append("true");
    } else {
        out.append("false");
    }
    out.append(" ");
    out.append(u.href.as_str());
    proof {
        assert(out@ =~= url_text(u@));
    }
    out
}

/// The text a search runs over.
pub fn discovery_haystack(item: &DiscoveredSecretItem) -> (r: String)
    ensures
        r@ == haystack_of(item@),
{
    let ghost texts = Seq::new(item@.urls.len(), |i: int| url_text(item@.urls[i]));
    let mut urls = String::new();
    let mut i: usize = 0;
    while i < item.urls.len()
        invariant
            i <= item.urls@.len(),
            texts.len() == item.urls@.len(),
            texts == Seq::new(item@.urls.len(), |i: int| url_text(item@.urls[i])),
            item@.urls == url_views(item.urls@),
            urls@ == join_with(texts.take(i as int), " "@),
        decreases item.urls@.len() - i,
    {
        proof {
            let t = texts.take(i + 1);
            assert(t.drop_last() =~= texts.take(i as int));
            assert(t.last() == url_text(item.urls@[i as int]@));
        }
        if i > 0 {
            urls.append(" ");
        }
        let u = url_search_text(&item.urls[i]);
        urls.append(u.as_str());
        proof {
            if i == 0 {
                assert(urls@ =~= texts.take(1)[0]);
            }
        }
        i = i + 1;
    }
    assert(texts.take(i as int) =~= texts);
    let mut all = item.title.clone();
    all.append(" ");
    append_opt(&mut all, &item.vault_name);
    all.append(" ");
    append_opt(&mut all, &item.category);
    all.append(" ");
    all.append(urls.as_str());
    to_ascii_lowercase(all.as_str())
}

/// Whether an item passes a search (already trimmed and lower-cased).
pub open spec fn matches_search(v: ItemView, needle: Option<Seq<char>>) -> bool {
    match needle {
        None => true,
        Some(n) => contains_seq(haystack_of(v), n),
    }
}

proof fn lemma_contains_at(s: Seq<char>, x: Seq<char>, i: int)
    requires
        0 <= i,
        i + x.len() <= s.len(),
        s.subrange(i, i + x.len()) =~= x,
    ensures
        contains_seq(s, x),
{
    assert(s.subrange(i, i + x.len()) == x);
}

proof fn lemma_contains_concat(a: Seq<char>, b: Seq<char>, x: Seq<char>)
    ensures
        contains_seq(a, x) ==> contains_seq(a + b, x),
        contains_seq(b, x) ==> contains_seq(a + b, x),
{
    if contains_seq(a, x) {
        let i = choose|i: int| 0 <= i && i + x.len() <= a.len() && #[trigger] a.subrange(i, i + x.len()) == x;
        lemma_contains_at(a + b, x, i);
    }
    if contains_seq(b, x) {
        let i = choose|i: int| 0 <= i && i + x.len() <= b.len() && #[trigger] b.subrange(i, i + x.len()) == x;
        lemma_contains_at(a + b, x, a.len() + i);
    }
}

proof fn lemma_contains_trans(h: Seq<char>, m: Seq<char>, n: Seq<char>)
    requires
        contains_seq(h, m),
        contains_seq(m, n),
    ensures
        contains_seq(h, n),
{
    let i = choose|i: int| 0 <= i && i + m.len() <= h.len() && #[trigger] h.subrange(i, i + m.len()) == m;
    let j = choose|j: int| 0 <= j && j + n.len() <= m.len() && #[trigger] m.subrange(j, j + n.len()) == n;
    assert forall|k: int| 0 <= k < n.len() implies h.subrange(i + j, i + j + n.len())[k] == n[k] by {
        assert(h.subrange(i, i + m.len())[j + k] == m[j + k]);
        assert(m.subrange(j, j + n.len())[k] == n[k]);
    }
    lemma_contains_at(h, n, i + j);
}

proof fn lemma_contains_lower(s: Seq<char>, x: Seq<char>)
    requires
        contains_seq(s, x),
    ensures
        contains_seq(ascii_lower_seq(s), ascii_lower_seq(x)),
{
    let i = choose|i: int| 0 <= i && i + x.len() <= s.len() && #[trigger] s.subrange(i, i + x.len()) == x;
    assert forall|k: int| 0 <= k < x.len() implies ascii_lower_seq(s).subrange(i, i + x.len())[k]
        == ascii_lower_seq(x)[k] by {
        assert(s.subrange(i, i + x.len())[k] == x[k]);
    }
    lemma_contains_at(ascii_lower_seq(s), ascii_lower_seq(x), i);
}

proof fn lemma_join_with_contains(parts: Seq<Seq<char>>, sep: Seq<char>, j: int)
    requires
        0 <= j < parts.len(),
    ensures
        contains_seq(join_with(parts, sep), parts[j]),
    decreases parts.len(),
{
    if parts.len() == 1 {
        lemma_contains_at(parts[0], parts[0], 0);
    } else {
        let pre = join_with(parts.drop_last(), sep);
        assert(join_with(parts, sep) == pre + sep + parts.last());
        if j == parts.len() - 1 {
            lemma_contains_at(parts.last(), parts.last(), 0);
            lemma_contains_concat(pre + sep, parts.last(), parts.last());
        } else {
            lemma_join_with_contains(parts.drop_last(), sep, j);
            assert(parts.drop_last()[j] == parts[j]);
            lemma_contains_concat(pre, sep, parts[j]);
            lemma_contains_concat(pre + sep, parts.last(), parts[j]);
        }
    }
}

proof fn lemma_contains_mid(a: Seq<char>, x: Seq<char>, b: Seq<char>)
    ensures
        contains_seq(a + x + b, x),
{
    lemma_contains_at(a + x + b, x, a.len() as int);
}

/// The text that `haystack_of` lower-cases.
spec fn search_text(v: ItemView) -> Seq<char> {
    v.title + " "@ + or_empty(v.vault_name) + " "@ + or_empty(v.category) + " "@ + join_with(
        Seq::new(v.urls.len(), |i: int| url_text(v.urls[i])),
        " "@,
    )
}

proof fn lemma_search_text_parts(v: ItemView)
    ensures
        haystack_of(v) == ascii_lower_seq(search_text(v)),
        contains_seq(search_text(v), v.title),
        contains_seq(search_text(v), or_empty(v.vault_name)),
        contains_seq(search_text(v), or_empty(v.category)),
        contains_seq(search_text(v), join_with(Seq::new(v.urls.len(), |i: int| url_text(v.urls[i])), " "@)),
{
    let sp = " "@;
    let vn = or_empty(v.vault_name);
    let cat = or_empty(v.category);
    let joined = join_with(Seq::new(v.urls.len(), |i: int| url_text(v.urls[i])), " "@);
    let s = search_text(v);
    assert(s =~= Seq::<char>::empty() + v.title + (sp + vn + sp + cat + sp + joined));
    lemma_contains_mid(Seq::<char>::empty(), v.title, sp + vn + sp + cat + sp + joined);
    assert(s =~= (v.title + sp) + vn + (sp + cat + sp + joined));
    lemma_contains_mid(v.title + sp, vn, sp + cat + sp + joined);
    assert(s =~= (v.title + sp + vn + sp) + cat + (sp + joined));
    lemma_contains_mid(v.title + sp + vn + sp, cat, sp + joined);
    assert(s =~= (v.title + sp + vn + sp + cat + sp) + joined + Seq::<char>::empty());
    lemma_contains_mid(v.title + sp + vn + sp + cat + sp, joined, Seq::<char>::empty());
}

proof fn lemma_url_text_parts(u: UrlView)
    ensures
        contains_seq(url_text(u), u.href),
        u.label is Some ==> contains_seq(url_text(u), u.label->0),
{
    let sp = " "@;
    let ut = url_text(u);
    assert(ut =~= (or_empty(u.label) + sp + bool_text(u.primary) + sp) + u.href + Seq::<char>::empty());
    lemma_contains_mid(or_empty(u.label) + sp + bool_text(u.primary) + sp, u.href, Seq::<char>::empty());
    assert(ut =~= Seq::<char>::empty() + or_empty(u.label) + (sp + bool_text(u.primary) + sp + u.href));
    lemma_contains_mid(Seq::<char>::empty(), or_empty(u.label), sp + bool_text(u.primary) + sp + u.href);
}

proof fn lemma_search_text_has_url(v: ItemView, j: int)
    requires
        0 <= j < v.urls.len(),
    ensures
        contains_seq(search_text(v), v.urls[j].href),
        v.urls[j].label is Some ==> contains_seq(search_text(v), v.urls[j].label->0),
{
    let texts = Seq::new(v.urls.len(), |i: int| url_text(v.urls[i]));
    let u = v.urls[j];
    let ut = url_text(u);
    assert(texts[j] == ut);
    lemma_search_text_parts(v);
    lemma_join_with_contains(texts, " "@, j);
    lemma_contains_trans(search_text(v), join_with(texts, " "@), ut);
    lemma_url_text_parts(u);
    lemma_contains_trans(search_text(v), ut, u.href);
    if u.label is Some {
        lemma_contains_trans(search_text(v), ut, u.label->0);
    }
}

/// The search text of an item holds, in ASCII lower case, its title, its
/// vault name and its category where it has them, and the href and the
/// label of each of its URLs. So a search whose (lower-cased) needle occurs
/// in any of these, lower-cased, selects the item.
pub proof fn lemma_search_text_covers_item(v: ItemView, needle: Seq<char>)
    ensures
        contains_seq(haystack_of(v), ascii_lower_seq(v.title)),
        v.vault_name is Some ==> contains_seq(haystack_of(v), ascii_lower_seq(v.vault_name->0)),
        v.category is Some ==> contains_seq(haystack_of(v), ascii_lower_seq(v.category->0)),
        forall|j: int|
            0 <= j < v.urls.len() ==> contains_seq(haystack_of(v), ascii_lower_seq(#[trigger] v.urls[j].href)),
        forall|j: int|
            0 <= j < v.urls.len() && (#[trigger] v.urls[j]).label is Some ==> contains_seq(
                haystack_of(v),
                ascii_lower_seq(v.urls[j].label->0),
            ),
        contains_seq(ascii_lower_seq(v.title), needle) ==> matches_search(v, Some(needle)),
        v.vault_name is Some && contains_seq(ascii_lower_seq(v.vault_name->0), needle) ==> matches_search(
            v,
            Some(needle),
        ),
        v.category is Some && contains_seq(ascii_lower_seq(v.category->0), needle) ==> matches_search(
            v,
            Some(needle),
        ),
{
    let s = search_text(v);
    lemma_search_text_parts(v);
    lemma_contains_lower(s, v.title);
    lemma_contains_lower(s, or_empty(v.vault_name));
    lemma_contains_lower(s, or_empty(v.category));
    assert forall|j: int| 0 <= j < v.urls.len() implies contains_seq(
        haystack_of(v),
        ascii_lower_seq(#[trigger] v.urls[j].href),
    ) by {
        lemma_search_text_has_url(v, j);
        lemma_contains_lower(s, v.urls[j].href);
    }
    assert forall|j: int| 0 <= j < v.urls.len() && (#[trigger] v.urls[j]).label is Some implies contains_seq(
        haystack_of(v),
        ascii_lower_seq(v.urls[j].label->0),
    ) by {
        lemma_search_text_has_url(v, j);
        lemma_contains_lower(s, v.urls[j].label->0);
    }
    if contains_seq(ascii_lower_seq(v.title), needle) {
        lemma_contains_trans(haystack_of(v), ascii_lower_seq(v.title), needle);
    }
    if v.vault_name is Some && contains_seq(ascii_lower_seq(v.vault_name->0), needle) {
        lemma_contains_trans(haystack_of(v), ascii_lower_seq(v.vault_name->0), needle);
    }
    if v.category is Some && contains_seq(ascii_lower_seq(v.category->0), needle) {
        lemma_contains_trans(haystack_of(v), ascii_lower_seq(v.category->0), needle);
    }
}

/// The bytes of an optional text.
pub open spec fn opt_bytes(o: Option<Seq<char>>) -> Option<Seq<u8>> {
    match o {
        Some(s) => Some(encode_utf8(s)),
        None => None,
    }
}

/// The display order of items: most recently updated first (items with no
/// update time last), then by title, then by id, strings compared byte by
/// byte.
pub open spec fn item_order(a: ItemView, b: ItemView) -> int {
    let by_update = opt_order(opt_bytes(b.updated_at), opt_bytes(a.updated_at));
    if by_update != 0 {
        by_update
    } else {
        let by_title = lex_order(encode_utf8(a.title), encode_utf8(b.title));
        if by_title != 0 {
            by_title
        } else {
            lex_order(encode_utf8(a.item_id), encode_utf8(b.item_id))
        }
    }
}

/// The display order is a total preorder: swapping reverses it, and it is
/// transitive, strictly so when either step is strict.
pub proof fn lemma_item_order(a: ItemView, b: ItemView, c: ItemView)
    ensures
        item_order(a, b) == -item_order(b, a),
        -1 <= item_order(a, b) <= 1,
        item_order(a, b) <= 0 && item_order(b, c) <= 0 ==> item_order(a, c) <= 0,
        item_order(a, b) <= 0 && item_order(b, c) < 0 ==> item_order(a, c) < 0,
        item_order(a, b) < 0 && item_order(b, c) <= 0 ==> item_order(a, c) < 0,
{
    lemma_opt_order(opt_bytes(c.updated_at), opt_bytes(b.updated_at), opt_bytes(a.updated_at));
    lemma_opt_order(opt_bytes(b.updated_at), opt_bytes(a.updated_at), opt_bytes(c.updated_at));
    lemma_opt_order(opt_bytes(c.updated_at), opt_bytes(a.updated_at), opt_bytes(b.updated_at));
    lemma_lex_order_antisymmetric(encode_utf8(a.title), encode_utf8(b.title));
    lemma_lex_order_antisymmetric(encode_utf8(b.title), encode_utf8(c.title));
    lemma_lex_order_antisymmetric(encode_utf8(a.title), encode_utf8(c.title));
    lemma_lex_order_transitive(encode_utf8(a.title), encode_utf8(b.title), encode_utf8(c.title));
    lemma_lex_order_antisymmetric(encode_utf8(a.item_id), encode_utf8(b.item_id));
    lemma_lex_order_antisymmetric(encode_utf8(b.item_id), encode_utf8(c.item_id));
    lemma_lex_order_antisymmetric(encode_utf8(a.item_id), encode_utf8(c.item_id));
    lemma_lex_order_transitive(encode_utf8(a.item_id), encode_utf8(b.item_id), encode_utf8(c.item_id));
}

fn opt_str_bytes(o: &Option<String>) -> (r: Option<&[u8]>)
    ensures
        match r {
            Some(x) => Some(x@),
            None => None::<Seq<u8>>,
        } == opt_bytes(opt_chars(*o)),
{
    match o {
        Some(s) => Some(s.as_str().as_bytes()),
        None => None,
    }
}

/// `-1`, `0` or `1` as `a` is shown before, with, or after `b`.
fn item_order_value(a: &DiscoveredSecretItem, b: &DiscoveredSecretItem) -> (r: i8)
    ensures
        r == item_order(a@, b@),
{
    let by_update = compare_opt_bytes(opt_str_bytes(&b.updated_at), opt_str_bytes(&a.updated_at));
    if by_update != 0 {
        return by_update;
    }
    let by_title = compare_bytes(a.title.as_str().as_bytes(), b.title.as_str().as_bytes());
    if by_title != 0 {
        return by_title;
    }
    compare_bytes(a.item_id.as_str().as_bytes(), b.item_id.as_str().as_bytes())
}

/// `-1`, `0` or `1` for an ordering.
pub open spec fn ordering_value(o: Ordering) -> int {
    match o {
        Ordering::Less => -1,
        Ordering::Equal => 0,
        Ordering::Greater => 1,
    }
}

/// The display order of two items.
pub fn compare_discovered_items(a: &DiscoveredSecretItem, b: &DiscoveredSecretItem) -> (r: Ordering)
    ensures
        ordering_value(r) == item_order(a@, b@),
{
    let v = item_order_value(a, b);
    proof {
        lemma_item_order(a@, b@, b@);
    }
    if v < 0 {
        Ordering::Less
    } else if v == 0 {
        Ordering::Equal
    } else {
        Ordering::Greater
    }
}

/// The views of a sequence of items.
pub open spec fn item_views(s: Seq<DiscoveredSecretItem>) -> Seq<ItemView> {
    Seq::new(s.len(), |i: int| s[i]@)
}

/// Whether items are in display order.
pub open spec fn in_display_order(s: Seq<ItemView>) -> bool {
    forall|i: int, j: int| 0 <= i < j < s.len() ==> item_order(s[i], s[j]) <= 0
}

/// The items of `s` that tie with `x` in display order, in their order
/// in `s`.
pub open spec fn ties(s: Seq<ItemView>, x: ItemView) -> Seq<ItemView>
    decreases s.len(),
{
    if s.len() == 0 {
        Seq::empty()
    } else {
        let prev = ties(s.drop_last(), x);
        if item_order(s.last(), x) == 0 {
            prev.push(s.last())
        } else {
            prev
        }
    }
}

proof fn lemma_ties_append(a: Seq<ItemView>, b: Seq<ItemView>, x: ItemView)
    ensures
        ties(a + b, x) == ties(a, x) + ties(b, x),
    decreases b.len(),
{
    if b.len() == 0 {
        assert(a + b =~= a);
        assert(ties(a, x) + ties(b, x) =~= ties(a, x));
    } else {
        lemma_ties_append(a, b.drop_last(), x);
        assert((a + b).drop_last() =~= a + b.drop_last());
        assert((a + b).last() == b.last());
        if item_order(b.last(), x) == 0 {
            assert(ties(a + b, x) =~= ties(a, x) + ties(b, x));
        } else {
            assert(ties(a + b, x) =~= ties(a, x) + ties(b, x));
        }
    }
}

proof fn lemma_ties_none(s: Seq<ItemView>, x: ItemView)
    requires
        forall|k: int| 0 <= k < s.len() ==> item_order(#[trigger] s[k], x) != 0,
    ensures
        ties(s, x) == Seq::<ItemView>::empty(),
    decreases s.len(),
{
    if s.len() > 0 {
        lemma_ties_none(s.drop_last(), x);
        assert(item_order(s[s.len() - 1], x) != 0);
    }
}

proof fn lemma_ties_single(e: ItemView, x: ItemView)
    ensures
        ties(seq![e], x) == if item_order(e, x) == 0 {
            seq![e]
        } else {
            Seq::<ItemView>::empty()
        },
{
    let s = seq![e];
    assert(s.drop_last() =~= Seq::<ItemView>::empty());
    assert(ties(s.drop_last(), x) =~= Seq::<ItemView>::empty());
    assert(s.last() == e);
    assert(Seq::<ItemView>::empty().push(e) =~= seq![e]);
    if item_order(e, x) == 0 {
        assert(ties(s, x) =~= seq![e]);
    } else {
        assert(ties(s, x) =~= Seq::<ItemView>::empty());
    }
}

/// Where `x` goes among sorted items: after every item it does not sort
/// before.
fn insertion_point(out: &Vec<DiscoveredSecretItem>, x: &DiscoveredSecretItem) -> (p: usize)
    ensures
        p <= out@.len(),
        forall|k: int| 0 <= k < p ==> item_order(#[trigger] out@[k]@, x@) <= 0,
        p < out@.len() ==> item_order(out@[p as int]@, x@) > 0,
{
    let mut p: usize = 0;
    while p < out.len()
        invariant
            p <= out@.len(),
            forall|k: int| 0 <= k < p ==> item_order(#[trigger] out@[k]@, x@) <= 0,
        decreases out@.len() - p,
    {
        if item_order_value(&out[p], x) > 0 {
            return p;
        }
        p = p + 1;
    }
    p
}

/// Sort items into display order.
#[verifier::rlimit(30)]
pub fn sort_discovered_items(items: &mut Vec<DiscoveredSecretItem>)
    ensures
        in_display_order(item_views(final(items)@)),
        item_views(final(items)@).to_multiset() == item_views(old(items)@).to_multiset(),
        forall|x: ItemView| #[trigger] ties(item_views(final(items)@), x) == ties(item_views(old(items)@), x),
{
    broadcast use vstd::seq_lib::group_to_multiset_ensures, vstd::multiset::group_multiset_axioms;

    let mut rest: Vec<DiscoveredSecretItem> = Vec::new();
    std::mem::swap(&mut rest, items);
    let ghost initial = rest@;
    let mut out: Vec<DiscoveredSecretItem> = Vec::new();
    while rest.len() > 0
        invariant
            in_display_order(item_views(out@)),
            item_views(out@).to_multiset().add(item_views(rest@).to_multiset())
                == item_views(initial).to_multiset(),
            forall|x: ItemView| #[trigger] ties(item_views(initial), x) == ties(item_views(out@), x) + ties(
                item_views(rest@),
                x,
            ),
        decreases rest@.len(),
    {
        let ghost before_rest = rest@;
        let ghost before_out = out@;
        let x = rest.remove(0);
        proof {
            assert(item_views(rest@) =~= item_views(before_rest).remove(0));
        }
        let p = insertion_point(&out, &x);
        proof {
            assert forall|k: int| p <= k < out@.len() implies item_order(x@, #[trigger] out@[k]@) < 0 by {
                lemma_item_order(x@, out@[p as int]@, out@[k]@);
                lemma_item_order(out@[p as int]@, x@, out@[k]@);
                assert(item_views(out@)[p as int] == out@[p as int]@);
                assert(item_views(out@)[k] == out@[k]@);
                if k > p {
                    assert(item_order(out@[p as int]@, out@[k]@) <= 0);
                }
            }
        }
        out.insert(p, x);
        proof {
            let ov = item_views(before_out);
            let nv = item_views(out@);
            assert(nv =~= ov.insert(p as int, x@));
            assert forall|i: int, j: int| 0 <= i < j < nv.len() implies item_order(nv[i], nv[j]) <= 0 by {
                if j < p {
                } else if j == p {
                    assert(nv[j] == x@);
                    assert(nv[i] == before_out[i]@);
                } else if i == p {
                    assert(nv[i] == x@);
                    assert(nv[j] == before_out[j - 1]@);
                } else if i < p {
                    assert(nv[i] == ov[i]);
                    assert(nv[j] == ov[j - 1]);
                } else {
                    assert(nv[i] == ov[i - 1]);
                    assert(nv[j] == ov[j - 1]);
                }
            }
            assert(item_views(before_rest)[0] == x@);
            let ms_out = item_views(before_out).to_multiset();
            let ms_rest = item_views(before_rest).to_multiset();
            vstd::seq_lib::to_multiset_insert(item_views(before_out), p as int, x@);
            vstd::seq_lib::to_multiset_remove(item_views(before_rest), 0);
            assert(item_views(out@).to_multiset() == ms_out.insert(x@));
            assert(item_views(rest@).to_multiset() == ms_rest.remove(x@));
            assert(ms_rest.count(x@) > 0) by {
                assert(item_views(before_rest).contains(x@));
                vstd::seq_lib::to_multiset_contains(item_views(before_rest), x@);
            }
            assert(ms_out.insert(x@).add(ms_rest.remove(x@)) =~= ms_out.add(ms_rest));
            let rv = item_views(rest@);
            assert(item_views(before_rest) =~= seq![x@] + rv);
            assert(ov =~= ov.take(p as int) + ov.skip(p as int));
            assert(nv =~= ov.take(p as int) + seq![x@] + ov.skip(p as int));
            assert forall|y: ItemView| #[trigger] ties(item_views(initial), y) == ties(nv, y) + ties(rv, y) by {
                let t = ov.take(p as int);
                let u = ov.skip(p as int);
                lemma_ties_append(seq![x@], rv, y);
                lemma_ties_single(x@, y);
                lemma_ties_append(t, u, y);
                lemma_ties_append(t, seq![x@], y);
                lemma_ties_append(t + seq![x@], u, y);
                if item_order(x@, y) == 0 {
                    assert forall|k: int| 0 <= k < u.len() implies item_order(#[trigger] u[k], y) != 0 by {
                        assert(u[k] == out@[p + k + 1]@) by {
                            assert(u[k] == ov[p + k]);
                            assert(ov[p + k] == before_out[p + k]@);
                            assert(nv[p + k + 1] == ov[p + k]);
                            assert(nv[p + k + 1] == out@[p + k + 1]@);
                        }
                        assert(item_order(x@, out@[p + k + 1]@) < 0) by {
                            assert(out@[p + k + 1] == before_out[p + k]);
                        }
                        lemma_item_order(y, x@, u[k]);
                        lemma_item_order(u[k], y, x@);
                    }
                    lemma_ties_none(u, y);
                    assert(ties(nv, y) =~= ties(ov, y) + seq![x@]);
                    assert(ties(nv, y) + ties(rv, y) =~= ties(ov, y) + (seq![x@] + ties(rv, y)));
                } else {
                    assert(ties(nv, y) =~= ties(ov, y));
                    assert(ties(seq![x@] + rv, y) =~= ties(rv, y));
                }
            }
        }
    }
    proof {
        assert(item_views(rest@) =~= Seq::<ItemView>::empty());
        assert forall|y: ItemView| #[trigger] ties(item_views(out@), y) == ties(item_views(initial), y) by {
            assert(ties(item_views(rest@), y) =~= Seq::<ItemView>::empty());
            assert(ties(item_views(out@), y) + ties(item_views(rest@), y) =~= ties(item_views(out@), y));
        }
    }
    *items = out;
}

/// The items an item list yields that pass a search, in list order.
pub open spec fn selected_views(entries: Seq<ItemEntry>, needle: Option<Seq<char>>) -> Seq<ItemView>
    decreases entries.len(),
{
    if entries.len() == 0 {
        Seq::empty()
    } else {
        let prev = selected_views(entries.drop_last(), needle);
        match item_from_entry(entries.last()) {
            Some(v) => if matches_search(v, needle) {
                prev.push(v)
            } else {
                prev
            },
            None => prev,
        }
    }
}

/// The items of an item list that pass the query's search, in display
/// order; items that tie keep their list order. Entries that yield no
/// item are skipped.
pub fn select_discovered_items(entries: &Vec<ItemEntry>, search: &Option<String>) -> (r: Vec<DiscoveredSecretItem>)
    ensures
        in_display_order(item_views(r@)),
        item_views(r@).to_multiset() == selected_views(entries@, search_needle(opt_chars(*search))).to_multiset(),
        forall|x: ItemView| #[trigger] ties(item_views(r@), x) == ties(
            selected_views(entries@, search_needle(opt_chars(*search))),
            x,
        ),
{
    let needle = normalized_search(search);
    let mut kept: Vec<DiscoveredSecretItem> = Vec::new();
    let mut i: usize = 0;
    while i < entries.len()
        invariant
            i <= entries@.len(),
            opt_chars(needle) == search_needle(opt_chars(*search)),
            item_views(kept@) == selected_views(entries@.take(i as int), opt_chars(needle)),
        decreases entries@.len() - i,
    {
        proof {
            assert(entries@.take(i + 1).drop_last() =~= entries@.take(i as int));
            assert(entries@.take(i + 1).last() == entries@[i as int]);
        }
        match discovered_item_from_value(&entries[i]) {
            Some(item) => {
                let keep = match &needle {
                    None => true,
                    Some(n) => {
                        let hay = discovery_haystack(&item);
                        contains_str(hay.as_str(), n.as_str())
                    },
                };
                if keep {
                    let ghost before = kept@;
                    kept.push(item);
                    assert(item_views(kept@) =~= item_views(before).push(item@));
                }
            },
            None => {},
        }
        i = i + 1;
    }
    assert(entries@.take(i as int) =~= entries@);
    sort_discovered_items(&mut kept);
    kept
}

/// How an optional string is shown by `Debug`.
pub open spec fn debug_option(o: Option<Seq<char>>) -> Seq<char> {
    match o {
        Some(s) => "Some("@ + debug_quoted(s) + ")"@,
        None => "None"@,
    }
}

/// The debug text of an item: provider, category, update time and how
/// many URLs and references it has; title and vault are redacted.
pub open spec fn item_debug_text(v: ItemView) -> Seq<char> {
    "DiscoveredSecretItem { provider: OnePassword, category: "@ + debug_option(v.category)
        + ", updated_at: "@ + debug_option(v.updated_at)
        + ", title: \"<redacted>\", vault: \"<redacted>\", urls: "@ + decimal(v.urls.len())
        + ", references: "@ + decimal(v.references.len()) + ", .. }"@
}

fn push_debug_option(out: &mut String, o: &Option<String>)
    ensures
        final(out)@ == old(out)@ + debug_option(opt_chars(*o)),
{
    match o {
        Some(s) => {
            out.append("Some(");
            push_debug_quoted(out, s.as_str());
            out.append(")");
            assert(out@ =~= old(out)@ + debug_option(opt_chars(*o)));
        },
        None => {
            out.append("None");
        },
    }
}

impl DiscoveredSecretItem {
    /// An item listed by 1Password, with its generated references.
    pub fn new(
        item_id: String,
        title: String,
        vault_id: String,
        vault_name: Option<String>,
        category: Option<String>,
        created_at: Option<String>,
        updated_at: Option<String>,
        urls: Vec<DiscoveredSecretUrl>,
    ) -> (r: DiscoveredSecretItem)
        ensures
            r@ == (ItemView {
                item_id: item_id@,
                title: title@,
                vault_id: vault_id@,
                vault_name: opt_chars(vault_name),
                category: opt_chars(category),
                created_at: opt_chars(created_at),
                updated_at: opt_chars(updated_at),
                urls: url_views(urls@),
                references: generated_references(vault_id@, item_id@),
            }),
    {
        let mut item = DiscoveredSecretItem {
            provider: SecretProviderId::OnePassword,
            item_id,
            title,
            vault_id,
            vault_name,
            category,
            created_at,
            updated_at,
            urls,
            references: Vec::new(),
        };
        item.references = discovered_references_for(&item);
        item
    }

    /// The text `Debug` shows for the item: names and URLs stay hidden.
    pub fn redacted_debug(&self) -> (r: String)
        ensures
            r@ == item_debug_text(self@),
    {
        let mut out = owned("DiscoveredSecretItem { provider: OnePassword, category: ");
        push_debug_option(&mut out, &self.category);
        out.append(", updated_at: ");
        push_debug_option(&mut out, &self.updated_at);
        out.append(", title: \"<redacted>\", vault: \"<redacted>\", urls: ");
        let urls = usize_to_decimal(self.urls.len());
        out.append(urls.as_str());
        out.append(", references: ");
        let references = usize_to_decimal(self.references.len());
        out.append(references.as_str());
        out.append(", .. }");
        proof {
            assert(self@.urls.len() == self.urls@.len());
            assert(self@.references.len() == self.references@.len());
        }
        out
    }
}

/// The debug text of a URL: its label and whether it is primary; the
/// address is redacted.
pub open spec fn url_debug_text(v: UrlView) -> Seq<char> {
    "DiscoveredSecretUrl { label: "@ + debug_option(v.label) + ", primary: "@ + bool_text(v.primary)
        + ", href: \"<redacted>\" }"@
}

/// The debug text of a generated reference: its field; the reference
/// itself stays opaque.
pub open spec fn reference_debug_text(v: ReferenceView) -> Seq<char> {
    "DiscoveredSecretReference { field: "@ + debug_quoted(v.field) + ", reference: \"<opaque>\" }"@
}

impl DiscoveredSecretUrl {
    /// The text `Debug` shows for the URL: the address stays hidden.
    pub fn redacted_debug(&self) -> (r: String)
        ensures
            r@ == url_debug_text(self@),
    {
        let mut out = owned("DiscoveredSecretUrl { label: ");
        push_debug_option(&mut out, &self.label);
        out.append(", primary: ");
        if self.primary {
            out.append("true");
        } else {
            out.append("false");
        }
        out.append(", href: \"<redacted>\" }");
        out
    }
}

impl DiscoveredSecretReference {
    /// The text `Debug` shows for the reference: the reference stays opaque.
    pub fn redacted_debug(&self) -> (r: String)
        ensures
            r@ == reference_debug_text(self@),
    {
        let mut out = owned("DiscoveredSecretReference { field: ");
        push_debug_quoted(&mut out, self.field.as_str());
        out.append(", reference: \"<opaque>\" }");
        out
    }
}

/// The debug text of an item depends on its category, update time and
/// counts alone: titles, vaults, ids and URLs never show.
pub proof fn lemma_debug_text_hides_names(a: ItemView, b: ItemView)
    requires
        a.category == b.category,
        a.updated_at == b.updated_at,
        a.urls.len() == b.urls.len(),
        a.references.len() == b.references.len(),
    ensures
        item_debug_text(a) == item_debug_text(b),
{
}

} // verus!
