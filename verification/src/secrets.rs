//! Opaque secret references (`secret://1password/<vault>/<item>/<field>`,
//! with a trailing `?` for one-time passwords), the 1Password CLI
//! selection options, and the argument lists handed to the `op` CLI.
//! Resolving a reference runs `op`; that runs outside the library, which
//! only decides what to run and how to read its answer.

use vstd::prelude::*;
use vstd::utf8::encode_utf8;
use vstd::string::{StringExecFns, StringSliceAdditionalSpecFns};
use crate::chars::{
    chars_equal, opt_chars, opt_str_chars, owned, trim, trim_end_char, trim_end_matches_char,
    trim_str, ascii_lower_seq, to_ascii_lowercase,
};
use crate::model::SiteConfig;
use crate::percent::{
    DecodeError, decode_component_bytes, decode_component_spec, encode_bytes, is_unreserved,
    lemma_decode_component_inverts_encode, lemma_encoded_bytes, pct_encode,
};
use crate::text::{
    all_ascii, copy_range, lemma_split_on_append, lemma_split_on_no_delimiter, split_on,
    split_pieces, starts_with, string_from_bytes, views,
};

verus! {

/// The account from a configuration value: trimmed, and absent when blank.
pub open spec fn cleaned_account(account: Option<Seq<char>>) -> Option<Seq<char>> {
    match account {
        Some(a) => if trim(a).len() == 0 {
            None
        } else {
            Some(trim(a))
        },
        None => None,
    }
}

/// Trim an account name; a blank one counts as absent.
pub fn clean_account(account: Option<String>) -> (r: Option<String>)
    ensures
        opt_chars(r) == cleaned_account(opt_chars(account)),
{
    match account {
        None => None,
        Some(a) => {
            let t = trim_str(a.as_str());
            if t.as_str().is_empty() {
                None
            } else {
                Some(t)
            }
        },
    }
}

/// A configured account is never blank and never carries surrounding
/// whitespace.
pub proof fn lemma_cleaned_account_is_trimmed(account: Option<Seq<char>>)
    ensures
        cleaned_account(account) matches Some(a) ==> a.len() > 0 && trim(a) == a,
{
    if let Some(a) = account {
        crate::chars::lemma_trim_idempotent(a);
    }
}

/// 1Password CLI selection options.
#[derive(Debug, Clone, PartialEq, Eq)]
pub struct OpConfig {
    account: Option<String>,
}

impl OpConfig {
    /// The account this configuration selects.
    pub closed spec fn account_spec(&self) -> Option<Seq<char>> {
        opt_chars(self.account)
    }

    /// Options selecting `account`, cleaned as [`clean_account`] does.
    pub fn new(account: Option<String>) -> (c: OpConfig)
        ensures
            c.account_spec() == cleaned_account(opt_chars(account)),
    {
        OpConfig { account: clean_account(account) }
    }

    /// Options selecting the account that `site.toml` names.
    pub fn from_site_config(config: &SiteConfig) -> (c: OpConfig)
        ensures
            c.account_spec() == cleaned_account(opt_chars(config.onepassword_account)),
    {
        OpConfig::new(config.onepassword_account.clone())
    }

    /// The selected account, if any.
    pub fn account(&self) -> (r: Option<&str>)
        ensures
            opt_str_chars(r) == self.account_spec(),
    {
        match &self.account {
            Some(a) => Some(a.as_str()),
            None => None,
        }
    }
}

impl Default for OpConfig {
    fn default() -> (c: OpConfig)
        ensures
            c.account_spec() is None,
    {
        OpConfig { account: None }
    }
}

/// The 1Password options of a site, from its parsed `site.toml`; a site
/// without that file selects no account.
pub fn load_op_config(config: Option<SiteConfig>) -> (c: OpConfig)
    ensures
        c.account_spec() == match config {
            Some(sc) => cleaned_account(opt_chars(sc.onepassword_account)),
            None => None,
        },
{
    match config {
        Some(sc) => OpConfig::from_site_config(&sc),
        None => OpConfig::default(),
    }
}

/// The secret providers the library knows.
#[derive(Debug, Clone, Copy, PartialEq, Eq, Structural)]
pub enum SecretProviderId {
    OnePassword,
}

/// What a provider can be asked: which items to list.
#[derive(Debug, Clone, PartialEq, Eq)]
pub struct SecretDiscoveryQuery {
    pub search: Option<String>,
    pub vault: Option<String>,
    pub categories: Vec<String>,
}

impl Default for SecretDiscoveryQuery {
    fn default() -> (q: SecretDiscoveryQuery)
        ensures
            q.search is None,
            q.vault is None,
            q.categories@.len() == 0,
    {
        SecretDiscoveryQuery { search: None, vault: None, categories: Vec::new() }
    }
}

/// A secret provider: something that can tell which provider it is.
/// Listing and resolving items run the provider's CLI and stay outside
/// the library.
pub trait SecretProvider {
    fn id(&self) -> SecretProviderId;
}

/// The 1Password provider, with its CLI selection options.
#[derive(Debug, Clone)]
pub struct OnePasswordProvider {
    config: OpConfig,
}

impl OnePasswordProvider {
    pub closed spec fn config_spec(&self) -> OpConfig {
        self.config
    }

    pub fn new(config: OpConfig) -> (p: OnePasswordProvider)
        ensures
            p.config_spec() == config,
    {
        OnePasswordProvider { config }
    }

    /// The CLI selection options this provider runs `op` with.
    pub fn config(&self) -> (c: &OpConfig)
        ensures
            *c == self.config_spec(),
    {
        &self.config
    }
}

impl SecretProvider for OnePasswordProvider {
    fn id(&self) -> (r: SecretProviderId)
        ensures
            r == SecretProviderId::OnePassword,
    {
        SecretProviderId::OnePassword
    }
}

/// Why a reference was refused.
#[derive(Debug, Clone, Copy, PartialEq, Eq, Structural)]
pub enum SecretRefError {
    /// It does not start with `secret://1password/`.
    UnsupportedProvider,
    /// It does not have exactly three non-empty `/`-separated components.
    MissingComponents,
    /// The vault component does not decode.
    Vault(DecodeError),
    /// The item component does not decode.
    Item(DecodeError),
    /// The field component does not decode.
    Field(DecodeError),
}

/// What a reference names.
pub struct ReferenceParts {
    pub vault_id: Seq<char>,
    pub item_id: Seq<char>,
    pub field: Seq<char>,
    pub otp: bool,
}

/// The bytes of `secret://1password/`.
pub open spec fn onepassword_prefix() -> Seq<u8> {
    seq![115u8, 101, 99, 114, 101, 116, 58, 47, 47, 49, 112, 97, 115, 115, 119, 111, 114, 100, 47]
}

/// A reference, read from its bytes.
pub open spec fn parse_reference(b: Seq<u8>) -> Result<ReferenceParts, SecretRefError> {
    let p = onepassword_prefix();
    if !(p.len() <= b.len() && b.take(p.len() as int) == p) {
        Err(SecretRefError::UnsupportedProvider)
    } else {
        let rest = b.skip(p.len() as int);
        let otp = rest.len() > 0 && rest.last() == 63;
        let body = if otp {
            rest.drop_last()
        } else {
            rest
        };
        let parts = split_on(body, 47);
        if parts.len() != 3 || parts[0].len() == 0 || parts[1].len() == 0 || parts[2].len() == 0 {
            Err(SecretRefError::MissingComponents)
        } else {
            match decode_component_spec(parts[0]) {
                Err(e) => Err(SecretRefError::Vault(e)),
                Ok(vault_id) => match decode_component_spec(parts[1]) {
                    Err(e) => Err(SecretRefError::Item(e)),
                    Ok(item_id) => match decode_component_spec(parts[2]) {
                        Err(e) => Err(SecretRefError::Field(e)),
                        Ok(field) => Ok(ReferenceParts { vault_id, item_id, field, otp }),
                    },
                },
            }
        }
    }
}

/// The reference to one field of an item.
pub open spec fn field_reference_bytes(vault: Seq<u8>, item: Seq<u8>, field: Seq<u8>) -> Seq<u8> {
    onepassword_prefix() + pct_encode(vault) + seq![47u8] + pct_encode(item) + seq![47u8]
        + pct_encode(field)
}

/// The bytes of `otp`.
pub open spec fn otp_field() -> Seq<u8> {
    seq![111u8, 116, 112]
}

/// The reference to the one-time password of an item.
pub open spec fn otp_reference_bytes(vault: Seq<u8>, item: Seq<u8>) -> Seq<u8> {
    onepassword_prefix() + pct_encode(vault) + seq![47u8] + pct_encode(item) + seq![47u8]
        + otp_field() + seq![63u8]
}

/// The field names whose values are credentials.
pub open spec fn is_credential_field(field: Seq<char>) -> bool {
    ||| field == seq!['u', 's', 'e', 'r', 'n', 'a', 'm', 'e']
    ||| field == seq!['p', 'a', 's', 's', 'w', 'o', 'r', 'd']
    ||| field == seq!['o', 'n', 'e', '-', 't', 'i', 'm', 'e', ' ', 'p', 'a', 's', 's', 'w', 'o', 'r', 'd']
}

/// Whether a reference names a credential: a one-time password or a
/// username, password or one-time-password field.
pub open spec fn names_credential(p: ReferenceParts) -> bool {
    p.otp || is_credential_field(p.field)
}

enum SecretReferenceKind {
    OnePasswordItem { vault_id: String, item_id: String, field: String, otp: bool },
}

/// An opaque reference to a secret held by a provider.
pub struct SecretReference {
    raw: String,
    kind: SecretReferenceKind,
}

impl Clone for SecretReferenceKind {
    fn clone(&self) -> (r: SecretReferenceKind)
        ensures
            r == *self,
    {
        match self {
            SecretReferenceKind::OnePasswordItem { vault_id, item_id, field, otp } => {
                SecretReferenceKind::OnePasswordItem {
                    vault_id: vault_id.clone(),
                    item_id: item_id.clone(),
                    field: field.clone(),
                    otp: *otp,
                }
            },
        }
    }
}

impl Clone for SecretReference {
    fn clone(&self) -> (r: SecretReference)
        ensures
            r == *self,
    {
        SecretReference { raw: self.raw.clone(), kind: self.kind.clone() }
    }
}

fn onepassword_prefix_bytes() -> (v: Vec<u8>)
    ensures
        v@ == onepassword_prefix(),
{
    let v: Vec<u8> = vec![115u8, 101, 99, 114, 101, 116, 58, 47, 47, 49, 112, 97, 115, 115, 119, 111, 114, 100, 47];
    assert(v@ =~= onepassword_prefix());
    v
}

/// Append `src` to `out`.
fn extend(out: &mut Vec<u8>, src: &[u8])
    ensures
        final(out)@ == old(out)@ + src@,
{
    let mut i: usize = 0;
    while i < src.len()
        invariant
            i <= src@.len(),
            out@ == old(out)@ + src@.take(i as int),
        decreases src@.len() - i,
    {
        out.push(src[i]);
        i = i + 1;
        assert(out@ =~= old(out)@ + src@.take(i as int));
    }
    assert(src@.take(i as int) =~= src@);
}

proof fn lemma_encoded_ascii(s: Seq<u8>)
    ensures
        all_ascii(pct_encode(s)),
        forall|i: int| 0 <= i < pct_encode(s).len() ==> #[trigger] pct_encode(s)[i] != 47
            && pct_encode(s)[i] != 63,
{
    lemma_encoded_bytes(s);
    assert forall|i: int| 0 <= i < pct_encode(s).len() implies #[trigger] pct_encode(s)[i] < 128 by {
        let c = pct_encode(s)[i];
        assert(is_unreserved(c) || c == 37);
    }
    assert forall|i: int| 0 <= i < pct_encode(s).len() implies #[trigger] pct_encode(s)[i] != 47
        && pct_encode(s)[i] != 63 by {
        let c = pct_encode(s)[i];
        assert(is_unreserved(c) || c == 37);
    }
}

proof fn lemma_concat_ascii(a: Seq<u8>, b: Seq<u8>)
    requires
        all_ascii(a),
        all_ascii(b),
    ensures
        all_ascii(a + b),
{
    assert forall|i: int| 0 <= i < (a + b).len() implies #[trigger] (a + b)[i] < 128 by {
        if i < a.len() {
            assert((a + b)[i] == a[i]);
        } else {
            assert((a + b)[i] == b[i - a.len()]);
        }
    }
}

fn field_chars(lit: &Vec<char>, field: &String) -> (r: bool)
    ensures
        r == (field@ == lit@),
{
    chars_equal(field.as_str(), lit)
}

impl SecretReference {
    /// The bytes of the reference text.
    pub closed spec fn raw_bytes(&self) -> Seq<u8> {
        encode_utf8(self.raw@)
    }

    /// What the reference names.
    pub closed spec fn parts(&self) -> ReferenceParts {
        match self.kind {
            SecretReferenceKind::OnePasswordItem { vault_id, item_id, field, otp } => ReferenceParts {
                vault_id: vault_id@,
                item_id: item_id@,
                field: field@,
                otp,
            },
        }
    }

    /// The text of the reference.
    pub closed spec fn raw_chars(&self) -> Seq<char> {
        self.raw@
    }

    pub proof fn lemma_raw(&self)
        ensures
            self.raw_bytes() == encode_utf8(self.raw_chars()),
    {
    }

    /// Read a reference; refused unless it is a well-formed 1Password one.
    pub fn parse(raw: &str) -> (r: Result<SecretReference, SecretRefError>)
        ensures
            match r {
                Ok(sr) => parse_reference(raw.spec_bytes()) == Ok::<ReferenceParts, SecretRefError>(sr.parts())
                    && sr.raw_chars() == raw@,
                Err(e) => parse_reference(raw.spec_bytes()) == Err::<ReferenceParts, SecretRefError>(e),
            },
    {
        let b = raw.as_bytes();
        let prefix = onepassword_prefix_bytes();
        if !starts_with(b, prefix.as_slice()) {
            return Err(SecretRefError::UnsupportedProvider);
        }
        let rest = copy_range(b, prefix.len(), b.len());
        assert(rest@ =~= b@.skip(19));
        let otp = rest.len() > 0 && rest[rest.len() - 1] == 63;
        let body = if otp {
            copy_range(rest.as_slice(), 0, rest.len() - 1)
        } else {
            rest
        };
        proof {
            if otp {
                assert(body@ =~= b@.skip(19).drop_last());
            }
        }
        let parts = split_pieces(body.as_slice(), 47);
        proof {
            assert(views(parts@) =~= split_on(body@, 47));
        }
        if parts.len() != 3 || parts[0].len() == 0 || parts[1].len() == 0 || parts[2].len() == 0 {
            proof {
                if parts@.len() == 3 {
                    assert(views(parts@)[0] == parts@[0]@);
                    assert(views(parts@)[1] == parts@[1]@);
                    assert(views(parts@)[2] == parts@[2]@);
                }
            }
            return Err(SecretRefError::MissingComponents);
        }
        proof {
            assert(views(parts@)[0] == parts@[0]@);
            assert(views(parts@)[1] == parts@[1]@);
            assert(views(parts@)[2] == parts@[2]@);
        }
        let vault_id = match decode_component_bytes(parts[0].as_slice()) {
            Ok(v) => v,
            Err(e) => {
                return Err(SecretRefError::Vault(e));
            },
        };
        let item_id = match decode_component_bytes(parts[1].as_slice()) {
            Ok(v) => v,
            Err(e) => {
                return Err(SecretRefError::Item(e));
            },
        };
        let field = match decode_component_bytes(parts[2].as_slice()) {
            Ok(v) => v,
            Err(e) => {
                return Err(SecretRefError::Field(e));
            },
        };
        Ok(SecretReference {
            raw: owned(raw),
            kind: SecretReferenceKind::OnePasswordItem { vault_id, item_id, field, otp },
        })
    }

    /// The reference to one field of an item.
    pub fn onepassword_item_field(vault_id: &str, item_id: &str, field: &str) -> (r: SecretReference)
        ensures
            r.raw_bytes() == field_reference_bytes(vault_id.spec_bytes(), item_id.spec_bytes(), field.spec_bytes()),
            r.parts() == (ReferenceParts { vault_id: vault_id@, item_id: item_id@, field: field@, otp: false }),
    {
        let mut bytes = onepassword_prefix_bytes();
        let v = encode_bytes(vault_id.as_bytes());
        let i = encode_bytes(item_id.as_bytes());
        let f = encode_bytes(field.as_bytes());
        extend(&mut bytes, v.as_slice());
        bytes.push(47);
        extend(&mut bytes, i.as_slice());
        bytes.push(47);
        extend(&mut bytes, f.as_slice());
        proof {
            lemma_encoded_ascii(vault_id.spec_bytes());
            lemma_encoded_ascii(item_id.spec_bytes());
            lemma_encoded_ascii(field.spec_bytes());
            let p = onepassword_prefix();
            let slash = seq![47u8];
            assert(all_ascii(p));
            assert(all_ascii(slash));
            lemma_concat_ascii(p, v@);
            lemma_concat_ascii(p + v@, slash);
            lemma_concat_ascii(p + v@ + slash, i@);
            lemma_concat_ascii(p + v@ + slash + i@, slash);
            lemma_concat_ascii(p + v@ + slash + i@ + slash, f@);
            assert(bytes@ =~= p + v@ + slash + i@ + slash + f@);
        }
        let raw = string_from_bytes(&bytes);
        SecretReference {
            raw,
            kind: SecretReferenceKind::OnePasswordItem {
                vault_id: owned(vault_id),
                item_id: owned(item_id),
                field: owned(field),
                otp: false,
            },
        }
    }

    /// The reference to the one-time password of an item.
    pub fn onepassword_item_otp(vault_id: &str, item_id: &str) -> (r: SecretReference)
        ensures
            r.raw_bytes() == otp_reference_bytes(vault_id.spec_bytes(), item_id.spec_bytes()),
            r.parts() == (ReferenceParts {
                vault_id: vault_id@,
                item_id: item_id@,
                field: seq!['o', 't', 'p'],
                otp: true,
            }),
    {
        let mut bytes = onepassword_prefix_bytes();
        let v = encode_bytes(vault_id.as_bytes());
        let i = encode_bytes(item_id.as_bytes());
        extend(&mut bytes, v.as_slice());
        bytes.push(47);
        extend(&mut bytes, i.as_slice());
        bytes.push(47);
        bytes.push(111);
        bytes.push(116);
        bytes.push(112);
        bytes.push(63);
        let otp_name: Vec<u8> = vec![111u8, 116, 112];
        proof {
            lemma_encoded_ascii(vault_id.spec_bytes());
            lemma_encoded_ascii(item_id.spec_bytes());
            let p = onepassword_prefix();
            let slash = seq![47u8];
            let tail = seq![47u8, 111, 116, 112, 63];
            assert(all_ascii(p));
            assert(all_ascii(slash));
            assert(all_ascii(tail));
            lemma_concat_ascii(p, v@);
            lemma_concat_ascii(p + v@, slash);
            lemma_concat_ascii(p + v@ + slash, i@);
            lemma_concat_ascii(p + v@ + slash + i@, tail);
            assert(bytes@ =~= p + v@ + slash + i@ + tail);
            assert(p + v@ + slash + i@ + tail =~= otp_reference_bytes(vault_id.spec_bytes(), item_id.spec_bytes()));
            assert(all_ascii(otp_name@));
        }
        let raw = string_from_bytes(&bytes);
        let field = string_from_bytes(&otp_name);
        proof {
            assert(field@[0] == 'o');
            assert(field@[1] == 't');
            assert(field@[2] == 'p');
            assert(field@ =~= seq!['o', 't', 'p']);
        }
        SecretReference {
            raw,
            kind: SecretReferenceKind::OnePasswordItem {
                vault_id: owned(vault_id),
                item_id: owned(item_id),
                field,
                otp: true,
            },
        }
    }

    /// The reference text.
    pub fn as_str(&self) -> (r: &str)
        ensures
            r@ == self.raw_chars(),
    {
        self.raw.as_str()
    }

    pub fn provider(&self) -> (r: SecretProviderId)
        ensures
            r == SecretProviderId::OnePassword,
    {
        SecretProviderId::OnePassword
    }

    /// Whether the reference names a one-time password.
    pub fn is_otp(&self) -> (r: bool)
        ensures
            r == self.parts().otp,
    {
        match &self.kind {
            SecretReferenceKind::OnePasswordItem { otp, .. } => *otp,
        }
    }

    /// The text `Debug` shows for a reference: its provider and whether it
    /// names a one-time password; the vault, item and field stay hidden.
    pub fn redacted_debug(&self) -> (r: String)
        ensures
            r@ == "SecretReference { provider: OnePassword, otp: "@ + (if self.parts().otp {
                "true"@
            } else {
                "false"@
            }) + ", .. }"@,
    {
        let mut out = owned("SecretReference { provider: OnePassword, otp: ");
        if self.is_otp() {
            out.append("true");
        } else {
            out.append("false");
        }
        out.append(", .. }");
        out
    }

    /// Whether the reference names a credential (a username, password or
    /// one-time password).
    pub fn is_credential(&self) -> (r: bool)
        ensures
            r == names_credential(self.parts()),
    {
        match &self.kind {
            SecretReferenceKind::OnePasswordItem { field, otp, .. } => {
                if *otp {
                    return true;
                }
                let username: Vec<char> = vec!['u', 's', 'e', 'r', 'n', 'a', 'm', 'e'];
                let password: Vec<char> = vec!['p', 'a', 's', 's', 'w', 'o', 'r', 'd'];
                let one_time: Vec<char> = vec!['o', 'n', 'e', '-', 't', 'i', 'm', 'e', ' ', 'p', 'a', 's', 's', 'w', 'o', 'r', 'd'];
                assert(username@ =~= seq!['u', 's', 'e', 'r', 'n', 'a', 'm', 'e']);
                assert(password@ =~= seq!['p', 'a', 's', 's', 'w', 'o', 'r', 'd']);
                assert(one_time@ =~= seq!['o', 'n', 'e', '-', 't', 'i', 'm', 'e', ' ', 'p', 'a', 's', 's', 'w', 'o', 'r', 'd']);
                field_chars(&username, field) || field_chars(&password, field) || field_chars(&one_time, field)
            },
        }
    }

    /// The vault holding the item.
    pub fn vault_id(&self) -> (r: &str)
        ensures
            r@ == self.parts().vault_id,
    {
        match &self.kind {
            SecretReferenceKind::OnePasswordItem { vault_id, .. } => vault_id.as_str(),
        }
    }

    /// The item holding the secret.
    pub fn item_id(&self) -> (r: &str)
        ensures
            r@ == self.parts().item_id,
    {
        match &self.kind {
            SecretReferenceKind::OnePasswordItem { item_id, .. } => item_id.as_str(),
        }
    }

    /// The field of the item.
    pub fn field(&self) -> (r: &str)
        ensures
            r@ == self.parts().field,
    {
        match &self.kind {
            SecretReferenceKind::OnePasswordItem { field, .. } => field.as_str(),
        }
    }
}

impl PartialEq for SecretReference {
    fn eq(&self, other: &Self) -> (r: bool) {
        self.raw == other.raw && match (&self.kind, &other.kind) {
            (
                SecretReferenceKind::OnePasswordItem { vault_id: v1, item_id: i1, field: f1, otp: o1 },
                SecretReferenceKind::OnePasswordItem { vault_id: v2, item_id: i2, field: f2, otp: o2 },
            ) => *v1 == *v2 && *i1 == *i2 && *f1 == *f2 && *o1 == *o2,
        }
    }
}

impl vstd::std_specs::cmp::PartialEqSpecImpl for SecretReference {
    open spec fn obeys_eq_spec() -> bool {
        true
    }

    open spec fn eq_spec(&self, other: &Self) -> bool {
        self.raw_chars() == other.raw_chars() && self.parts() == other.parts()
    }
}

/// Check that `raw` is a reference the library can resolve.
pub fn validate_reference(raw: &str) -> (r: Result<(), SecretRefError>)
    ensures
        r is Ok <==> parse_reference(raw.spec_bytes()) is Ok,
        r matches Err(e) ==> parse_reference(raw.spec_bytes()) == Err::<ReferenceParts, SecretRefError>(e),
{
    match SecretReference::parse(raw) {
        Ok(_) => Ok(()),
        Err(e) => Err(e),
    }
}

/// Whether `raw` is a well-formed secret reference.
pub fn is_secret_reference(raw: &str) -> (r: bool)
    ensures
        r == parse_reference(raw.spec_bytes()) is Ok,
{
    SecretReference::parse(raw).is_ok()
}

/// Whether `raw` is a well-formed reference to a one-time password.
pub fn is_totp_reference(raw: &str) -> (r: bool)
    ensures
        r == (parse_reference(raw.spec_bytes()) matches Ok(p) && p.otp),
{
    match SecretReference::parse(raw) {
        Ok(reference) => reference.is_otp(),
        Err(_) => false,
    }
}

/// Whether `raw` is a well-formed reference to a credential.
pub fn is_credential_reference(raw: &str) -> (r: bool)
    ensures
        r == (parse_reference(raw.spec_bytes()) matches Ok(p) && names_credential(p)),
{
    match SecretReference::parse(raw) {
        Ok(reference) => reference.is_credential(),
        Err(_) => false,
    }
}

proof fn lemma_encode_utf8_nonempty(c: Seq<char>)
    requires
        c.len() > 0,
    ensures
        encode_utf8(c).len() > 0,
{
}

/// What the parser sees after the prefix of `prefix + rest`.
proof fn lemma_after_prefix(rest: Seq<u8>)
    ensures
        (onepassword_prefix() + rest).take(19) == onepassword_prefix(),
        (onepassword_prefix() + rest).skip(19) == rest,
{
    assert((onepassword_prefix() + rest).take(19) =~= onepassword_prefix());
    assert((onepassword_prefix() + rest).skip(19) =~= rest);
}

/// Splitting `a/b/c` on `/`, where none of the three holds a `/`.
proof fn lemma_three_pieces(a: Seq<u8>, b: Seq<u8>, c: Seq<u8>)
    requires
        forall|i: int| 0 <= i < a.len() ==> a[i] != 47,
        forall|i: int| 0 <= i < b.len() ==> b[i] != 47,
        forall|i: int| 0 <= i < c.len() ==> c[i] != 47,
    ensures
        split_on(a + seq![47u8] + b + seq![47u8] + c, 47) == seq![a, b, c],
{
    lemma_split_on_no_delimiter(a, 47);
    lemma_split_on_append(a, b, 47);
    lemma_split_on_append(a + seq![47u8] + b, c, 47);
    assert(seq![a].push(b).push(c) =~= seq![a, b, c]);
}

/// A field reference built from three non-empty texts reads back as those
/// texts, and names no one-time password.
pub proof fn lemma_parse_undoes_field_reference(vault_id: Seq<char>, item_id: Seq<char>, field: Seq<char>)
    requires
        vault_id.len() > 0,
        item_id.len() > 0,
        field.len() > 0,
    ensures
        parse_reference(field_reference_bytes(encode_utf8(vault_id), encode_utf8(item_id), encode_utf8(field)))
            == Ok::<ReferenceParts, SecretRefError>(ReferenceParts { vault_id, item_id, field, otp: false }),
{
    let ev = pct_encode(encode_utf8(vault_id));
    let ei = pct_encode(encode_utf8(item_id));
    let ef = pct_encode(encode_utf8(field));
    lemma_encode_utf8_nonempty(vault_id);
    lemma_encode_utf8_nonempty(item_id);
    lemma_encode_utf8_nonempty(field);
    lemma_encoded_bytes(encode_utf8(vault_id));
    lemma_encoded_bytes(encode_utf8(item_id));
    lemma_encoded_bytes(encode_utf8(field));
    lemma_encoded_ascii(encode_utf8(vault_id));
    lemma_encoded_ascii(encode_utf8(item_id));
    lemma_encoded_ascii(encode_utf8(field));
    let rest = ev + seq![47u8] + ei + seq![47u8] + ef;
    let b = field_reference_bytes(encode_utf8(vault_id), encode_utf8(item_id), encode_utf8(field));
    assert(b =~= onepassword_prefix() + rest);
    lemma_after_prefix(rest);
    assert(rest.last() == ef.last());
    assert(ef.last() != 63);
    lemma_three_pieces(ev, ei, ef);
    lemma_decode_component_inverts_encode(vault_id);
    lemma_decode_component_inverts_encode(item_id);
    lemma_decode_component_inverts_encode(field);
}

/// A one-time-password reference built from two non-empty texts reads back
/// as those texts, field `otp`, one-time password.
pub proof fn lemma_parse_undoes_otp_reference(vault_id: Seq<char>, item_id: Seq<char>)
    requires
        vault_id.len() > 0,
        item_id.len() > 0,
    ensures
        parse_reference(otp_reference_bytes(encode_utf8(vault_id), encode_utf8(item_id)))
            == Ok::<ReferenceParts, SecretRefError>(ReferenceParts {
                vault_id,
                item_id,
                field: seq!['o', 't', 'p'],
                otp: true,
            }),
{
    let ev = pct_encode(encode_utf8(vault_id));
    let ei = pct_encode(encode_utf8(item_id));
    let otp_chars = seq!['o', 't', 'p'];
    lemma_encode_utf8_nonempty(vault_id);
    lemma_encode_utf8_nonempty(item_id);
    lemma_encoded_bytes(encode_utf8(vault_id));
    lemma_encoded_bytes(encode_utf8(item_id));
    lemma_encoded_ascii(encode_utf8(vault_id));
    lemma_encoded_ascii(encode_utf8(item_id));
    let body = ev + seq![47u8] + ei + seq![47u8] + otp_field();
    let rest = body + seq![63u8];
    let b = otp_reference_bytes(encode_utf8(vault_id), encode_utf8(item_id));
    assert(b =~= onepassword_prefix() + rest);
    lemma_after_prefix(rest);
    assert(rest.drop_last() =~= body);
    lemma_three_pieces(ev, ei, otp_field());
    lemma_decode_component_inverts_encode(vault_id);
    lemma_decode_component_inverts_encode(item_id);
    lemma_decode_component_inverts_encode(otp_chars);
    assert(encode_utf8(otp_chars) =~= otp_field()) by {
        assert(vstd::utf8::is_ascii_chars(otp_chars));
        vstd::utf8::is_ascii_chars_encode_utf8(otp_chars);
        assert(encode_utf8(otp_chars)[0] == otp_chars[0] as u8);
        assert(encode_utf8(otp_chars)[1] == otp_chars[1] as u8);
        assert(encode_utf8(otp_chars)[2] == otp_chars[2] as u8);
    }
    assert(pct_encode(otp_field()) =~= otp_field()) by {
        reveal_with_fuel(pct_encode, 4);
        assert(otp_field().drop_last().drop_last().drop_last() =~= Seq::<u8>::empty());
    }
}

/// Every reference to a one-time password is a reference to a credential.
pub proof fn lemma_totp_reference_is_credential(raw: Seq<u8>)
    ensures
        (parse_reference(raw) matches Ok(p) && p.otp) ==> (parse_reference(raw) matches Ok(p) && names_credential(p)),
{
}

/// The characters of each string.
pub open spec fn strings_view(v: Seq<String>) -> Seq<Seq<char>> {
    Seq::new(v.len(), |i: int| v[i]@)
}

/// `op item get` arguments that read one field of an item, concealed
/// values revealed.
pub fn item_field_get_args(item_id: &str, vault_id: &str, field: &str) -> (r: Vec<String>)
    ensures
        strings_view(r@) == seq![
            "item"@,
            "get"@,
            item_id@,
            "--vault"@,
            vault_id@,
            "--fields"@,
            "label="@ + field@,
            "--reveal"@,
        ],
{
    let mut label = owned("label=");
    label.append(field);
    let r = vec![
        owned("item"),
        owned("get"),
        owned(item_id),
        owned("--vault"),
        owned(vault_id),
        owned("--fields"),
        label,
        owned("--reveal"),
    ];
    assert(strings_view(r@) =~= seq![
        "item"@,
        "get"@,
        item_id@,
        "--vault"@,
        vault_id@,
        "--fields"@,
        "label="@ + field@,
        "--reveal"@,
    ]);
    r
}

/// `op item get` arguments that read the current one-time password of an
/// item.
pub fn otp_get_args(item_id: &str, vault_id: &str) -> (r: Vec<String>)
    ensures
        strings_view(r@) == seq!["item"@, "get"@, item_id@, "--vault"@, vault_id@, "--otp"@],
{
    let r = vec![
        owned("item"),
        owned("get"),
        owned(item_id),
        owned("--vault"),
        owned(vault_id),
        owned("--otp"),
    ];
    assert(strings_view(r@) =~= seq!["item"@, "get"@, item_id@, "--vault"@, vault_id@, "--otp"@]);
    r
}

/// The `op` arguments (after the account selection) that resolve a
/// reference: the one-time password for an OTP reference, the field
/// otherwise.
pub fn resolve_command_args(reference: &SecretReference) -> (r: Vec<String>)
    ensures
        strings_view(r@) == if reference.parts().otp {
            seq!["item"@, "get"@, reference.parts().item_id, "--vault"@, reference.parts().vault_id, "--otp"@]
        } else {
            seq![
                "item"@,
                "get"@,
                reference.parts().item_id,
                "--vault"@,
                reference.parts().vault_id,
                "--fields"@,
                "label="@ + reference.parts().field,
                "--reveal"@,
            ]
        },
{
    if reference.is_otp() {
        otp_get_args(reference.item_id(), reference.vault_id())
    } else {
        item_field_get_args(reference.item_id(), reference.vault_id(), reference.field())
    }
}

/// The account `op` runs with: the configured one, else the account from
/// the environment, cleaned the same way.
pub open spec fn selected_account_spec(config: Option<Seq<char>>, env_account: Option<Seq<char>>) -> Option<Seq<char>> {
    match config {
        Some(a) => Some(a),
        None => cleaned_account(env_account),
    }
}

/// The account `op` runs with, given `OP_ACCOUNT` from the environment.
pub fn selected_account(config: &OpConfig, env_account: Option<String>) -> (r: Option<String>)
    ensures
        opt_chars(r) == selected_account_spec(config.account_spec(), opt_chars(env_account)),
{
    match config.account() {
        Some(a) => Some(owned(a)),
        None => clean_account(env_account),
    }
}

/// The arguments that select the account, placed before any `op` command.
pub fn op_account_args(config: &OpConfig, env_account: Option<String>) -> (r: Vec<String>)
    ensures
        strings_view(r@) == match selected_account_spec(config.account_spec(), opt_chars(env_account)) {
            Some(a) => seq!["--account"@, a],
            None => Seq::<Seq<char>>::empty(),
        },
{
    match selected_account(config, env_account) {
        Some(a) => {
            let r = vec![owned("--account"), a];
            assert(strings_view(r@) =~= seq!["--account"@, r@[1]@]);
            r
        },
        None => {
            let r: Vec<String> = Vec::new();
            assert(strings_view(r@) =~= Seq::<Seq<char>>::empty());
            r
        },
    }
}

/// What `op` printed, as the secret value: UTF-8 text without its trailing
/// newlines. `None` when the output is not UTF-8.
pub fn secret_from_output(stdout: Vec<u8>) -> (r: Option<String>)
    ensures
        r is Some <==> vstd::utf8::valid_utf8(stdout@),
        r matches Some(s) ==> s@ == trim_end_char(vstd::utf8::decode_utf8(stdout@), '\n'),
{
    match crate::chars::string_from_utf8(stdout) {
        Some(text) => Some(trim_end_matches_char(text.as_str(), '\n')),
        None => None,
    }
}

/// `parts` joined by `sep`.
pub open spec fn join_with(parts: Seq<Seq<char>>, sep: Seq<char>) -> Seq<char>
    decreases parts.len(),
{
    if parts.len() == 0 {
        Seq::empty()
    } else if parts.len() == 1 {
        parts[0]
    } else {
        join_with(parts.drop_last(), sep) + sep + parts.last()
    }
}

/// `parts` joined by `sep` (`[String]::join`).
pub fn join_strings(parts: &Vec<String>, sep: &str) -> (r: String)
    ensures
        r@ == join_with(strings_view(parts@), sep@),
{
    let mut out = String::new();
    let mut i: usize = 0;
    while i < parts.len()
        invariant
            i <= parts@.len(),
            out@ == join_with(strings_view(parts@).take(i as int), sep@),
        decreases parts@.len() - i,
    {
        proof {
            let t = strings_view(parts@).take(i + 1);
            assert(t.drop_last() =~= strings_view(parts@).take(i as int));
            assert(t.last() == parts@[i as int]@);
        }
        if i > 0 {
            out.append(sep);
        }
        out.append(parts[i].as_str());
        proof {
            let t = strings_view(parts@).take(i + 1);
            if i == 0 {
                assert(out@ =~= t[0]);
            }
        }
        i = i + 1;
    }
    assert(strings_view(parts@).take(i as int) =~= strings_view(parts@));
    out
}

/// Whether an optional filter is set to something non-empty.
pub open spec fn given(o: Option<Seq<char>>) -> bool {
    o matches Some(v) && v.len() > 0
}

/// `op item list` arguments for a discovery query: long JSON output, the
/// vault when one is given, the categories when there are any.
pub open spec fn item_list_args_spec(vault: Option<Seq<char>>, categories: Seq<Seq<char>>) -> Seq<Seq<char>> {
    let base = seq!["item"@, "list"@, "--format"@, "json"@, "--long"@];
    let with_vault = if given(vault) {
        base + seq!["--vault"@, vault->0]
    } else {
        base
    };
    if categories.len() > 0 {
        with_vault + seq!["--categories"@, join_with(categories, ","@)]
    } else {
        with_vault
    }
}

/// `op item list` arguments for a discovery query.
pub fn item_list_args(query: &SecretDiscoveryQuery) -> (r: Vec<String>)
    ensures
        strings_view(r@) == item_list_args_spec(opt_chars(query.vault), strings_view(query.categories@)),
{
    let mut r = vec![owned("item"), owned("list"), owned("--format"), owned("json"), owned("--long")];
    let ghost base = seq!["item"@, "list"@, "--format"@, "json"@, "--long"@];
    assert(strings_view(r@) =~= base);
    match &query.vault {
        Some(v) => {
            if !v.as_str().is_empty() {
                let ghost before = r@;
                r.push(owned("--vault"));
                r.push(v.clone());
                assert(strings_view(r@) =~= strings_view(before) + seq!["--vault"@, v@]);
            }
        },
        None => {},
    }
    if query.categories.len() > 0 {
        let ghost before = r@;
        r.push(owned("--categories"));
        let joined = join_strings(&query.categories, ",");
        r.push(joined);
        assert(strings_view(r@) =~= strings_view(before) + seq![
            "--categories"@,
            join_with(strings_view(query.categories@), ","@),
        ]);
    }
    r
}

/// The search a discovery query filters by: trimmed and in ASCII lower
/// case, absent when blank.
pub open spec fn search_needle(search: Option<Seq<char>>) -> Option<Seq<char>> {
    match search {
        Some(s) => if trim(s).len() == 0 {
            None
        } else {
            Some(ascii_lower_seq(trim(s)))
        },
        None => None,
    }
}

/// The search a discovery query filters by.
pub fn normalized_search(search: &Option<String>) -> (r: Option<String>)
    ensures
        opt_chars(r) == search_needle(opt_chars(*search)),
{
    match search {
        None => None,
        Some(s) => {
            let t = trim_str(s.as_str());
            if t.as_str().is_empty() {
                None
            } else {
                Some(to_ascii_lowercase(t.as_str()))
            }
        },
    }
}

} // verus!
