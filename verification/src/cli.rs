//! What the command line decides before it touches a file or the browser:
//! names and references it accepts, the command it suggests after a
//! denied unmask approval, the discovery query of `value search`, which
//! templates a new site starts from.

use vstd::prelude::*;
use vstd::string::{StringExecFns, StringSliceAdditionalSpecFns};
use crate::chars::{chars_of, is_whitespace, is_ws, opt_chars, owned, trim, trim_str, string_views};
use crate::mask::{replace_all, replace_all_str};
use crate::model::UnmaskApprovalContext;
use crate::secrets::{
    SecretDiscoveryQuery, SecretRefError, join_strings, join_with, parse_reference, strings_view,
    validate_reference,
};

verus! {

/// Characters a shell word may hold unquoted.
pub open spec fn shell_safe(c: char) -> bool {
    ||| ('a' <= c && c <= 'z')
    ||| ('A' <= c && c <= 'Z')
    ||| ('0' <= c && c <= '9')
    ||| c == '_'
    ||| c == '-'
    ||| c == '.'
    ||| c == '/'
    ||| c == ':'
    ||| c == '@'
}

/// A value as one shell word: as it is when every character is safe,
/// else in single quotes with each `'` written `'\''`.
pub open spec fn shell_quoted(v: Seq<char>) -> Seq<char> {
    if forall|i: int| 0 <= i < v.len() ==> shell_safe(#[trigger] v[i]) {
        v
    } else {
        seq!['\''] + replace_all(v, seq!['\''], seq!['\'', '\\', '\'', '\'']) + seq!['\'']
    }
}

fn first_unsafe(v: &Vec<char>) -> (i: usize)
    ensures
        i <= v@.len(),
        forall|j: int| 0 <= j < i ==> shell_safe(#[trigger] v@[j]),
        i < v@.len() ==> !shell_safe(v@[i as int]),
{
    let mut i: usize = 0;
    while i < v.len()
        invariant
            i <= v@.len(),
            forall|j: int| 0 <= j < i ==> shell_safe(#[trigger] v@[j]),
        decreases v@.len() - i,
    {
        let c = v[i];
        let safe = ('a' <= c && c <= 'z') || ('A' <= c && c <= 'Z') || ('0' <= c && c <= '9') || c == '_'
            || c == '-' || c == '.' || c == '/' || c == ':' || c == '@';
        if !safe {
            return i;
        }
        i = i + 1;
    }
    i
}

/// Quote a value for the shell.
pub fn shell_quote(value: &str) -> (r: String)
    ensures
        r@ == shell_quoted(value@),
{
    let v = chars_of(value);
    let i = first_unsafe(&v);
    if i == v.len() {
        return owned(value);
    }
    proof {
        assert(!shell_safe(v@[i as int]));
    }
    let mut out = String::new();
    crate::chars::push_char(&mut out, '\'');
    let escaped = replace_all_str(value, "'", "'\\''");
    out.append(escaped.as_str());
    crate::chars::push_char(&mut out, '\'');
    proof {
        reveal_strlit("'");
        reveal_strlit("'\\''");
        assert("'"@ =~= seq!['\'']);
        assert("'\\''"@ =~= seq!['\'', '\\', '\'', '\'']);
    }
    out
}

/// An optional text that is present and not empty.
pub open spec fn filled(o: Option<Seq<char>>) -> bool {
    o matches Some(s) && s.len() > 0
}

/// The words of the command that maps a field without unmasking it.
pub open spec fn masked_command_words(
    site: Option<Seq<char>>,
    place: Option<Seq<char>>,
    selector: Seq<char>,
    proposed_name: Option<Seq<char>>,
    auto_fill: Option<Seq<char>>,
) -> Seq<Seq<char>> {
    let site_word = match site {
        Some(s) => shell_quoted(s),
        None => shell_quoted("<site>"@),
    };
    let scope = if filled(place) {
        seq!["place"@, shell_quoted(place->0), "element"@, "add"@, shell_quoted(selector)]
    } else {
        seq!["element"@, "add"@, shell_quoted(selector)]
    };
    let name = if filled(proposed_name) {
        seq!["--as"@, shell_quoted(proposed_name->0)]
    } else {
        Seq::empty()
    };
    let fill = if filled(auto_fill) {
        seq!["--auto-fill"@, shell_quoted(auto_fill->0)]
    } else {
        Seq::empty()
    };
    seq!["stencilwright"@, site_word] + scope + name + fill
}

fn opt_str_filled(o: Option<&str>) -> (r: Option<&str>)
    ensures
        match r {
            Some(s) => o matches Some(t) && s@ == t@ && s@.len() > 0,
            None => !filled(crate::chars::opt_str_chars(o)),
        },
{
    match o {
        Some(s) => if s.is_empty() {
            None
        } else {
            Some(s)
        },
        None => None,
    }
}

/// The command that maps a field without unmasking it, printed when an
/// unmask approval is denied.
pub fn map_masked_command(
    context: &UnmaskApprovalContext,
    selector: &str,
    proposed_name: Option<&str>,
    auto_fill: Option<&str>,
) -> (r: String)
    ensures
        r@ == join_with(
            masked_command_words(
                opt_chars(context.site),
                opt_chars(context.place),
                selector@,
                crate::chars::opt_str_chars(proposed_name),
                crate::chars::opt_str_chars(auto_fill),
            ),
            " "@,
        ),
{
    let ghost place_v = opt_chars(context.place);
    let site_word = match &context.site {
        Some(s) => shell_quote(s.as_str()),
        None => shell_quote("<site>"),
    };
    let mut parts: Vec<String> = vec![owned("stencilwright"), site_word];
    let place = match &context.place {
        Some(p) => opt_str_filled(Some(p.as_str())),
        None => None,
    };
    let ghost before = strings_view(parts@);
    match place {
        Some(p) => {
            parts.push(owned("place"));
            parts.push(shell_quote(p));
            parts.push(owned("element"));
            parts.push(owned("add"));
            parts.push(shell_quote(selector));
        },
        None => {
            parts.push(owned("element"));
            parts.push(owned("add"));
            parts.push(shell_quote(selector));
        },
    }
    let ghost after_scope = strings_view(parts@);
    match opt_str_filled(proposed_name) {
        Some(n) => {
            parts.push(owned("--as"));
            parts.push(shell_quote(n));
        },
        None => {},
    }
    let ghost after_name = strings_view(parts@);
    match opt_str_filled(auto_fill) {
        Some(a) => {
            parts.push(owned("--auto-fill"));
            parts.push(shell_quote(a));
        },
        None => {},
    }
    proof {
        let words = masked_command_words(
            opt_chars(context.site),
            opt_chars(context.place),
            selector@,
            crate::chars::opt_str_chars(proposed_name),
            crate::chars::opt_str_chars(auto_fill),
        );
        assert(strings_view(parts@) =~= words);
    }
    join_strings(&parts, " ")
}

/// Why a value name was refused.
#[derive(Debug, Clone, Copy, PartialEq, Eq, Structural)]
pub enum NameError {
    Empty,
    /// It does not start with a lowercase ASCII letter or `_`.
    BadStart,
    /// It holds something other than lowercase ASCII, digits and `_`.
    NotSnakeCase,
}

/// Lowercase ASCII letter, digit or `_`.
pub open spec fn snake_char(c: char) -> bool {
    ('a' <= c && c <= 'z') || ('0' <= c && c <= '9') || c == '_'
}

/// How a value name is judged.
pub open spec fn name_check(name: Seq<char>) -> Result<(), NameError> {
    if name.len() == 0 {
        Err(NameError::Empty)
    } else if !(('a' <= name[0] && name[0] <= 'z') || name[0] == '_') {
        Err(NameError::BadStart)
    } else if !(forall|i: int| 1 <= i < name.len() ==> snake_char(#[trigger] name[i])) {
        Err(NameError::NotSnakeCase)
    } else {
        Ok(())
    }
}

/// Check a `values.toml` name: snake_case ASCII, not starting with a digit.
pub fn validate_name(name: &str) -> (r: Result<(), NameError>)
    ensures
        r == name_check(name@),
{
    let v = chars_of(name);
    if v.len() == 0 {
        return Err(NameError::Empty);
    }
    let first = v[0];
    if !(('a' <= first && first <= 'z') || first == '_') {
        return Err(NameError::BadStart);
    }
    let mut i: usize = 1;
    while i < v.len()
        invariant
            v@ == name@,
            1 <= i <= v@.len(),
            ('a' <= v@[0] && v@[0] <= 'z') || v@[0] == '_',
            forall|j: int| 1 <= j < i ==> snake_char(#[trigger] v@[j]),
        decreases v@.len() - i,
    {
        let c = v[i];
        if !(('a' <= c && c <= 'z') || ('0' <= c && c <= '9') || c == '_') {
            assert(!snake_char(v@[i as int]));
            return Err(NameError::NotSnakeCase);
        }
        i = i + 1;
    }
    Ok(())
}

/// Check that a `values.toml` reference is one the library can resolve.
pub fn validate_secret_reference(reference: &str) -> (r: Result<(), SecretRefError>)
    ensures
        r is Ok <==> parse_reference(reference.spec_bytes()) is Ok,
        r matches Err(e) ==> parse_reference(reference.spec_bytes()) == Err::<
            crate::secrets::ReferenceParts,
            SecretRefError,
        >(e),
{
    validate_reference(reference)
}

/// Why a 1Password account was refused.
#[derive(Debug, Clone, Copy, PartialEq, Eq, Structural)]
pub enum AccountError {
    Empty,
    ContainsWhitespace,
}

/// How an account given on the command line is judged: trimmed, it must
/// be non-empty and hold no whitespace.
pub open spec fn account_check(account: Seq<char>) -> Result<Seq<char>, AccountError> {
    if trim(account).len() == 0 {
        Err(AccountError::Empty)
    } else if exists|i: int| 0 <= i < trim(account).len() && is_ws(#[trigger] trim(account)[i]) {
        Err(AccountError::ContainsWhitespace)
    } else {
        Ok(trim(account))
    }
}

/// Check a 1Password account given on the command line.
pub fn validate_onepassword_account(account: &str) -> (r: Result<String, AccountError>)
    ensures
        match r {
            Ok(a) => account_check(account@) == Ok::<Seq<char>, AccountError>(a@),
            Err(e) => account_check(account@) == Err::<Seq<char>, AccountError>(e),
        },
{
    let trimmed = trim_str(account);
    if trimmed.as_str().is_empty() {
        return Err(AccountError::Empty);
    }
    let v = chars_of(trimmed.as_str());
    let mut i: usize = 0;
    while i < v.len()
        invariant
            v@ == trimmed@,
            trimmed@ == trim(account@),
            trimmed@.len() > 0,
            i <= v@.len(),
            forall|j: int| 0 <= j < i ==> !is_ws(#[trigger] v@[j]),
        decreases v@.len() - i,
    {
        if is_whitespace(v[i]) {
            assert(is_ws(trim(account@)[i as int]));
            return Err(AccountError::ContainsWhitespace);
        }
        i = i + 1;
    }
    Ok(trimmed)
}

/// The categories `value search` asks for: none with `--all-categories`,
/// `Login` when none are given, else those given.
pub fn search_categories(all_categories: bool, categories: &Vec<String>) -> (r: Vec<String>)
    ensures
        string_views(r@) == if all_categories {
            Seq::<Seq<char>>::empty()
        } else if categories@.len() == 0 {
            seq!["Login"@]
        } else {
            string_views(categories@)
        },
{
    if all_categories {
        let r: Vec<String> = Vec::new();
        assert(string_views(r@) =~= Seq::<Seq<char>>::empty());
        r
    } else if categories.len() == 0 {
        let r = vec![owned("Login")];
        assert(string_views(r@) =~= seq!["Login"@]);
        r
    } else {
        let mut r: Vec<String> = Vec::new();
        let mut i: usize = 0;
        while i < categories.len()
            invariant
                i <= categories@.len(),
                string_views(r@) == string_views(categories@).take(i as int),
            decreases categories@.len() - i,
        {
            let c = categories[i].clone();
            let ghost before = r@;
            r.push(c);
            assert(string_views(r@) =~= string_views(before).push(c@));
            assert(string_views(r@) =~= string_views(categories@).take(i + 1));
            i = i + 1;
        }
        assert(string_views(categories@).take(i as int) =~= string_views(categories@));
        r
    }
}

/// Why a `value search` was refused.
#[derive(Debug, Clone, Copy, PartialEq, Eq, Structural)]
pub enum SearchError {
    /// The trimmed query has fewer than two bytes.
    QueryTooShort,
}

/// The discovery query of `value search` and its result limit (between 1
/// and 25); refused when the trimmed query is shorter than two bytes.
pub fn value_search_query(
    query: &str,
    vault: Option<String>,
    all_categories: bool,
    categories: &Vec<String>,
    limit: usize,
) -> (r: Result<(SecretDiscoveryQuery, usize), SearchError>)
    ensures
        match r {
            Ok((q, n)) => {
                &&& vstd::utf8::encode_utf8(trim(query@)).len() >= 2
                &&& opt_chars(q.search) == Some(trim(query@))
                &&& opt_chars(q.vault) == match vault {
                    Some(v) => if trim(v@).len() == 0 {
                        None
                    } else {
                        Some(v@)
                    },
                    None => None,
                }
                &&& string_views(q.categories@) == if all_categories {
                    Seq::<Seq<char>>::empty()
                } else if categories@.len() == 0 {
                    seq!["Login"@]
                } else {
                    string_views(categories@)
                }
                &&& n == if limit < 1 {
                    1
                } else if limit > 25 {
                    25
                } else {
                    limit
                }
            },
            Err(e) => e == SearchError::QueryTooShort && vstd::utf8::encode_utf8(trim(query@)).len() < 2,
        },
{
    let text = trim_str(query);
    if text.as_str().as_bytes().len() < 2 {
        return Err(SearchError::QueryTooShort);
    }
    let vault = match vault {
        Some(v) => {
            let t = trim_str(v.as_str());
            if t.as_str().is_empty() {
                None
            } else {
                Some(v)
            }
        },
        None => None,
    };
    let cats = search_categories(all_categories, categories);
    let n = if limit < 1 {
        1
    } else if limit > 25 {
        25
    } else {
        limit
    };
    Ok((SecretDiscoveryQuery { search: Some(text), vault, categories: cats }, n))
}

/// Whether a fill value is a secret reference: a provider reference or a
/// `{name}` reference into `values.toml`.
pub open spec fn secret_ref_spec(value: &str) -> bool {
    ||| parse_reference(value.spec_bytes()) is Ok
    ||| (value@.len() >= 2 && value@[0] == '{' && value@.last() == '}')
}

/// Whether a fill value is a secret reference.
pub fn is_secret_ref(value: &str) -> (r: bool)
    ensures
        r == secret_ref_spec(value),
{
    if crate::secrets::is_secret_reference(value) {
        return true;
    }
    let v = chars_of(value);
    v.len() >= 2 && v[0] == '{' && v[v.len() - 1] == '}'
}

/// The templates a new site starts from.
#[derive(Debug, Clone, Copy, PartialEq, Eq, Structural)]
pub enum SiteTemplates {
    /// The worked example, for the site named `example`.
    Example,
    /// Empty places and values.
    Default,
}

/// Which templates a new site starts from.
pub fn templates_for(site: &str) -> (r: SiteTemplates)
    ensures
        r == if site@ == "example"@ {
            SiteTemplates::Example
        } else {
            SiteTemplates::Default
        },
{
    if crate::chars::str_eq(site, "example") {
        SiteTemplates::Example
    } else {
        SiteTemplates::Default
    }
}

/// The name an element gets when none is given: `auto_<n>`, `n` the
/// number of elements already in the table.
pub fn default_element_name(count: usize) -> (r: String)
    ensures
        r@ == "auto_"@ + crate::chars::decimal(count as nat),
{
    let mut r = owned("auto_");
    let d = crate::chars::usize_to_decimal(count);
    r.append(d.as_str());
    r
}

} // verus!
