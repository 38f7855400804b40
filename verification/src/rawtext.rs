//! The pass over raw HTML before the DOM walk: comment bodies and the
//! bodies of `script`, `style` and `template` elements never reach the
//! text handlers, so they are collapsed here to `[TEXT:N]`, N the body's
//! length in characters.
//!
//! A comment is what `(?s)<!--(.*?)-->` matches; a raw-text element is
//! what `(?is)<tag([^>]*)>(.*?)</tag>` matches. The regex crate finds the
//! matches; each match is rewritten from its capture groups, and the text
//! between matches is kept.

use vstd::prelude::*;
use vstd::string::{StringExecFns, StringSliceAdditionalSpecFns};
use vstd::utf8::{decode_utf8, encode_utf8, is_char_boundary, valid_utf8};
use crate::blacklist::{lemma_encode_utf8_append, regex_valid, span_in, str_slice, str_tail};
use crate::chars::{chars_of, decimal, owned, usize_to_decimal};

verus! {

/// For each successive match of `pattern` in `haystack`, the byte spans
/// of its capture groups: group 0 the whole match, `None` for a group
/// that took no part in it.
pub uninterp spec fn regex_captures_all(pattern: Seq<char>, haystack: Seq<char>) -> Seq<Seq<Option<(int, int)>>>;

/// The spans of one match's groups.
pub open spec fn group_views(g: Seq<Option<(usize, usize)>>) -> Seq<Option<(int, int)>> {
    Seq::new(
        g.len(),
        |i: int|
            match g[i] {
                Some(p) => Some((p.0 as int, p.1 as int)),
                None => None,
            },
    )
}

/// The spans of every match's groups.
pub open spec fn capture_views(v: Seq<Vec<Option<(usize, usize)>>>) -> Seq<Seq<Option<(int, int)>>> {
    Seq::new(v.len(), |i: int| group_views(v[i]@))
}

/// Where a group's span starts (0 when it has none).
pub open spec fn span_start(o: Option<(int, int)>) -> int {
    match o {
        Some(p) => p.0,
        None => 0,
    }
}

/// Where a group's span ends (0 when it has none).
pub open spec fn span_end(o: Option<(int, int)>) -> int {
    match o {
        Some(p) => p.1,
        None => 0,
    }
}

/// What the regex crate documents of the captures of successive matches
/// in `h`: group 0 is always there, every group lies in `h` from one
/// character boundary to another, and the matches come in order without
/// overlapping.
pub open spec fn captures_ok(h: Seq<u8>, ms: Seq<Seq<Option<(int, int)>>>) -> bool {
    &&& forall|i: int| 0 <= i < ms.len() ==> (#[trigger] ms[i]).len() > 0 && ms[i][0] is Some
    &&& forall|i: int, g: int|
        0 <= i < ms.len() && 0 <= g < ms[i].len() && (#[trigger] ms[i][g]) is Some ==> span_in(h, ms[i][g]->0)
    &&& forall|i: int, j: int|
        0 <= i < j < ms.len() ==> span_end((#[trigger] ms[i])[0]) <= span_start((#[trigger] ms[j])[0])
}

/// `regex::Regex::new(pattern)` then `Regex::captures_iter(haystack)`,
/// each match given as the byte spans of its capture groups. `None` when
/// the pattern does not compile. Which text matches is the regex crate's
/// syntax and semantics and is only named here; stated is what its
/// documentation gives of every match (`captures_ok`).
#[verifier::external_body]
fn regex_capture_spans(pattern: &str, haystack: &str) -> (r: Option<Vec<Vec<Option<(usize, usize)>>>>)
    ensures
        r is Some <==> regex_valid(pattern@),
        r matches Some(v) ==> capture_views(v@) == regex_captures_all(pattern@, haystack@),
        r matches Some(v) ==> captures_ok(haystack.spec_bytes(), capture_views(v@)),
{
    match regex::Regex::new(pattern) {
        Ok(re) => Some(
            re.captures_iter(haystack).map(
                |c| c.iter().map(|g| g.map(|m| (m.start(), m.end()))).collect(),
            ).collect(),
        ),
        Err(_) => None,
    }
}

/// The text of group `g` of a match in `h`; empty when it took no part.
pub open spec fn group_text(h: Seq<u8>, caps: Seq<Option<(int, int)>>, g: int) -> Seq<char> {
    if 0 <= g < caps.len() && caps[g] is Some {
        decode_utf8(h.subrange(span_start(caps[g]), span_end(caps[g])))
    } else {
        Seq::empty()
    }
}

/// What a match becomes: a comment keeps its delimiters around
/// `[TEXT:N]`; a raw-text element is written `<tag attrs>[TEXT:N]</tag>`
/// with its tag in lower case.
pub open spec fn replacement(comment: bool, tag: Seq<char>, h: Seq<u8>, caps: Seq<Option<(int, int)>>) -> Seq<char> {
    if comment {
        "<!--[TEXT:"@ + decimal(group_text(h, caps, 1).len()) + "]-->"@
    } else {
        "<"@ + tag + group_text(h, caps, 1) + ">[TEXT:"@ + decimal(group_text(h, caps, 2).len()) + "]</"@
            + tag + ">"@
    }
}

/// The bytes of `h` from `cursor` on, each match replaced.
pub open spec fn replaced(
    h: Seq<u8>,
    ms: Seq<Seq<Option<(int, int)>>>,
    cursor: int,
    comment: bool,
    tag: Seq<char>,
) -> Seq<u8>
    decreases ms.len(),
{
    if ms.len() == 0 {
        h.subrange(cursor, h.len() as int)
    } else {
        h.subrange(cursor, span_start(ms[0][0])) + encode_utf8(replacement(comment, tag, h, ms[0]))
            + replaced(
            h,
            ms.skip(1),
            span_end(ms[0][0]),
            comment,
            tag,
        )
    }
}

/// `text` with every match of `pattern` rewritten; unchanged when the
/// pattern does not compile.
pub open spec fn pass_spec(text: Seq<char>, pattern: Seq<char>, comment: bool, tag: Seq<char>) -> Seq<char> {
    if regex_valid(pattern) {
        decode_utf8(replaced(encode_utf8(text), regex_captures_all(pattern, text), 0, comment, tag))
    } else {
        text
    }
}

/// The comment pattern.
pub open spec fn comment_pattern() -> Seq<char> {
    "(?s)<!--(.*?)-->"@
}

/// Comments collapsed.
pub open spec fn comments_masked(html: Seq<char>) -> Seq<char> {
    pass_spec(html, comment_pattern(), true, Seq::empty())
}

/// Script, style and template bodies collapsed, in that order.
pub open spec fn raw_text_masked(html: Seq<char>) -> Seq<char> {
    pass_spec(
        pass_spec(
            pass_spec(html, "(?is)<script([^>]*)>(.*?)</script>"@, false, "script"@),
            "(?is)<style([^>]*)>(.*?)</style>"@,
            false,
            "style"@,
        ),
        "(?is)<template([^>]*)>(.*?)</template>"@,
        false,
        "template"@,
    )
}

fn group_str<'a>(text: &'a str, caps: &Vec<Option<(usize, usize)>>, g: usize) -> (r: &'a str)
    requires
        forall|k: int|
            0 <= k < caps@.len() && (#[trigger] group_views(caps@)[k]) is Some ==> span_in(
                text.spec_bytes(),
                group_views(caps@)[k]->0,
            ),
    ensures
        r@ == group_text(text.spec_bytes(), group_views(caps@), g as int),
{
    proof {
        reveal_strlit("");
    }
    if g < caps.len() {
        match caps[g] {
            Some((a, b)) => {
                assert(group_views(caps@)[g as int] == Some((a as int, b as int)));
                let s = str_slice(text, a, b);
                proof {
                    vstd::utf8::encode_utf8_decode_utf8(s@);
                }
                s
            },
            None => {
                assert(group_views(caps@)[g as int] is None);
                ""
            },
        }
    } else {
        ""
    }
}

fn replacement_text(text: &str, caps: &Vec<Option<(usize, usize)>>, comment: bool, tag: &str) -> (r: String)
    requires
        forall|k: int|
            0 <= k < caps@.len() && (#[trigger] group_views(caps@)[k]) is Some ==> span_in(
                text.spec_bytes(),
                group_views(caps@)[k]->0,
            ),
    ensures
        r@ == replacement(comment, tag@, text.spec_bytes(), group_views(caps@)),
{
    proof {
        reveal_strlit("<!--[TEXT:");
        reveal_strlit("]-->");
        reveal_strlit("<");
        reveal_strlit(">[TEXT:");
        reveal_strlit("]</");
        reveal_strlit(">");
    }
    if comment {
        let body = group_str(text, caps, 1);
        let n = chars_of(body).len();
        let mut out = owned("<!--[TEXT:");
        let d = usize_to_decimal(n);
        out.append(d.as_str());
        out.append("]-->");
        out
    } else {
        let attrs = group_str(text, caps, 1);
        let body = group_str(text, caps, 2);
        let n = chars_of(body).len();
        let mut out = owned("<");
        out.append(tag);
        out.append(attrs);
        out.append(">[TEXT:");
        let d = usize_to_decimal(n);
        out.append(d.as_str());
        out.append("]</");
        out.append(tag);
        out.append(">");
        out
    }
}

/// One rewriting pass: every match of `pattern` in `text` replaced.
fn pass(text: &str, pattern: &str, comment: bool, tag: &str) -> (r: String)
    ensures
        r@ == pass_spec(text@, pattern@, comment, tag@),
{
    let ms = match regex_capture_spans(pattern, text) {
        Some(ms) => ms,
        None => return owned(text),
    };
    let ghost t = text.spec_bytes();
    let ghost msv = capture_views(ms@);
    let mut out = String::new();
    let mut cursor: usize = 0;
    let mut k: usize = 0;
    proof {
        vstd::utf8::encode_utf8_valid_utf8(text@);
        assert(msv.skip(0) =~= msv);
        assert(encode_utf8(out@) =~= Seq::<u8>::empty());
        assert(Seq::<u8>::empty() + replaced(t, msv, 0, comment, tag@) =~= replaced(t, msv, 0, comment, tag@));
        assert forall|j: int| 0 <= j < msv.len() implies 0 <= span_start((#[trigger] msv[j])[0]) by {
            assert(msv[j].len() > 0 && msv[j][0] is Some);
            assert(span_in(t, msv[j][0]->0));
        }
    }
    while k < ms.len()
        invariant
            t == text.spec_bytes(),
            valid_utf8(t),
            msv == capture_views(ms@),
            msv == regex_captures_all(pattern@, text@),
            captures_ok(t, msv),
            k <= ms@.len(),
            cursor <= t.len(),
            is_char_boundary(t, cursor as int),
            forall|j: int| k <= j < msv.len() ==> cursor <= span_start((#[trigger] msv[j])[0]),
            encode_utf8(out@) + replaced(t, msv.skip(k as int), cursor as int, comment, tag@) == replaced(
                t,
                msv,
                0,
                comment,
                tag@,
            ),
        decreases ms@.len() - k,
    {
        let caps = &ms[k];
        let ghost cv = msv[k as int];
        let ghost rest = msv.skip(k as int);
        proof {
            assert(cv == group_views(caps@));
            assert(rest[0] == cv);
            assert(rest.skip(1) =~= msv.skip(k + 1));
            assert(cv.len() > 0 && cv[0] is Some);
            assert(span_in(t, cv[0]->0));
            assert forall|g: int| 0 <= g < caps@.len() && (#[trigger] group_views(caps@)[g]) is Some implies span_in(
                t,
                group_views(caps@)[g]->0,
            ) by {
                assert(msv[k as int][g] == group_views(caps@)[g]);
            }
        }
        let (s, e) = match caps[0] {
            Some(p) => p,
            None => {
                assert(false);
                (0, 0)
            },
        };
        assert(cv[0] == Some((s as int, e as int)));
        let before = str_slice(text, cursor, s);
        let rep = replacement_text(text, caps, comment, tag);
        let ghost prev = out@;
        out.append(before);
        out.append(rep.as_str());
        proof {
            lemma_encode_utf8_append(prev, before@);
            lemma_encode_utf8_append(prev + before@, rep@);
            assert(encode_utf8(out@) + replaced(t, msv.skip(k + 1), e as int, comment, tag@) =~= encode_utf8(prev)
                + replaced(t, rest, cursor as int, comment, tag@));
            assert forall|j: int| k + 1 <= j < msv.len() implies e <= span_start((#[trigger] msv[j])[0]) by {
                assert(span_end(msv[k as int][0]) <= span_start(msv[j][0]));
            }
        }
        cursor = e;
        k = k + 1;
    }
    let tail = str_tail(text, cursor);
    let ghost prev = out@;
    out.append(tail);
    proof {
        lemma_encode_utf8_append(prev, tail@);
        assert(msv.skip(k as int) =~= Seq::<Seq<Option<(int, int)>>>::empty());
        assert(encode_utf8(out@) == replaced(t, msv, 0, comment, tag@));
        vstd::utf8::encode_utf8_decode_utf8(out@);
    }
    out
}

/// Collapse comment bodies.
pub fn mask_comments(html: &str) -> (r: String)
    ensures
        r@ == comments_masked(html@),
{
    proof {
        reveal_strlit("");
        assert(""@ =~= Seq::<char>::empty());
    }
    let r = pass(html, "(?s)<!--(.*?)-->", true, "");
    assert(r@ == pass_spec(html@, "(?s)<!--(.*?)-->"@, true, ""@));
    r
}

/// Collapse the bodies of `script`, `style` and `template` elements.
pub fn mask_raw_text_elements(html: &str) -> (r: String)
    ensures
        r@ == raw_text_masked(html@),
{
    let a = pass(html, "(?is)<script([^>]*)>(.*?)</script>", false, "script");
    let b = pass(a.as_str(), "(?is)<style([^>]*)>(.*?)</style>", false, "style");
    pass(b.as_str(), "(?is)<template([^>]*)>(.*?)</template>", false, "template")
}

/// The raw-HTML pass that runs before the DOM walk: comments first, then
/// raw-text elements.
pub fn prepare_html(html: &str) -> (r: String)
    ensures
        r@ == raw_text_masked(comments_masked(html@)),
{
    let c = mask_comments(html);
    mask_raw_text_elements(c.as_str())
}

} // verus!
