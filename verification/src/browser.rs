//! Browser-side decisions: what the `.session` record says about the
//! daemon, where the off-screen window goes, and what the unmask approval
//! dialog shows (its title and the text previews).

use vstd::prelude::*;
use vstd::string::StringExecFns;
use crate::chars::{
    decimal, opt_chars, owned, split_char, split_str, string_views, trim, trim_str,
};
use crate::model::UnmaskApprovalContext;
use crate::secrets::{join_strings, join_with, strings_view};

verus! {

/// Whether this build exposes the raw (unmasked) page operations. The
/// library has none.
pub const COMPILED_WITH_RAW: bool = false;

/// The daemon record kept in `<site>/.session`.
#[derive(Debug, Clone)]
pub struct SessionInfo {
    pub pid: u32,
    pub sock: String,
    pub started_at: u64,
}

/// Daemon liveness.
#[derive(Debug, Clone, PartialEq, Eq, Structural)]
pub enum DaemonStatus {
    Running { pid: u32, uptime_secs: u64 },
    NotRunning,
    /// A record whose process is gone.
    Stale { pid: u32 },
}

/// The daemon's socket, given the record (if any), whether its process is
/// alive and whether the socket file exists: only a live daemon with its
/// socket in place has one.
pub fn live_socket(info: &Option<SessionInfo>, pid_alive: bool, sock_exists: bool) -> (r: Option<String>)
    ensures
        match info {
            Some(i) => if pid_alive && sock_exists {
                opt_chars(r) == Some(i.sock@)
            } else {
                r is None
            },
            None => r is None,
        },
{
    match info {
        Some(i) => if pid_alive && sock_exists {
            Some(i.sock.clone())
        } else {
            None
        },
        None => None,
    }
}

/// The daemon's status, given the record (if any), whether its process is
/// alive and the current time in seconds.
pub fn status(info: &Option<SessionInfo>, pid_alive: bool, now_secs: u64) -> (r: DaemonStatus)
    ensures
        r == match info {
            None => DaemonStatus::NotRunning,
            Some(i) => if !pid_alive {
                (DaemonStatus::Stale { pid: i.pid })
            } else {
                (DaemonStatus::Running {
                    pid: i.pid,
                    uptime_secs: if now_secs >= i.started_at {
                        (now_secs - i.started_at) as u64
                    } else {
                        0
                    },
                })
            },
        },
{
    match info {
        None => DaemonStatus::NotRunning,
        Some(i) => if !pid_alive {
            DaemonStatus::Stale { pid: i.pid }
        } else {
            DaemonStatus::Running { pid: i.pid, uptime_secs: now_secs.saturating_sub(i.started_at) }
        },
    }
}

/// Where the off-screen window sits, and its size.
pub const OFFSCREEN_LEFT: i64 = -32000;
pub const OFFSCREEN_TOP: i64 = 0;
pub const SURFACE_LEFT: i64 = 80;
pub const SURFACE_TOP: i64 = 80;
pub const WINDOW_WIDTH: i64 = 1280;
pub const WINDOW_HEIGHT: i64 = 900;

/// A number in decimal, with a minus sign when negative.
pub open spec fn signed_decimal(n: int) -> Seq<char> {
    if n < 0 {
        seq!['-'] + decimal((-n) as nat)
    } else {
        decimal(n as nat)
    }
}

fn i64_to_decimal(n: i64) -> (r: String)
    requires
        n > i64::MIN,
        -n <= usize::MAX,
        n <= usize::MAX,
    ensures
        r@ == signed_decimal(n as int),
{
    if n < 0 {
        let m: i64 = -n;
        let mut r = owned("-");
        let d = crate::chars::usize_to_decimal(m as usize);
        r.append(d.as_str());
        proof {
            reveal_strlit("-");
        }
        assert(r@ =~= signed_decimal(n as int));
        r
    } else {
        crate::chars::usize_to_decimal(n as usize)
    }
}

/// Chrome flags that start the window off-screen at its fixed size.
pub fn offscreen_launch_args() -> (r: Vec<String>)
    ensures
        strings_view(r@) == seq![
            "--window-position="@ + signed_decimal(OFFSCREEN_LEFT as int) + ","@ + signed_decimal(
                OFFSCREEN_TOP as int,
            ),
            "--window-size="@ + signed_decimal(WINDOW_WIDTH as int) + ","@ + signed_decimal(
                WINDOW_HEIGHT as int,
            ),
        ],
{
    let mut position = owned("--window-position=");
    let left = i64_to_decimal(OFFSCREEN_LEFT);
    position.append(left.as_str());
    position.append(",");
    let top = i64_to_decimal(OFFSCREEN_TOP);
    position.append(top.as_str());
    let mut size = owned("--window-size=");
    let width = i64_to_decimal(WINDOW_WIDTH);
    size.append(width.as_str());
    size.append(",");
    let height = i64_to_decimal(WINDOW_HEIGHT);
    size.append(height.as_str());
    let r = vec![position, size];
    assert(strings_view(r@) =~= seq![r@[0]@, r@[1]@]);
    r
}

/// A window's horizontal position and width.
#[derive(Debug, Clone, Copy, PartialEq, Eq, Structural)]
pub struct WindowBounds {
    pub left: i64,
    pub width: i64,
}

impl WindowBounds {
    /// Whether the window sits far to the left of any desktop: at least
    /// half the off-screen offset.
    pub fn is_far_left_offscreen(&self) -> (r: bool)
        ensures
            r == (self.left <= OFFSCREEN_LEFT / 2),
    {
        self.left <= OFFSCREEN_LEFT / 2
    }
}

/// The `bounds` member of a window reply, as far as it is read: `left`
/// and `width` when they are integers that fit in `i64`.
#[derive(Debug, Clone, Copy, PartialEq, Eq, Structural)]
pub struct BoundsReply {
    pub left: Option<i64>,
    pub width: Option<i64>,
}

/// A window reply object, as far as it is read: `windowId` when it is an
/// integer that fits in `i64`, and `bounds` when it is an object.
#[derive(Debug, Clone, Copy, PartialEq, Eq, Structural)]
pub struct WindowReplyBody {
    pub window_id: Option<i64>,
    pub bounds: Option<BoundsReply>,
}

/// What the `result` member of a reply holds.
#[derive(Debug, Clone, Copy, PartialEq, Eq, Structural)]
pub enum ReplyResult {
    /// The reply has no `result` member.
    Absent,
    Object(WindowReplyBody),
    /// Something that is not an object.
    Other,
}

/// A reply to `Browser.getWindowForTarget`: the members read at its top
/// level, and its `result` member. A reply that is not an object reads as
/// a body with neither member.
#[derive(Debug, Clone, Copy, PartialEq, Eq, Structural)]
pub struct WindowReply {
    pub result: ReplyResult,
    pub top: WindowReplyBody,
}

/// What a reply lacks.
#[derive(Debug, Clone, Copy, PartialEq, Eq, Structural)]
pub enum WindowReplyError {
    NoWindowId,
    NoBounds,
    NoLeft,
    NoWidth,
}

/// The body of a reply: its `result` member when it has one, else the
/// reply itself; `None` when `result` is not an object.
pub open spec fn reply_body(reply: WindowReply) -> Option<WindowReplyBody> {
    match reply.result {
        ReplyResult::Absent => Some(reply.top),
        ReplyResult::Object(b) => Some(b),
        ReplyResult::Other => None,
    }
}

fn body_of(reply: &WindowReply) -> (r: Option<WindowReplyBody>)
    ensures
        r == reply_body(*reply),
{
    match reply.result {
        ReplyResult::Absent => Some(reply.top),
        ReplyResult::Object(b) => Some(b),
        ReplyResult::Other => None,
    }
}

/// The window id a reply names; refused unless its body has an integer
/// `windowId`.
pub fn window_id_from_response(reply: &WindowReply) -> (r: Result<i64, WindowReplyError>)
    ensures
        r == match reply_body(*reply) {
            Some(b) => match b.window_id {
                Some(id) => Ok(id),
                None => Err(WindowReplyError::NoWindowId),
            },
            None => Err::<i64, WindowReplyError>(WindowReplyError::NoWindowId),
        },
{
    match body_of(reply) {
        Some(b) => match b.window_id {
            Some(id) => Ok(id),
            None => Err(WindowReplyError::NoWindowId),
        },
        None => Err(WindowReplyError::NoWindowId),
    }
}

/// The window bounds a reply gives; refused unless its body has a
/// `bounds` object with integer `left` and `width`.
pub fn window_bounds_from_response(reply: &WindowReply) -> (r: Result<WindowBounds, WindowReplyError>)
    ensures
        r == match reply_body(*reply) {
            Some(b) => match b.bounds {
                Some(bounds) => match (bounds.left, bounds.width) {
                    (Some(left), Some(width)) => Ok((WindowBounds { left, width })),
                    (None, _) => Err(WindowReplyError::NoLeft),
                    (Some(_), None) => Err(WindowReplyError::NoWidth),
                },
                None => Err(WindowReplyError::NoBounds),
            },
            None => Err::<WindowBounds, WindowReplyError>(WindowReplyError::NoBounds),
        },
{
    let b = match body_of(reply) {
        Some(b) => b,
        None => return Err(WindowReplyError::NoBounds),
    };
    let bounds = match b.bounds {
        Some(bounds) => bounds,
        None => return Err(WindowReplyError::NoBounds),
    };
    let left = match bounds.left {
        Some(l) => l,
        None => return Err(WindowReplyError::NoLeft),
    };
    let width = match bounds.width {
        Some(w) => w,
        None => return Err(WindowReplyError::NoWidth),
    };
    Ok(WindowBounds { left, width })
}

/// Whether hiding the window must fall back to minimizing it, given the
/// reply read back after moving it off-screen: unless that reply shows the
/// window far to the left, it was clamped or could not be checked.
pub fn needs_minimize_after_offscreen(reply: &WindowReply) -> (r: bool)
    ensures
        r == match reply_body(*reply) {
            Some(b) => match b.bounds {
                Some(bounds) => match (bounds.left, bounds.width) {
                    (Some(left), Some(_)) => !(left <= OFFSCREEN_LEFT / 2),
                    _ => true,
                },
                None => true,
            },
            None => true,
        },
{
    match window_bounds_from_response(reply) {
        Ok(bounds) => !bounds.is_far_left_offscreen(),
        Err(_) => true,
    }
}

/// A raw text snippet of one element, shown only in the approval dialog.
#[derive(Debug, Clone)]
pub struct RawSnippet {
    element_index: usize,
    text: String,
}

impl RawSnippet {
    pub fn new(element_index: usize, text: String) -> (r: RawSnippet)
        ensures
            r.index_spec() == element_index,
            r.text_spec() == text@,
    {
        RawSnippet { element_index, text }
    }

    pub closed spec fn index_spec(&self) -> usize {
        self.element_index
    }

    pub closed spec fn text_spec(&self) -> Seq<char> {
        self.text@
    }

    pub fn element_index(&self) -> (r: usize)
        ensures
            r == self.index_spec(),
    {
        self.element_index
    }

    pub fn text(&self) -> (r: &str)
        ensures
            r@ == self.text_spec(),
    {
        self.text.as_str()
    }
}

/// What the approval dialog is asked to show.
#[derive(Debug, Clone)]
pub struct UnmaskedSnippets {
    pub context: UnmaskApprovalContext,
    pub selector: String,
    pub proposed_name: Option<String>,
    pub snippets: Vec<RawSnippet>,
}

impl UnmaskedSnippets {
    pub fn new(
        context: UnmaskApprovalContext,
        selector: String,
        proposed_name: Option<String>,
        snippets: Vec<RawSnippet>,
    ) -> (r: UnmaskedSnippets)
        ensures
            r.context == context,
            r.selector == selector,
            r.proposed_name == proposed_name,
            r.snippets == snippets,
    {
        UnmaskedSnippets { context, selector, proposed_name, snippets }
    }
}

/// The non-empty parts of a dotted name, in order.
pub open spec fn dotted_parts(site: Option<Seq<char>>, place: Option<Seq<char>>, name: Option<Seq<char>>) -> Seq<Seq<char>> {
    (if site matches Some(s) && s.len() > 0 {
        seq![site->0]
    } else {
        Seq::empty()
    }) + (if place matches Some(p) && p.len() > 0 {
        seq![place->0]
    } else {
        Seq::empty()
    }) + (if name matches Some(n) && n.len() > 0 {
        seq![name->0]
    } else {
        Seq::empty()
    })
}

fn push_filled(parts: &mut Vec<String>, o: &Option<String>)
    ensures
        strings_view(final(parts)@) == strings_view(old(parts)@) + if o matches Some(s) && s@.len() > 0 {
            seq![o->0@]
        } else {
            Seq::<Seq<char>>::empty()
        },
{
    match o {
        Some(s) => if !s.as_str().is_empty() {
            let ghost before = parts@;
            parts.push(s.clone());
            assert(strings_view(parts@) =~= strings_view(before) + seq![s@]);
        } else {
            assert(strings_view(parts@) + Seq::<Seq<char>>::empty() =~= strings_view(parts@));
        },
        None => {
            assert(strings_view(parts@) + Seq::<Seq<char>>::empty() =~= strings_view(parts@));
        },
    }
}

/// What the approval dialog names as the request's target: site, place
/// and proposed name joined by dots, or the selector when none is given.
pub fn request_target(snippets: &UnmaskedSnippets) -> (r: String)
    ensures
        r@ == {
            let parts = dotted_parts(
                opt_chars(snippets.context.site),
                opt_chars(snippets.context.place),
                opt_chars(snippets.proposed_name),
            );
            if parts.len() == 0 {
                snippets.selector@
            } else {
                join_with(parts, "."@)
            }
        },
{
    let mut parts: Vec<String> = Vec::new();
    assert(strings_view(parts@) =~= Seq::<Seq<char>>::empty());
    push_filled(&mut parts, &snippets.context.site);
    push_filled(&mut parts, &snippets.context.place);
    push_filled(&mut parts, &snippets.proposed_name);
    proof {
        assert(strings_view(parts@) =~= dotted_parts(
            opt_chars(snippets.context.site),
            opt_chars(snippets.context.place),
            opt_chars(snippets.proposed_name),
        ));
    }
    if parts.len() == 0 {
        snippets.selector.clone()
    } else {
        join_strings(&parts, ".")
    }
}

/// The lines kept so far, and whether the last line read was blank: each
/// line is trimmed, and a run of blank lines between two kept lines
/// becomes one empty line.
pub open spec fn preview_state(lines: Seq<Seq<char>>) -> (Seq<Seq<char>>, bool)
    decreases lines.len(),
{
    if lines.len() == 0 {
        (Seq::empty(), false)
    } else {
        let (out, previous_blank) = preview_state(lines.drop_last());
        let t = trim(lines.last());
        if t.len() == 0 {
            (
                if !previous_blank && out.len() > 0 {
                    out.push(Seq::empty())
                } else {
                    out
                },
                true,
            )
        } else {
            (out.push(t), false)
        }
    }
}

/// `ls` without its trailing empty lines.
pub open spec fn drop_trailing_empty(ls: Seq<Seq<char>>) -> Seq<Seq<char>>
    decreases ls.len(),
{
    if ls.len() > 0 && ls.last().len() == 0 {
        drop_trailing_empty(ls.drop_last())
    } else {
        ls
    }
}

/// The preview of a raw snippet: trimmed lines, blank runs collapsed to
/// one empty line, no blank lines at either end; `(empty text)` when
/// nothing is left.
pub open spec fn preview(raw: Seq<char>) -> Seq<char> {
    let text = join_with(drop_trailing_empty(preview_state(split_char(raw, '\n')).0), "\n"@);
    if text.len() == 0 {
        "(empty text)"@
    } else {
        text
    }
}

proof fn lemma_join_nonempty(parts: Seq<Seq<char>>, sep: Seq<char>)
    requires
        parts.len() > 0,
        parts[0].len() > 0,
    ensures
        join_with(parts, sep).len() > 0,
    decreases parts.len(),
{
    if parts.len() > 1 {
        lemma_join_nonempty(parts.drop_last(), sep);
    }
}

proof fn lemma_preview_first_nonempty(lines: Seq<Seq<char>>)
    ensures
        preview_state(lines).0.len() > 0 ==> preview_state(lines).0[0].len() > 0,
        preview_state(lines).0.len() > 0 ==> preview_state(lines).0.last().len() > 0 || preview_state(lines).1,
    decreases lines.len(),
{
    if lines.len() > 0 {
        lemma_preview_first_nonempty(lines.drop_last());
    }
}

/// The text of a raw snippet as the approval dialog shows it.
pub fn preview_text(raw: &str) -> (r: String)
    ensures
        r@ == preview(raw@),
{
    let pieces = split_str(raw, '\n');
    let ghost ps = string_views(pieces@);
    let mut lines: Vec<String> = Vec::new();
    let mut previous_blank = false;
    let mut i: usize = 0;
    assert(ps.take(0) =~= Seq::<Seq<char>>::empty());
    assert(strings_view(lines@) =~= Seq::<Seq<char>>::empty());
    while i < pieces.len()
        invariant
            i <= pieces@.len(),
            ps == string_views(pieces@),
            (strings_view(lines@), previous_blank) == preview_state(ps.take(i as int)),
        decreases pieces@.len() - i,
    {
        proof {
            assert(ps.take(i + 1).drop_last() =~= ps.take(i as int));
            assert(ps.take(i + 1).last() == pieces@[i as int]@);
        }
        let t = trim_str(pieces[i].as_str());
        if t.as_str().is_empty() {
            if !previous_blank && lines.len() > 0 {
                let ghost before = lines@;
                lines.push(String::new());
                assert(strings_view(lines@) =~= strings_view(before).push(Seq::<char>::empty()));
            }
            previous_blank = true;
        } else {
            let ghost before = lines@;
            let ghost tv = t@;
            lines.push(t);
            assert(strings_view(lines@) =~= strings_view(before).push(tv));
            previous_blank = false;
        }
        i = i + 1;
    }
    assert(ps.take(i as int) =~= ps);
    proof {
        lemma_preview_first_nonempty(ps);
    }
    while lines.len() > 0 && lines[lines.len() - 1].as_str().is_empty()
        invariant
            drop_trailing_empty(strings_view(lines@)) == drop_trailing_empty(preview_state(ps).0),
            strings_view(lines@).len() > 0 ==> strings_view(lines@)[0].len() > 0,
        decreases lines@.len(),
    {
        let ghost before = lines@;
        lines.pop();
        proof {
            assert(strings_view(lines@) =~= strings_view(before).drop_last());
            assert(strings_view(before).last() == before[before.len() - 1]@);
            if strings_view(lines@).len() > 0 {
                assert(strings_view(lines@)[0] == strings_view(before)[0]);
            }
        }
    }
    proof {
        if strings_view(lines@).len() > 0 {
            assert(strings_view(lines@).last() == lines@[lines@.len() - 1]@);
        }
        assert(drop_trailing_empty(strings_view(lines@)) == strings_view(lines@));
    }
    let text = join_strings(&lines, "\n");
    proof {
        if strings_view(lines@).len() > 0 {
            lemma_join_nonempty(strings_view(lines@), "\n"@);
        } else {
            assert(join_with(strings_view(lines@), "\n"@) =~= Seq::<char>::empty());
        }
    }
    if text.as_str().is_empty() {
        owned("(empty text)")
    } else {
        text
    }
}

/// Marker that the caller asked for unmasked output on purpose.
pub struct RawAccess(());

impl RawAccess {
    pub fn acknowledged() -> RawAccess {
        RawAccess(())
    }
}

} // verus!
