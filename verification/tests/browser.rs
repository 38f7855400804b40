use stencilwright::browser::{
    live_socket, needs_minimize_after_offscreen, offscreen_launch_args, preview_text,
    request_target, status, window_bounds_from_response, window_id_from_response, BoundsReply,
    DaemonStatus, RawSnippet, ReplyResult, SessionInfo, UnmaskedSnippets, WindowBounds,
    WindowReply, WindowReplyBody, WindowReplyError, COMPILED_WITH_RAW,
};
use stencilwright::visibility::{
    daemon_option_args, parse_daemon_options, RunOptions, Visibility,
};
use stencilwright::model::UnmaskApprovalContext;

#[test]
fn offscreen_launch_args_start_chrome_outside_the_visible_desktop() {
    let args = offscreen_launch_args();
    assert_eq!(
        args,
        vec![
            "--window-position=-32000,0".to_string(),
            "--window-size=1280,900".to_string(),
        ]
    );
}

#[test]
fn preview_text_collapses_excess_blank_lines() {
    assert_eq!(
        preview_text("\n\n  Alpha\n\n\n  Beta  \n\n"),
        "Alpha\n\nBeta"
    );
}

#[test]
fn preview_text_labels_empty_content() {
    assert_eq!(preview_text("  \n\t\n"), "(empty text)");
}

#[test]
fn raw_feature_off_in_stencilwright() {
    assert!(!COMPILED_WITH_RAW);
}

#[test]
fn far_left_windows_count_as_offscreen() {
    assert!(!WindowBounds { left: -1200, width: 1282 }.is_far_left_offscreen());
    assert!(WindowBounds { left: -32000, width: 1280 }.is_far_left_offscreen());
    assert!(WindowBounds { left: -16000, width: 1280 }.is_far_left_offscreen());
}

fn info() -> Option<SessionInfo> {
    Some(SessionInfo {
        pid: 42,
        sock: "/tmp/site/.session.sock".to_string(),
        started_at: 100,
    })
}

#[test]
fn socket_only_for_live_daemons() {
    assert_eq!(live_socket(&None, true, true), None);
    assert_eq!(live_socket(&info(), false, true), None);
    assert_eq!(live_socket(&info(), true, false), None);
    assert_eq!(
        live_socket(&info(), true, true),
        Some("/tmp/site/.session.sock".to_string())
    );
}

#[test]
fn status_not_running_stale_running() {
    assert_eq!(status(&None, false, 0), DaemonStatus::NotRunning);
    assert_eq!(status(&info(), false, 500), DaemonStatus::Stale { pid: 42 });
    assert_eq!(
        status(&info(), true, 160),
        DaemonStatus::Running {
            pid: 42,
            uptime_secs: 60
        }
    );
    assert_eq!(
        status(&info(), true, 50),
        DaemonStatus::Running {
            pid: 42,
            uptime_secs: 0
        }
    );
}

#[test]
fn request_target_names_site_place_and_field() {
    let mut context = UnmaskApprovalContext::empty();
    context.site = Some("example".to_string());
    context.place = Some(String::new());
    let snippets = UnmaskedSnippets::new(
        context,
        "h1".to_string(),
        Some("title".to_string()),
        vec![RawSnippet::new(0, "x".to_string())],
    );
    assert_eq!(request_target(&snippets), "example.title");
    let bare = UnmaskedSnippets::new(UnmaskApprovalContext::empty(), "h1".to_string(), None, vec![]);
    assert_eq!(request_target(&bare), "h1");
    let s = RawSnippet::new(3, "raw".to_string());
    assert_eq!(s.element_index(), 3);
    assert_eq!(s.text(), "raw");
}

const EMPTY_BODY: WindowReplyBody = WindowReplyBody {
    window_id: None,
    bounds: None,
};

fn top(body: WindowReplyBody) -> WindowReply {
    WindowReply {
        result: ReplyResult::Absent,
        top: body,
    }
}

fn wrapped(body: WindowReplyBody) -> WindowReply {
    WindowReply {
        result: ReplyResult::Object(body),
        top: EMPTY_BODY,
    }
}

#[test]
fn window_id_from_response_requires_integer_window_id() {
    // { "windowId": 42 }
    let plain = top(WindowReplyBody {
        window_id: Some(42),
        bounds: None,
    });
    assert_eq!(window_id_from_response(&plain).unwrap(), 42);
    // { "result": { "windowId": 42 } }
    let nested = wrapped(WindowReplyBody {
        window_id: Some(42),
        bounds: None,
    });
    assert_eq!(window_id_from_response(&nested).unwrap(), 42);
    // { "windowId": "42" }: not an integer
    assert!(window_id_from_response(&top(EMPTY_BODY)).is_err());
    // {}
    assert!(window_id_from_response(&top(EMPTY_BODY)).is_err());
}

#[test]
fn window_bounds_from_response_accepts_wrapped_cdp_result() {
    let reply = wrapped(WindowReplyBody {
        window_id: Some(42),
        bounds: Some(BoundsReply {
            left: Some(-1200),
            width: Some(1282),
        }),
    });
    let bounds = window_bounds_from_response(&reply).unwrap();
    assert_eq!(
        bounds,
        WindowBounds {
            left: -1200,
            width: 1282,
        }
    );
    assert!(!bounds.is_far_left_offscreen());
}

#[test]
fn window_bounds_from_response_accepts_truly_offscreen_position() {
    let reply = top(WindowReplyBody {
        window_id: None,
        bounds: Some(BoundsReply {
            left: Some(-32000),
            width: Some(1280),
        }),
    });
    let bounds = window_bounds_from_response(&reply).unwrap();
    assert!(bounds.is_far_left_offscreen());
}

#[test]
fn window_replies_name_what_is_missing() {
    let reply = |bounds| {
        top(WindowReplyBody {
            window_id: Some(1),
            bounds,
        })
    };
    assert_eq!(
        window_bounds_from_response(&reply(None)),
        Err(WindowReplyError::NoBounds)
    );
    assert_eq!(
        window_bounds_from_response(&reply(Some(BoundsReply {
            left: None,
            width: Some(10),
        }))),
        Err(WindowReplyError::NoLeft)
    );
    assert_eq!(
        window_bounds_from_response(&reply(Some(BoundsReply {
            left: Some(0),
            width: None,
        }))),
        Err(WindowReplyError::NoWidth)
    );
    let not_object = WindowReply {
        result: ReplyResult::Other,
        top: WindowReplyBody {
            window_id: Some(7),
            bounds: None,
        },
    };
    assert_eq!(
        window_id_from_response(&not_object),
        Err(WindowReplyError::NoWindowId)
    );
}

#[test]
fn clamped_or_unreadable_windows_are_minimized() {
    let at = |left| {
        top(WindowReplyBody {
            window_id: Some(1),
            bounds: Some(BoundsReply {
                left: Some(left),
                width: Some(1280),
            }),
        })
    };
    assert!(!needs_minimize_after_offscreen(&at(-32000)));
    assert!(!needs_minimize_after_offscreen(&at(-16000)));
    assert!(needs_minimize_after_offscreen(&at(-15999)));
    assert!(needs_minimize_after_offscreen(&top(EMPTY_BODY)));
}

#[test]
fn parse_daemon_options_defaults_to_headed() {
    let options = parse_daemon_options(&Vec::new()).unwrap();
    assert_eq!(options, RunOptions::headed());
}

#[test]
fn parse_daemon_options_accepts_offscreen() {
    let options = parse_daemon_options(&vec!["--offscreen".to_string()]).unwrap();
    assert_eq!(options, RunOptions::offscreen());
}

#[test]
fn parse_daemon_options_rejects_unknown_flags() {
    let err = parse_daemon_options(&vec!["--headless".to_string()]).unwrap_err();
    assert!(err.message().contains("unknown daemon option"));
    assert_eq!(err.message(), "unknown daemon option: --headless");
}

#[test]
fn spawner_options_read_back_as_the_same_presentation() {
    for v in [Visibility::Headed, Visibility::Offscreen] {
        let parsed = parse_daemon_options(&daemon_option_args(v)).unwrap();
        assert_eq!(parsed.presentation, v);
    }
}

const DEAD_PID: u32 = 0x7FFF_FFFE;

#[test]
fn live_socket_none_when_no_session_file() {
    assert!(live_socket(&None, false, false).is_none());
}

#[test]
fn live_socket_none_for_stale_pid() {
    let info = Some(SessionInfo {
        pid: DEAD_PID,
        sock: "/tmp/nope.sock".into(),
        started_at: 0,
    });
    assert!(live_socket(&info, false, false).is_none());
}
