//! Dispatch: what the daemon decides when a request arrives, before any
//! record is created. Requests with the internal origin tag skip window
//! resolution; all others resolve a source window against the live window
//! catalog and are silently dropped when that window is already focused —
//! repeated nagging while the user is already looking is suppressed by
//! design.

use vstd::prelude::*;
use vstd::string::StringExecFns;
use crate::request::{NotifyRequest, NotifyRequestView, spec_is_internal_source};
use crate::resolver::{
    WindowInfo,
    spec_best_window,
    spec_title_of,
    find_source_window,
    get_window_title,
    is_hwnd_focused,
};
use crate::text::{spec_dec_digits, u32_to_string, str_eq};

verus! {

/// What the daemon will show for a request: the resolved title, the resolved
/// source window handle (0 when none was found), and the chain the record
/// keeps for later activation.
#[derive(Clone, Debug)]
pub struct PlannedToast {
    pub window_title: String,
    pub source_hwnd: isize,
    pub process_tree: Vec<u32>,
}

/// The mathematical value of a planned toast.
pub struct PlannedToastView {
    pub window_title: Seq<char>,
    pub source_hwnd: isize,
    pub process_tree: Seq<u32>,
}

impl View for PlannedToast {
    type V = PlannedToastView;

    open spec fn view(&self) -> PlannedToastView {
        PlannedToastView {
            window_title: self.window_title@,
            source_hwnd: self.source_hwnd,
            process_tree: self.process_tree@,
        }
    }
}

/// The chain a request is resolved against: the pre-walked chain it carries
/// when that has more than one entry, else the chain walked on arrival.
pub open spec fn spec_effective_tree(req: NotifyRequestView, walked: Seq<u32>) -> Seq<u32> {
    match req.process_tree {
        Option::Some(t) => if t.len() > 1 {
            t
        } else {
            walked
        },
        Option::None => walked,
    }
}

/// The numeric-pid fallback title, used when no source window was resolved.
pub open spec fn spec_pid_fallback_title(pid: u32) -> Seq<char> {
    "PID "@ + spec_dec_digits(pid as nat)
}

/// The title a record displays: in project mode the hint when one was given;
/// otherwise the resolved window's title, falling back to the numeric pid
/// when no window was resolved.
pub open spec fn spec_display_title(
    mode_project: bool,
    hint: Option<Seq<char>>,
    hwnd: isize,
    windows: Seq<WindowInfo>,
    pid: u32,
) -> Seq<char> {
    if mode_project && hint is Some {
        hint->0
    } else if hwnd != 0 {
        match spec_title_of(windows, hwnd) {
            Option::Some(t) => t,
            Option::None => Seq::empty(),
        }
    } else {
        spec_pid_fallback_title(pid)
    }
}

/// What dispatch decides for a request: `None` when the request is dropped
/// because its resolved source window is already focused, otherwise the
/// planned toast.
pub open spec fn spec_plan(
    req: NotifyRequestView,
    walked: Seq<u32>,
    windows: Seq<WindowInfo>,
    foreground: isize,
    mode_project: bool,
) -> Option<PlannedToastView> {
    if spec_is_internal_source(req.source) {
        Some(
            PlannedToastView {
                window_title: match req.title_hint {
                    Option::Some(h) => h,
                    Option::None => "Agent Toast"@,
                },
                source_hwnd: 0,
                process_tree: Seq::empty(),
            },
        )
    } else {
        let tree = spec_effective_tree(req, walked);
        let best = spec_best_window(windows, tree, req.title_hint);
        let hwnd = match best {
            Option::Some(c) => c.0,
            Option::None => 0,
        };
        if hwnd != 0 && foreground != 0 && foreground == hwnd {
            None
        } else {
            Some(
                PlannedToastView {
                    window_title: spec_display_title(
                        mode_project,
                        req.title_hint,
                        hwnd,
                        windows,
                        req.pid,
                    ),
                    source_hwnd: hwnd,
                    process_tree: tree,
                },
            )
        }
    }
}

/// When the resolved source window is already focused at dispatch, the plan
/// is `None`: no record is created and no display occurs.
pub proof fn lemma_focused_request_suppressed(
    req: NotifyRequestView,
    walked: Seq<u32>,
    windows: Seq<WindowInfo>,
    foreground: isize,
    mode_project: bool,
)
    requires
        !spec_is_internal_source(req.source),
        ({
            let tree = spec_effective_tree(req, walked);
            let hwnd = match spec_best_window(windows, tree, req.title_hint) {
                Option::Some(c) => c.0,
                Option::None => 0,
            };
            hwnd != 0 && foreground != 0 && foreground == hwnd
        }),
    ensures
        spec_plan(req, walked, windows, foreground, mode_project) is None,
{
}

/// Decide what to show for a request: resolve its source window against the
/// window catalog (unless its origin tag is the internal one), drop it when
/// that window is already in the foreground, and resolve the display title.
pub fn plan_notification(
    req: &NotifyRequest,
    walked_tree: Vec<u32>,
    windows: &Vec<WindowInfo>,
    foreground: isize,
    title_mode_project: bool,
) -> (r: Option<PlannedToast>)
    ensures
        (match r {
            Option::Some(p) => Some(p@),
            Option::None => None::<PlannedToastView>,
        }) == spec_plan(req@, walked_tree@, windows@, foreground, title_mode_project),
{
    if str_eq(req.source.as_str(), "updater") {
        let window_title = match &req.title_hint {
            Option::Some(h) => h.clone(),
            Option::None => String::from_str("Agent Toast"),
        };
        return Some(PlannedToast { window_title, source_hwnd: 0, process_tree: Vec::new() });
    }
    let tree: Vec<u32> = match &req.process_tree {
        Option::Some(t) => {
            if t.len() > 1 {
                let c = t.clone();
                proof {
                    assert(c@ =~= t@);
                }
                c
            } else {
                walked_tree
            }
        },
        Option::None => walked_tree,
    };
    let title_hint: Option<&str> = match &req.title_hint {
        Option::Some(h) => Some(h.as_str()),
        Option::None => None,
    };
    let (_, best) = find_source_window(&tree, title_hint, windows);
    let hwnd: isize = match best {
        Option::Some(c) => c.0,
        Option::None => 0,
    };
    if is_hwnd_focused(hwnd, foreground) {
        return None;
    }
    let window_title = display_title(title_mode_project, &req.title_hint, hwnd, windows, req.pid);
    Some(PlannedToast { window_title, source_hwnd: hwnd, process_tree: tree })
}

/// Resolve the title a record displays.
fn display_title(
    mode_project: bool,
    hint: &Option<String>,
    hwnd: isize,
    windows: &Vec<WindowInfo>,
    pid: u32,
) -> (t: String)
    ensures
        t@ == spec_display_title(
            mode_project,
            match hint {
                Option::Some(h) => Some(h@),
                Option::None => None::<Seq<char>>,
            },
            hwnd,
            windows@,
            pid,
        ),
{
    if mode_project {
        match hint {
            Option::Some(h) => {
                return h.clone();
            },
            Option::None => {},
        }
    }
    if hwnd != 0 {
        get_window_title(windows, hwnd)
    } else {
        let mut t = String::from_str("PID ");
        let digits = u32_to_string(pid);
        t.append(digits.as_str());
        t
    }
}

} // verus!
