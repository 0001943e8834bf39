//! Hook configuration as the setup view edits it, and the extraction of a
//! saved message from a hook command line. Reading and writing the settings
//! file itself, and its format, belong to the settings collaborator in the
//! surrounding program; this module owns the defaults and the command-line
//! text rule.

use vstd::prelude::*;
use vstd::string::StringExecFns;
use crate::text::{
    spec_find_sub,
    spec_find_char,
    find_sub,
    find_char_from,
    str_chars,
    string_from_range,
};

verus! {

/// Hook configuration: which events notify, with what message, and how
/// notifications display.
#[derive(Clone, Debug)]
pub struct HookConfig {
    pub stop_enabled: bool,
    pub stop_message: String,
    pub notification_permission_enabled: bool,
    pub notification_permission_message: String,
    pub notification_elicitation_enabled: bool,
    pub notification_elicitation_message: String,
    pub setup_enabled: bool,
    pub setup_message: String,
    pub session_start_enabled: bool,
    pub session_start_message: String,
    pub session_end_enabled: bool,
    pub session_end_message: String,
    pub subagent_start_enabled: bool,
    pub subagent_start_message: String,
    pub subagent_stop_enabled: bool,
    pub subagent_stop_message: String,
    pub user_prompt_submit_enabled: bool,
    pub user_prompt_submit_message: String,
    pub permission_request_enabled: bool,
    pub permission_request_message: String,
    pub pre_tool_use_enabled: bool,
    pub pre_tool_use_message: String,
    pub post_tool_use_enabled: bool,
    pub post_tool_use_message: String,
    pub post_tool_use_failure_enabled: bool,
    pub post_tool_use_failure_message: String,
    pub pre_compact_enabled: bool,
    pub pre_compact_message: String,
    pub notification_idle_enabled: bool,
    pub notification_idle_message: String,
    /// `project`: prefer the title hint; `window`: the window title as-is.
    pub title_display_mode: String,
    /// Auto-close a record when its source window regains focus.
    pub auto_close_on_focus: bool,
    /// Seconds before a toast dismisses itself; 0 keeps it.
    pub auto_dismiss_seconds: u32,
    /// Corner the stack grows from: one of the four corner names.
    pub notification_position: String,
    /// Play a sound when a toast appears.
    pub notification_sound: bool,
    /// Monitor the stack displays on: `primary` or an index.
    pub notification_monitor: String,
    /// Interface locale.
    pub locale: String,
    /// Whether the second agent's notify hook is wired up.
    pub codex_enabled: bool,
}

/// What the display and behavior settings default to.
pub open spec fn spec_default_display_settings(c: HookConfig) -> bool {
    &&& c.title_display_mode@ == "project"@
    &&& c.auto_close_on_focus == true
    &&& c.auto_dismiss_seconds == 0
    &&& c.notification_position@ == "bottom_right"@
    &&& c.notification_sound == true
    &&& c.notification_monitor@ == "primary"@
    &&& c.locale@ == "ko"@
    &&& c.codex_enabled == false
}

/// The message texts a default configuration carries.
pub open spec fn spec_default_messages(c: HookConfig) -> bool {
    &&& c.stop_message@ == "작업이 완료되었습니다"@
    &&& c.notification_permission_message@ == "권한 승인이 필요합니다"@
    &&& c.notification_elicitation_message@ == "입력이 필요합니다"@
    &&& c.setup_message@ == "초기화가 실행되었습니다"@
    &&& c.session_start_message@ == "세션이 시작되었습니다"@
    &&& c.session_end_message@ == "세션이 종료되었습니다"@
    &&& c.subagent_start_message@ == "서브에이전트가 시작되었습니다"@
    &&& c.subagent_stop_message@ == "서브에이전트가 완료되었습니다"@
    &&& c.user_prompt_submit_message@ == "프롬프트가 제출되었습니다"@
    &&& c.permission_request_message@ == "권한 요청이 발생했습니다"@
    &&& c.pre_tool_use_message@ == "도구 실행이 시작됩니다"@
    &&& c.post_tool_use_message@ == "도구 실행이 완료되었습니다"@
    &&& c.post_tool_use_failure_message@ == "도구 실행이 실패했습니다"@
    &&& c.pre_compact_message@ == "컨텍스트 압축이 시작됩니다"@
    &&& c.notification_idle_message@ == "입력을 기다리고 있습니다"@
}

/// Which hooks a default configuration enables: the three recommended ones
/// and nothing else.
pub open spec fn spec_default_enabled_hooks(c: HookConfig) -> bool {
    &&& c.stop_enabled == true
    &&& c.notification_permission_enabled == true
    &&& c.notification_elicitation_enabled == true
    &&& c.setup_enabled == false
    &&& c.session_start_enabled == false
    &&& c.session_end_enabled == false
    &&& c.subagent_start_enabled == false
    &&& c.subagent_stop_enabled == false
    &&& c.user_prompt_submit_enabled == false
    &&& c.permission_request_enabled == false
    &&& c.pre_tool_use_enabled == false
    &&& c.post_tool_use_enabled == false
    &&& c.post_tool_use_failure_enabled == false
    &&& c.pre_compact_enabled == false
    &&& c.notification_idle_enabled == false
}

impl Default for HookConfig {
    /// The recommended hooks on, everything else off, and the documented
    /// display defaults.
    fn default() -> (c: HookConfig)
        ensures
            spec_default_enabled_hooks(c),
            spec_default_display_settings(c),
            spec_default_messages(c),
    {
        HookConfig {
            stop_enabled: true,
            stop_message: String::from_str("작업이 완료되었습니다"),
            notification_permission_enabled: true,
            notification_permission_message: String::from_str("권한 승인이 필요합니다"),
            notification_elicitation_enabled: true,
            notification_elicitation_message: String::from_str("입력이 필요합니다"),
            setup_enabled: false,
            setup_message: String::from_str("초기화가 실행되었습니다"),
            session_start_enabled: false,
            session_start_message: String::from_str("세션이 시작되었습니다"),
            session_end_enabled: false,
            session_end_message: String::from_str("세션이 종료되었습니다"),
            subagent_start_enabled: false,
            subagent_start_message: String::from_str("서브에이전트가 시작되었습니다"),
            subagent_stop_enabled: false,
            subagent_stop_message: String::from_str("서브에이전트가 완료되었습니다"),
            user_prompt_submit_enabled: false,
            user_prompt_submit_message: String::from_str("프롬프트가 제출되었습니다"),
            permission_request_enabled: false,
            permission_request_message: String::from_str("권한 요청이 발생했습니다"),
            pre_tool_use_enabled: false,
            pre_tool_use_message: String::from_str("도구 실행이 시작됩니다"),
            post_tool_use_enabled: false,
            post_tool_use_message: String::from_str("도구 실행이 완료되었습니다"),
            post_tool_use_failure_enabled: false,
            post_tool_use_failure_message: String::from_str("도구 실행이 실패했습니다"),
            pre_compact_enabled: false,
            pre_compact_message: String::from_str("컨텍스트 압축이 시작됩니다"),
            notification_idle_enabled: false,
            notification_idle_message: String::from_str("입력을 기다리고 있습니다"),
            title_display_mode: String::from_str("project"),
            auto_close_on_focus: true,
            auto_dismiss_seconds: 0,
            notification_position: String::from_str("bottom_right"),
            notification_sound: true,
            notification_monitor: String::from_str("primary"),
            locale: String::from_str("ko"),
            codex_enabled: false,
        }
    }
}

/// What the title display mode defaults to.
pub fn default_title_display_mode() -> (s: String)
    ensures
        s@ == "project"@,
{
    String::from_str("project")
}

/// What auto-close-on-focus defaults to.
pub fn default_auto_close_on_focus() -> (b: bool)
    ensures
        b == true,
{
    true
}

/// What the auto-dismiss delay defaults to: toasts stay.
pub fn default_auto_dismiss_seconds() -> (n: u32)
    ensures
        n == 0,
{
    0
}

/// What the stack corner defaults to.
pub fn default_notification_position() -> (s: String)
    ensures
        s@ == "bottom_right"@,
{
    String::from_str("bottom_right")
}

/// What the sound setting defaults to.
pub fn default_notification_sound() -> (b: bool)
    ensures
        b == true,
{
    true
}

/// What the target monitor defaults to.
pub fn default_notification_monitor() -> (s: String)
    ensures
        s@ == "primary"@,
{
    String::from_str("primary")
}

/// What the interface locale defaults to.
pub fn default_locale() -> (s: String)
    ensures
        s@ == "ko"@,
{
    String::from_str("ko")
}

/// The value a quoted message pattern extracts from a command line: the text
/// between the end of the pattern's opening quote and the next quote.
pub open spec fn spec_quoted_after(cmd: Seq<char>, pat: Seq<char>) -> Option<Seq<char>> {
    match spec_find_sub(cmd, pat) {
        Option::None => None,
        Option::Some(i) => {
            let rest = cmd.skip(i + pat.len());
            match spec_find_char(rest, '"') {
                Option::None => None,
                Option::Some(e) => Some(rest.subrange(0, e)),
            }
        },
    }
}

/// The message a hook command line carries: the double-quoted forms
/// `--message="..."` and `--message "..."` first, then the unquoted
/// `--message=...` up to the next space. A literal single quote is part of
/// the value, not stripped.
pub open spec fn spec_extract_message(cmd: Seq<char>) -> Option<Seq<char>> {
    if spec_quoted_after(cmd, "--message=\""@) is Some {
        spec_quoted_after(cmd, "--message=\""@)
    } else if spec_quoted_after(cmd, "--message \""@) is Some {
        spec_quoted_after(cmd, "--message \""@)
    } else {
        match spec_find_sub(cmd, "--message="@) {
            Option::None => None,
            Option::Some(i) => {
                let rest = cmd.skip(i + "--message="@.len());
                let e = match spec_find_char(rest, ' ') {
                    Option::Some(e) => e,
                    Option::None => rest.len() as int,
                };
                Some(rest.subrange(0, e))
            },
        }
    }
}

/// Extract the value of a quoted message pattern, if the pattern and a
/// closing quote both occur.
fn quoted_after(chars: &Vec<char>, pat: &str) -> (r: Option<String>)
    ensures
        match r {
            Option::Some(s) => spec_quoted_after(chars@, pat@) == Some(s@),
            Option::None => spec_quoted_after(chars@, pat@) is None,
        },
{
    let pat_chars = str_chars(pat);
    let start = match find_sub(chars, &pat_chars) {
        Option::Some(i) => i,
        Option::None => {
            return None;
        },
    };
    let total = chars.len();
    proof {
        crate::text::lemma_find_sub_first(chars@, pat_chars@);
    }
    let rest_start = start + pat_chars.len();
    proof {
        assert(chars@.skip(rest_start as int) =~= chars@.skip(start + pat@.len()));
    }
    match find_char_from(chars, rest_start, '"') {
        Option::Some(e) => {
            proof {
                assert(chars@.skip(rest_start as int).subrange(0, e - rest_start) =~= chars@.subrange(
                    rest_start as int,
                    e as int,
                ));
            }
            Some(string_from_range(chars, rest_start, e))
        },
        Option::None => None,
    }
}

/// Extract the `--message` value from a hook command line: quoted forms
/// first, then the unquoted form up to the next space. A literal single
/// quote is treated as part of the value, as the saved commands have it.
pub fn extract_message(cmd: &str) -> (r: Option<String>)
    ensures
        match r {
            Option::Some(s) => spec_extract_message(cmd@) == Some(s@),
            Option::None => spec_extract_message(cmd@) is None,
        },
{
    let chars = str_chars(cmd);
    match quoted_after(&chars, "--message=\"") {
        Option::Some(s) => {
            return Some(s);
        },
        Option::None => {},
    }
    match quoted_after(&chars, "--message \"") {
        Option::Some(s) => {
            return Some(s);
        },
        Option::None => {},
    }
    let pat_chars = str_chars("--message=");
    let start = match find_sub(&chars, &pat_chars) {
        Option::Some(i) => i,
        Option::None => {
            return None;
        },
    };
    let total = chars.len();
    proof {
        crate::text::lemma_find_sub_first(chars@, pat_chars@);
    }
    let rest_start = start + pat_chars.len();
    proof {
        assert(chars@.skip(rest_start as int) =~= chars@.skip(start + "--message="@.len()));
    }
    let e = match find_char_from(&chars, rest_start, ' ') {
        Option::Some(e) => e,
        Option::None => chars.len(),
    };
    proof {
        assert(chars@.skip(rest_start as int).subrange(0, e - rest_start) =~= chars@.subrange(
            rest_start as int,
            e as int,
        ));
    }
    Some(string_from_range(&chars, rest_start, e))
}

} // verus!
