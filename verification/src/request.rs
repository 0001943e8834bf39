//! The notification request: what one invocation asks the daemon to show.
//!
//! A request carries no window handle — resolution always happens on the
//! daemon's side, at display time, against live window state. It may carry a
//! pre-walked ancestry chain, computed while the source process was known to
//! be alive, which the daemon trusts over re-walking when it has more than
//! one entry.

use vstd::prelude::*;
use vstd::string::{StringExecFns, StrSliceExecFns};
use crate::text::{spec_parse_u32, parse_u32_range, str_chars, str_eq};

verus! {

/// A request to show one notification.
#[derive(Clone, Debug)]
pub struct NotifyRequest {
    pub pid: u32,
    pub event: String,
    pub message: Option<String>,
    pub title_hint: Option<String>,
    /// Pre-walked ancestry chain from the sender's side, trusted over
    /// re-walking when present with more than one entry.
    pub process_tree: Option<Vec<u32>>,
    /// Origin tag of the sender, from a small closed trust set.
    pub source: String,
}

/// The mathematical value of a request.
pub struct NotifyRequestView {
    pub pid: u32,
    pub event: Seq<char>,
    pub message: Option<Seq<char>>,
    pub title_hint: Option<Seq<char>>,
    pub process_tree: Option<Seq<u32>>,
    pub source: Seq<char>,
}

impl View for NotifyRequest {
    type V = NotifyRequestView;

    open spec fn view(&self) -> NotifyRequestView {
        NotifyRequestView {
            pid: self.pid,
            event: self.event@,
            message: match self.message {
                Option::Some(m) => Some(m@),
                Option::None => None,
            },
            title_hint: match self.title_hint {
                Option::Some(t) => Some(t@),
                Option::None => None,
            },
            process_tree: match self.process_tree {
                Option::Some(t) => Some(t@),
                Option::None => None,
            },
            source: self.source@,
        }
    }
}

/// Origin tag a request defaults to when the sender names none.
pub fn default_source() -> (s: String)
    ensures
        s@ == "agent"@,
{
    String::from_str("agent")
}

/// The internal-only origin tag: requests the daemon generates for itself.
/// They have no real source window and skip resolution.
pub open spec fn spec_is_internal_source(source: Seq<char>) -> bool {
    source == "updater"@
}

impl NotifyRequest {
    /// The event key as displayed; the renderer translates it itself.
    pub fn event_display(&self) -> (r: &str)
        ensures
            r@ == self.event@,
    {
        self.event.as_str()
    }
}

/// Command-line arguments of one invocation.
#[derive(Clone, Debug)]
pub struct Cli {
    /// Pid of the source terminal or editor; defaults to the parent process.
    pub pid: Option<u32>,
    /// Event key.
    pub event: Option<String>,
    /// Message text.
    pub message: Option<String>,
    /// Window title hint for matching the source window.
    pub title: Option<String>,
    /// Start as the background daemon, showing nothing.
    pub daemon: bool,
    /// Open the hook setup view.
    pub setup: bool,
    /// Read the second agent's notify payload from the positional argument.
    pub codex: bool,
    /// The positional payload argument.
    pub codex_json: Option<String>,
}

/// The mathematical value of parsed arguments.
pub struct CliView {
    pub pid: Option<u32>,
    pub event: Option<Seq<char>>,
    pub message: Option<Seq<char>>,
    pub title: Option<Seq<char>>,
    pub daemon: bool,
    pub setup: bool,
    pub codex: bool,
    pub codex_json: Option<Seq<char>>,
}

/// The value of an optional string.
pub open spec fn spec_opt_string(o: Option<String>) -> Option<Seq<char>> {
    match o {
        Option::Some(s) => Some(s@),
        Option::None => None,
    }
}

impl View for Cli {
    type V = CliView;

    open spec fn view(&self) -> CliView {
        CliView {
            pid: self.pid,
            event: spec_opt_string(self.event),
            message: spec_opt_string(self.message),
            title: spec_opt_string(self.title),
            daemon: self.daemon,
            setup: self.setup,
            codex: self.codex,
            codex_json: spec_opt_string(self.codex_json),
        }
    }
}

/// Why an argument list was rejected.
#[derive(PartialEq, Eq, Structural, Debug, Clone, Copy)]
pub enum CliError {
    /// A flag that takes a value came last.
    MissingValue,
    /// The value of `--pid` is not an unsigned decimal number in range.
    InvalidPid,
    /// An unknown flag, or a second positional argument.
    UnexpectedArgument,
}

/// Arguments before any were read.
pub open spec fn spec_empty_cli() -> CliView {
    CliView {
        pid: None,
        event: None,
        message: None,
        title: None,
        daemon: false,
        setup: false,
        codex: false,
        codex_json: None,
    }
}

/// The arguments read so far extended by those still pending: flags set
/// their field, value flags consume the next argument, the first bare
/// argument is the positional payload. An unknown flag, a missing or
/// unreadable value, or a second bare argument rejects the list.
pub open spec fn spec_parse_args(args: Seq<Seq<char>>, acc: CliView) -> Option<CliView>
    decreases args.len(),
{
    if args.len() == 0 {
        Some(acc)
    } else {
        let a = args[0];
        if a == "--daemon"@ {
            spec_parse_args(args.drop_first(), CliView { daemon: true, ..acc })
        } else if a == "--setup"@ {
            spec_parse_args(args.drop_first(), CliView { setup: true, ..acc })
        } else if a == "--codex"@ {
            spec_parse_args(args.drop_first(), CliView { codex: true, ..acc })
        } else if a == "--pid"@ {
            if args.len() < 2 {
                None
            } else {
                match spec_parse_u32(args[1]) {
                    Option::None => None,
                    Option::Some(p) => spec_parse_args(
                        args.skip(2),
                        CliView { pid: Some(p), ..acc },
                    ),
                }
            }
        } else if a == "--event"@ {
            if args.len() < 2 {
                None
            } else {
                spec_parse_args(args.skip(2), CliView { event: Some(args[1]), ..acc })
            }
        } else if a == "--message"@ {
            if args.len() < 2 {
                None
            } else {
                spec_parse_args(args.skip(2), CliView { message: Some(args[1]), ..acc })
            }
        } else if a == "--title"@ {
            if args.len() < 2 {
                None
            } else {
                spec_parse_args(args.skip(2), CliView { title: Some(args[1]), ..acc })
            }
        } else if a.len() >= 2 && a[0] == '-' && a[1] == '-' {
            None
        } else if acc.codex_json is None {
            spec_parse_args(args.drop_first(), CliView { codex_json: Some(a), ..acc })
        } else {
            None
        }
    }
}

/// The values of a list of argument strings.
pub open spec fn spec_arg_views(args: Seq<&str>) -> Seq<Seq<char>> {
    Seq::new(args.len(), |i: int| args[i]@)
}

/// What an argument list parses to: the first entry is the program's own
/// name and is skipped.
pub open spec fn spec_parse_cli(args: Seq<Seq<char>>) -> Option<CliView> {
    if args.len() == 0 {
        Some(spec_empty_cli())
    } else {
        spec_parse_args(args.drop_first(), spec_empty_cli())
    }
}

impl Cli {
    /// Parse an argument list, the program's own name first.
    #[verifier::rlimit(60)]
    pub fn try_parse_from(args: &[&str]) -> (r: Result<Cli, CliError>)
        ensures
            match r {
                Result::Ok(c) => spec_parse_cli(spec_arg_views(args@)) == Some(c@),
                Result::Err(_) => spec_parse_cli(spec_arg_views(args@)) is None,
            },
    {
        let ghost all = spec_arg_views(args@);
        let n = args.len();
        let mut cli = Cli {
            pid: None,
            event: None,
            message: None,
            title: None,
            daemon: false,
            setup: false,
            codex: false,
            codex_json: None,
        };
        let mut i: usize = 1;
        proof {
            if n > 0 {
                assert(all.skip(1) =~= all.drop_first());
            }
            assert(cli@ == spec_empty_cli());
        }
        if n == 0 {
            return Ok(cli);
        }
        while i < n
            invariant
                1 <= i <= n,
                n == args@.len(),
                all == spec_arg_views(args@),
                spec_parse_cli(all) == spec_parse_args(all.skip(i as int), cli@),
            decreases n - i,
        {
            let ghost suffix = all.skip(i as int);
            proof {
                assert(suffix[0] == args@[i as int]@);
                assert(suffix.drop_first() =~= all.skip(i + 1));
            }
            let a: &str = args[i];
            if str_eq(a, "--daemon") {
                cli.daemon = true;
                i = i + 1;
            } else if str_eq(a, "--setup") {
                cli.setup = true;
                i = i + 1;
            } else if str_eq(a, "--codex") {
                cli.codex = true;
                i = i + 1;
            } else if str_eq(a, "--pid") {
                if i + 1 >= n {
                    return Err(CliError::MissingValue);
                }
                proof {
                    assert(suffix[1] == args@[i + 1]@);
                    assert(suffix.skip(2) =~= all.skip(i + 2));
                }
                let value = str_chars(args[i + 1]);
                proof {
                    assert(value@.subrange(0, value@.len() as int) =~= value@);
                }
                match parse_u32_range(&value, 0, value.len()) {
                    Option::Some(p) => {
                        cli.pid = Some(p);
                        i = i + 2;
                    },
                    Option::None => {
                        return Err(CliError::InvalidPid);
                    },
                }
            } else if str_eq(a, "--event") {
                if i + 1 >= n {
                    return Err(CliError::MissingValue);
                }
                proof {
                    assert(suffix[1] == args@[i + 1]@);
                    assert(suffix.skip(2) =~= all.skip(i + 2));
                }
                cli.event = Some(String::from_str(args[i + 1]));
                i = i + 2;
            } else if str_eq(a, "--message") {
                if i + 1 >= n {
                    return Err(CliError::MissingValue);
                }
                proof {
                    assert(suffix[1] == args@[i + 1]@);
                    assert(suffix.skip(2) =~= all.skip(i + 2));
                }
                cli.message = Some(String::from_str(args[i + 1]));
                i = i + 2;
            } else if str_eq(a, "--title") {
                if i + 1 >= n {
                    return Err(CliError::MissingValue);
                }
                proof {
                    assert(suffix[1] == args@[i + 1]@);
                    assert(suffix.skip(2) =~= all.skip(i + 2));
                }
                cli.title = Some(String::from_str(args[i + 1]));
                i = i + 2;
            } else if a.unicode_len() >= 2 && a.get_char(0) == '-' && a.get_char(1) == '-' {
                return Err(CliError::UnexpectedArgument);
            } else if cli.codex_json.is_none() {
                cli.codex_json = Some(String::from_str(a));
                i = i + 1;
            } else {
                return Err(CliError::UnexpectedArgument);
            }
        }
        proof {
            assert(all.skip(n as int) =~= Seq::<Seq<char>>::empty());
        }
        Ok(cli)
    }
}

} // verus!
