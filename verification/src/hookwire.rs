//! The hook client and relay daemon's decision logic: which endpoint an
//! event goes to, the timeouts it gets, whether the upstream body is echoed
//! to stdout, and what the relay answers when the upstream is unreachable.
//! The sockets themselves live in the shell.

use vstd::prelude::*;
use vstd::string::StrSliceExecFns;
use crate::chars::{chars_eq_str, str_to_chars};
use crate::numtext::{spec_scan_u64, scan_u64};

verus! {

/// The default port of the core server; the relay listens one above it.
pub const DEFAULT_PORT: u16 = 15924;

/// Where a hook event is forwarded.
#[derive(Clone, Copy, Debug, PartialEq, Eq, Structural)]
pub enum Endpoint {
    /// `POST /api/hook?event=<e>` — lightweight status update.
    Hook,
    /// `POST /api/pre-tool-check` — long-poll tool check.
    PreToolCheck,
    /// `POST /api/permission-request` — long-poll permission gate.
    PermissionRequest,
    /// `POST /api/signal` — the full event pipeline.
    Signal,
}

/// The route table: prompts go to the light endpoint, tool checks and
/// permission requests long-poll, everything else is a full signal.
pub open spec fn spec_route_for_event(name: Seq<char>) -> Endpoint {
    if name == "user_prompt"@ {
        Endpoint::Hook
    } else if name == "pre_tool"@ {
        Endpoint::PreToolCheck
    } else if name == "permission_request"@ {
        Endpoint::PermissionRequest
    } else {
        Endpoint::Signal
    }
}

pub fn route_for_event(name: &str) -> (r: Endpoint)
    ensures
        r == spec_route_for_event(name@),
{
    let v = str_to_chars(name);
    if chars_eq_str(&v, "user_prompt") {
        Endpoint::Hook
    } else if chars_eq_str(&v, "pre_tool") {
        Endpoint::PreToolCheck
    } else if chars_eq_str(&v, "permission_request") {
        Endpoint::PermissionRequest
    } else {
        Endpoint::Signal
    }
}

/// Whether an event's upstream response is echoed to stdout (the blocking
/// agent reads the decision there).
pub open spec fn spec_echoes_response(name: Seq<char>) -> bool {
    name == "permission_request"@ || name == "pre_tool"@
}

pub fn echoes_response(name: &str) -> (r: bool)
    ensures
        r == spec_echoes_response(name@),
{
    let v = str_to_chars(name);
    chars_eq_str(&v, "permission_request") || chars_eq_str(&v, "pre_tool")
}

/// The relay's per-connection read timeout, in seconds: long-poll events
/// may block for many minutes, the rest answer fast.
pub open spec fn spec_relay_read_timeout_secs(name: Seq<char>) -> u64 {
    if spec_echoes_response(name) {
        660u64
    } else {
        5u64
    }
}

pub fn relay_read_timeout_secs(name: &str) -> (r: u64)
    ensures
        r == spec_relay_read_timeout_secs(name@),
{
    if echoes_response(name) {
        660
    } else {
        5
    }
}

/// The direct-HTTP fallback timeout, in seconds.
pub open spec fn spec_direct_timeout_secs(name: Seq<char>) -> u64 {
    if spec_echoes_response(name) {
        660u64
    } else {
        3u64
    }
}

pub fn direct_timeout_secs(name: &str) -> (r: u64)
    ensures
        r == spec_direct_timeout_secs(name@),
{
    if echoes_response(name) {
        660
    } else {
        3
    }
}

/// What the relay answers when the upstream call fails: a short error for
/// light events, an empty line for the blocking ones so the agent falls
/// back to its own behavior.
pub open spec fn spec_upstream_error_reply(e: Endpoint) -> Seq<char> {
    match e {
        Endpoint::PreToolCheck => Seq::empty(),
        Endpoint::PermissionRequest => Seq::empty(),
        _ => "{\"ok\":false}"@,
    }
}

pub fn upstream_error_reply(e: Endpoint) -> (r: &'static str)
    ensures
        r@ == spec_upstream_error_reply(e),
{
    proof {
        reveal_strlit("");
        assert(""@ =~= Seq::<char>::empty());
    }
    match e {
        Endpoint::PreToolCheck | Endpoint::PermissionRequest => "",
        _ => "{\"ok\":false}",
    }
}

/// The hook binary's parsed command line.
#[derive(Clone, Debug)]
pub struct HookCliArgs {
    pub event: String,
    pub port: u16,
    pub daemon: bool,
}

/// A whole-string decimal port number; anything else gives the default.
pub open spec fn spec_parse_port(s: Seq<char>) -> u16 {
    match spec_scan_u64(s) {
        Some(p) => if p.1.len() == 0 && p.0 <= 65535 {
            p.0 as u16
        } else {
            DEFAULT_PORT
        },
        None => DEFAULT_PORT,
    }
}

/// Parses a port argument; a malformed or out-of-range value falls back to
/// the default port.
pub fn parse_port(s: &str) -> (r: u16)
    ensures
        r == spec_parse_port(s@),
{
    let v = str_to_chars(s);
    proof {
        assert(v@.skip(0) =~= v@);
    }
    match scan_u64(&v, 0) {
        Some((val, end)) => {
            if end == v.len() && val <= 65535 {
                proof {
                    assert(v@.skip(end as int).len() == 0);
                }
                val as u16
            } else {
                proof {
                    if end < v.len() {
                        assert(v@.skip(end as int).len() > 0);
                    }
                }
                DEFAULT_PORT
            }
        },
        None => DEFAULT_PORT,
    }
}

/// The hook binary's argument loop: `--event <name>`, `--port <p>`,
/// `--daemon`; unknown arguments are ignored, a flag without its value
/// leaves the setting as it was.
pub open spec fn spec_parse_args(
    args: Seq<Seq<char>>,
    i: int,
    event: Seq<char>,
    port: u16,
    daemon: bool,
) -> (Seq<char>, u16, bool)
    decreases args.len() - i,
{
    if i < 0 || i >= args.len() {
        (event, port, daemon)
    } else if args[i] == "--event"@ || args[i] == "-e"@ {
        if i + 1 < args.len() {
            spec_parse_args(args, i + 2, args[i + 1], port, daemon)
        } else {
            (event, port, daemon)
        }
    } else if args[i] == "--port"@ || args[i] == "-p"@ {
        if i + 1 < args.len() {
            spec_parse_args(args, i + 2, event, spec_parse_port(args[i + 1]), daemon)
        } else {
            (event, port, daemon)
        }
    } else if args[i] == "--daemon"@ {
        spec_parse_args(args, i + 1, event, port, true)
    } else {
        spec_parse_args(args, i + 1, event, port, daemon)
    }
}

/// The views of the argument strings.
pub open spec fn spec_arg_views(args: Seq<String>) -> Seq<Seq<char>> {
    args.map_values(|a: String| a@)
}

/// Parses the hook binary's command line, ignoring the program name in
/// `args[0]`.
pub fn parse_args(args: &Vec<String>) -> (r: HookCliArgs)
    ensures
        (r.event@, r.port, r.daemon) == spec_parse_args(
            spec_arg_views(args@),
            1,
            Seq::<char>::empty(),
            DEFAULT_PORT,
            false,
        ),
{
    let mut event = String::new();
    let mut port: u16 = DEFAULT_PORT;
    let mut daemon = false;
    let mut i: usize = 1;
    let n = args.len();
    while i < n
        invariant
            1 <= i,
            n == args@.len(),
            spec_parse_args(
                spec_arg_views(args@),
                1,
                Seq::<char>::empty(),
                DEFAULT_PORT,
                false,
            ) == spec_parse_args(spec_arg_views(args@), i as int, event@, port, daemon),
        decreases n - i,
    {
        let a = str_to_chars(args[i].as_str());
        proof {
            assert(spec_arg_views(args@)[i as int] == args@[i as int]@);
        }
        if chars_eq_str(&a, "--event") || chars_eq_str(&a, "-e") {
            if i + 1 < n {
                proof {
                    assert(spec_arg_views(args@)[i + 1] == args@[i + 1]@);
                }
                event = args[i + 1].clone();
                i += 2;
            } else {
                i += 1;
                proof {
                    assert(spec_parse_args(
                        spec_arg_views(args@),
                        (i - 1) as int,
                        event@,
                        port,
                        daemon,
                    ) == (event@, port, daemon));
                }
                return HookCliArgs { event, port, daemon };
            }
        } else if chars_eq_str(&a, "--port") || chars_eq_str(&a, "-p") {
            if i + 1 < n {
                proof {
                    assert(spec_arg_views(args@)[i + 1] == args@[i + 1]@);
                }
                port = parse_port(args[i + 1].as_str());
                i += 2;
            } else {
                i += 1;
                proof {
                    assert(spec_parse_args(
                        spec_arg_views(args@),
                        (i - 1) as int,
                        event@,
                        port,
                        daemon,
                    ) == (event@, port, daemon));
                }
                return HookCliArgs { event, port, daemon };
            }
        } else if chars_eq_str(&a, "--daemon") {
            daemon = true;
            i += 1;
        } else {
            i += 1;
        }
    }
    HookCliArgs { event, port, daemon }
}

} // verus!
