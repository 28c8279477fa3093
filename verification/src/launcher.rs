//! Process launcher decisions.
//!
//! Launching a session is: resolve or generate the session id, supersede
//! any prior entries for that id, build the child's argument vector and
//! environment plan, and, once the I/O layer has spawned the child and
//! captured its streams, register the process and its input channel.  The
//! spawn itself and the stream capture are I/O; every decision around
//! them is a verified function here.

use vstd::prelude::*;
use vstd::string::StringExecFns;
use crate::process::{StdinManager, ProcessManager, ManagedProcess, SessionInfo, str_eq};

verus! {

/// Parameters of one session launch.
///
/// An empty prompt means a pre-warm launch with no first user turn.  The
/// environment overrides are an ordered list of name/value pairs.
#[derive(Debug, Clone)]
pub struct StartSessionParams {
    pub prompt: String,
    pub cwd: String,
    pub model: Option<String>,
    pub session_id: Option<String>,
    pub allowed_tools: Option<Vec<String>>,
    pub dangerously_skip_permissions: Option<bool>,
    /// When set, resume an existing session instead of starting fresh.
    pub resume_session_id: Option<String>,
    /// Thinking effort level: "off", "low", "medium", "high", or "max".
    pub thinking_level: Option<String>,
    /// Session mode: "ask", "plan", or "auto" (default).
    pub session_mode: Option<String>,
    /// Environment overrides for an API provider switch.
    pub custom_env: Option<Vec<(String, String)>>,
    /// Permission mode for the child.  Anything but the fully
    /// unrestricted mode routes permission prompts through the control
    /// protocol instead of an interactive terminal.
    pub permission_mode: Option<String>,
}

/// The views of a string list.
pub open spec fn str_views(v: Seq<String>) -> Seq<Seq<char>> {
    v.map_values(|s: String| s@)
}

/// The argument vector of one launch, word for word.
///
/// The child always runs in persistent structured-input/structured-output
/// mode with partial events included.  Resume id, model and allowed tools
/// are passed as given.  With the bypass flag the permission system is
/// skipped outright; otherwise the permission mode (default
/// "acceptEdits") is passed, and any mode short of "bypassPermissions"
/// routes tool-use permission prompts through the control protocol.  A
/// session mode of "ask" or "plan" is forwarded; the thinking level is
/// encoded into a settings payload, which must explicitly switch thinking
/// off because the child defaults to on.
/// The fixed leading arguments: persistent structured streams, verbose,
/// partial events included.
pub open spec fn spec_base_args() -> Seq<Seq<char>> {
    seq![
        "--input-format"@,
        "stream-json"@,
        "--output-format"@,
        "stream-json"@,
        "--verbose"@,
        "--include-partial-messages"@,
    ]
}

/// The resume flag, when an existing session is resumed.
pub open spec fn spec_resume_args(p: StartSessionParams) -> Seq<Seq<char>> {
    match p.resume_session_id {
        Option::Some(id) => seq!["--resume"@, id@],
        Option::None => Seq::<Seq<char>>::empty(),
    }
}

/// The model flag, as given.
pub open spec fn spec_model_args(p: StartSessionParams) -> Seq<Seq<char>> {
    match p.model {
        Option::Some(m) => seq!["--model"@, m@],
        Option::None => Seq::<Seq<char>>::empty(),
    }
}

/// One flag per allowed tool, as given.
pub open spec fn spec_tools_args(p: StartSessionParams) -> Seq<Seq<char>> {
    match p.allowed_tools {
        Option::Some(ts) => Seq::new((2 * ts.len()) as nat, |k: int|
            if k % 2 == 0 {
                "--allowedTools"@
            } else {
                ts[k / 2]@
            }),
        Option::None => Seq::<Seq<char>>::empty(),
    }
}

/// The effective permission mode: as given, or "acceptEdits".
pub open spec fn spec_perm_mode(p: StartSessionParams) -> Seq<char> {
    match p.permission_mode {
        Option::Some(m) => m@,
        Option::None => "acceptEdits"@,
    }
}

/// The permission arguments: bypass skips the permission system; any
/// other mode is passed along, and short of the fully unrestricted mode
/// the child routes permission prompts through the control protocol.
pub open spec fn spec_perm_args(p: StartSessionParams) -> Seq<Seq<char>> {
    if p.dangerously_skip_permissions == Option::Some(true) {
        seq!["--dangerously-skip-permissions"@]
    } else if spec_perm_mode(p) == "bypassPermissions"@ {
        seq!["--permission-mode"@, spec_perm_mode(p)]
    } else {
        seq!["--permission-mode"@, spec_perm_mode(p), "--permission-prompt-tool"@, "stdio"@]
    }
}

/// The session-mode flag, forwarded for "ask" and "plan" only.
pub open spec fn spec_mode_args(p: StartSessionParams) -> Seq<Seq<char>> {
    match p.session_mode {
        Option::Some(m) => if m@ == "ask"@ || m@ == "plan"@ {
            seq!["--mode"@, m@]
        } else {
            Seq::<Seq<char>>::empty()
        },
        Option::None => Seq::<Seq<char>>::empty(),
    }
}

/// The settings payload encoding the thinking level (default "high"):
/// thinking is switched off explicitly, since the child defaults to on.
pub open spec fn spec_settings_args(p: StartSessionParams) -> Seq<Seq<char>> {
    let level = match p.thinking_level {
        Option::Some(l) => l@,
        Option::None => "high"@,
    };
    if level == "off"@ {
        seq!["--settings"@, "{\"alwaysThinkingEnabled\":false}"@]
    } else {
        seq!["--settings"@, "{\"alwaysThinkingEnabled\":true}"@]
    }
}

pub open spec fn spec_session_args(p: StartSessionParams) -> Seq<Seq<char>> {
    spec_base_args() + spec_resume_args(p) + spec_model_args(p) + spec_tools_args(p)
        + spec_perm_args(p) + spec_mode_args(p) + spec_settings_args(p)
}

/// Mapping string views commutes with appending one string.
proof fn lemma_str_views_push(v: Seq<String>, s: String)
    ensures
        str_views(v.push(s)) == str_views(v).push(s@),
{
    assert(str_views(v.push(s)) =~= str_views(v).push(s@));
}

/// Build the argument vector for one launch.
#[verifier::loop_isolation(false)]
#[verifier::rlimit(80)]
pub fn build_session_args(p: &StartSessionParams) -> (r: Vec<String>)
    ensures
        str_views(r@) == spec_session_args(*p),
{
    let mut args: Vec<String> = Vec::new();
    args.push("--input-format".to_owned());
    args.push("stream-json".to_owned());
    args.push("--output-format".to_owned());
    args.push("stream-json".to_owned());
    args.push("--verbose".to_owned());
    args.push("--include-partial-messages".to_owned());
    proof {
        assert(str_views(args@) =~~= spec_base_args());
    }
    let ghost done1 = spec_base_args() + spec_resume_args(*p);
    match &p.resume_session_id {
        Option::Some(id) => {
            args.push("--resume".to_owned());
            args.push(id.clone());
            proof {
                assert(str_views(args@) =~~= done1);
            }
        },
        Option::None => {
            proof {
                assert(str_views(args@) =~~= done1);
            }
        },
    }
    let ghost done2 = done1 + spec_model_args(*p);
    match &p.model {
        Option::Some(m) => {
            args.push("--model".to_owned());
            args.push(m.clone());
            proof {
                assert(str_views(args@) =~~= done2);
            }
        },
        Option::None => {
            proof {
                assert(str_views(args@) =~~= done2);
            }
        },
    }
    let ghost done3 = done2 + spec_tools_args(*p);
    match &p.allowed_tools {
        Option::Some(ts) => {
            let n: usize = ts.len();
            let mut k: usize = 0;
            proof {
                assert(str_views(args@) =~~= done2 + Seq::new(0nat, |q: int|
                    if q % 2 == 0 {
                        "--allowedTools"@
                    } else {
                        ts@[q / 2]@
                    }));
            }
            while k < n
                invariant
                    k <= n,
                    n == ts@.len(),
                    str_views(args@) == done2 + Seq::new(2 * k as nat, |q: int|
                        if q % 2 == 0 {
                            "--allowedTools"@
                        } else {
                            ts@[q / 2]@
                        }),
                decreases n - k,
            {
                let ghost args_pre = args@;
                args.push("--allowedTools".to_owned());
                args.push(ts[k].clone());
                k += 1;
                proof {
                    let rhs = done2 + Seq::new(2 * k as nat, |q: int|
                        if q % 2 == 0 {
                            "--allowedTools"@
                        } else {
                            ts@[q / 2]@
                        });
                    assert(str_views(args@).len() == rhs.len());
                    assert forall|q: int| 0 <= q < rhs.len() implies str_views(args@)[q]
                        == rhs[q] by {
                        assert(str_views(args@)[q] == args@[q]@);
                        if q < rhs.len() - 2 {
                            assert(args@[q] == args_pre[q]);
                            assert(str_views(args_pre)[q] == args_pre[q]@);
                        }
                    }
                    assert(str_views(args@) =~~= rhs);
                }
            }
            proof {
                assert(Seq::new(2 * n as nat, |q: int|
                    if q % 2 == 0 {
                        "--allowedTools"@
                    } else {
                        ts@[q / 2]@
                    }) =~= spec_tools_args(*p));
            }
        },
        Option::None => {
            proof {
                assert(str_views(args@) =~~= done3);
            }
        },
    }
    proof {
        assert(str_views(args@) == done3);
    }
    let ghost done4 = done3 + spec_perm_args(*p);
    let skip = match &p.dangerously_skip_permissions {
        Option::Some(b) => *b,
        Option::None => false,
    };
    if skip {
        args.push("--dangerously-skip-permissions".to_owned());
        proof {
            assert(str_views(args@) =~~= done4);
        }
    } else {
        args.push("--permission-mode".to_owned());
        let mode: String = match &p.permission_mode {
            Option::Some(m) => m.clone(),
            Option::None => "acceptEdits".to_owned(),
        };
        let bypass = str_eq(mode.as_str(), "bypassPermissions");
        proof {
            assert(mode@ == spec_perm_mode(*p));
        }
        args.push(mode);
        if !bypass {
            args.push("--permission-prompt-tool".to_owned());
            args.push("stdio".to_owned());
        }
        proof {
            assert(str_views(args@) =~~= done4);
        }
    }
    let ghost done5 = done4 + spec_mode_args(*p);
    match &p.session_mode {
        Option::Some(m) => {
            if str_eq(m.as_str(), "ask") || str_eq(m.as_str(), "plan") {
                args.push("--mode".to_owned());
                args.push(m.clone());
            }
            proof {
                assert(str_views(args@) =~~= done5);
            }
        },
        Option::None => {
            proof {
                assert(str_views(args@) =~~= done5);
            }
        },
    }
    let off = match &p.thinking_level {
        Option::Some(l) => str_eq(l.as_str(), "off"),
        Option::None => false,
    };
    args.push("--settings".to_owned());
    if off {
        args.push("{\"alwaysThinkingEnabled\":false}".to_owned());
    } else {
        args.push("{\"alwaysThinkingEnabled\":true}".to_owned());
    }
    proof {
        reveal_strlit("high");
        reveal_strlit("off");
        assert("high"@.len() == 4);
        assert("off"@.len() == 3);
        assert("high"@ != "off"@);
        assert(str_views(args@) =~~= done5 + spec_settings_args(*p));
        assert(done5 + spec_settings_args(*p) == spec_session_args(*p));
    }
    args
}

/// The environment overrides resolved, with the stored-key sentinel
/// replaced: order and names are kept, each value stands unless it is the
/// sentinel, which becomes the stored key.
pub open spec fn spec_resolved_env(
    env: Seq<(String, String)>,
    key: Seq<char>,
) -> Seq<(Seq<char>, Seq<char>)> {
    env.map_values(|p: (String, String)|
        (p.0@, if p.1@ == "USE_STORED_KEY"@ {
            key
        } else {
            p.1@
        }))
}

/// Whether some override value is the stored-key sentinel.
pub open spec fn spec_needs_key(env: Seq<(String, String)>) -> bool {
    exists|k: int| 0 <= k < env.len() && (#[trigger] env[k]).1@ == "USE_STORED_KEY"@
}

/// The views of an environment pair list.
pub open spec fn env_views(v: Seq<(String, String)>) -> Seq<(Seq<char>, Seq<char>)> {
    v.map_values(|p: (String, String)| (p.0@, p.1@))
}

/// Resolve the environment overrides for a launch, substituting the
/// stored API key for the sentinel value.  Fails exactly when the
/// sentinel is used and no key is stored.
#[verifier::loop_isolation(false)]
pub fn resolve_custom_env(custom_env: Option<&Vec<(String, String)>>, stored_key: Option<&str>)
    -> (r: Result<Vec<(String, String)>, String>)
    ensures
        match custom_env {
            Option::None => r matches Result::Ok(out) && out@.len() == 0,
            Option::Some(env) => match r {
                Result::Ok(out) => (spec_needs_key(env@) ==> stored_key is Some) && match stored_key {
                    Option::Some(key) => env_views(out@) == spec_resolved_env(env@, key@),
                    Option::None => env_views(out@) == env_views(env@),
                },
                Result::Err(_) => spec_needs_key(env@) && stored_key is None,
            },
        },
{
    let env = match custom_env {
        Option::Some(env) => env,
        Option::None => {
            return Ok(Vec::new());
        },
    };
    let n: usize = env.len();
    let mut out: Vec<(String, String)> = Vec::new();
    let mut k: usize = 0;
    proof {
        match stored_key {
            Option::Some(key) => {
                assert(env_views(out@) =~~= spec_resolved_env(env@.subrange(0, 0), key@));
            },
            Option::None => {
                assert(env_views(out@) =~~= env_views(env@.subrange(0, 0)));
            },
        }
    }
    while k < n
        invariant
            k <= n,
            n == env@.len(),
            forall|q: int| 0 <= q < k ==> (#[trigger] env@[q]).1@ != "USE_STORED_KEY"@
                || stored_key is Some,
            match stored_key {
                Option::Some(key) => env_views(out@) == spec_resolved_env(
                    env@.subrange(0, k as int),
                    key@,
                ),
                Option::None => env_views(out@) == env_views(env@.subrange(0, k as int)),
            },
        decreases n - k,
    {
        let ghost out_pre = out@;
        let name = env[k].0.clone();
        let value = &env[k].1;
        if str_eq(value.as_str(), "USE_STORED_KEY") {
            match stored_key {
                Option::Some(key) => {
                    out.push((name, key.to_owned()));
                },
                Option::None => {
                    return Err(
                        "API key not configured. Please set it in Settings -> API Provider.".to_owned(),
                    );
                },
            }
        } else {
            out.push((name, value.clone()));
        }
        k += 1;
        proof {
            match stored_key {
                Option::Some(key) => {
                    let cur = env@.subrange(0, k as int);
                    assert(cur.drop_last() =~= env@.subrange(0, k - 1));
                    assert(out@.len() == k);
                    assert(env_views(out@).len() == spec_resolved_env(cur, key@).len());
                    assert forall|q: int| 0 <= q < k implies env_views(out@)[q]
                        == spec_resolved_env(cur, key@)[q] by {
                        assert(env_views(out@)[q] == (out@[q].0@, out@[q].1@));
                        assert(spec_resolved_env(cur, key@)[q] == (cur[q].0@, if cur[q].1@
                            == "USE_STORED_KEY"@ {
                            key@
                        } else {
                            cur[q].1@
                        }));
                        assert(cur[q] == env@[q]);
                        if q < k - 1 {
                            assert(out@[q] == out_pre[q]);
                            assert(env_views(out_pre)[q] == spec_resolved_env(
                                env@.subrange(0, k - 1),
                                key@,
                            )[q]);
                        } else {
                            assert(out@[q].0@ == env@[q].0@);
                            assert(out@[q].1@ == if env@[q].1@ == "USE_STORED_KEY"@ {
                                key@
                            } else {
                                env@[q].1@
                            });
                        }
                    }
                    assert(env_views(out@) =~~= spec_resolved_env(env@.subrange(0, k as int), key@));
                },
                Option::None => {
                    let cur = env@.subrange(0, k as int);
                    assert(out@.len() == k);
                    assert forall|q: int| 0 <= q < k implies env_views(out@)[q] == env_views(
                        cur,
                    )[q] by {
                        assert(cur[q] == env@[q]);
                        if q < k - 1 {
                            assert(out@[q] == out_pre[q]);
                            assert(env_views(out_pre)[q] == env_views(env@.subrange(0, k - 1))[q]);
                            assert(env@.subrange(0, k - 1)[q] == env@[q]);
                        } else {
                            assert(out@[q].0@ == env@[q].0@);
                            assert(out@[q].1@ == env@[q].1@);
                        }
                    }
                    assert(env_views(out@) =~~= env_views(env@.subrange(0, k as int)));
                },
            }
        }
    }
    proof {
        assert(env@.subrange(0, n as int) =~= env@);
    }
    Ok(out)
}

/// The environment plan of one launch: variables to set on the child,
/// and variables to clear explicitly.
#[derive(Debug)]
pub struct LaunchEnv {
    pub set: Vec<(String, String)>,
    pub clear: Vec<String>,
}

/// Whether some pair carries the name.
pub open spec fn spec_env_has(env: Seq<(String, String)>, name: Seq<char>) -> bool {
    exists|k: int| 0 <= k < env.len() && (#[trigger] env[k]).0@ == name
}

/// The effective thinking level: as given, or "high".
pub open spec fn spec_level(p: StartSessionParams) -> Seq<char> {
    match p.thinking_level {
        Option::Some(l) => l@,
        Option::None => "high"@,
    }
}

/// The variables set on the child, name and value: the enriched search
/// path, then the resolved overrides, then the effort level unless
/// thinking is off, then the default output-token cap unless the
/// overrides already set one.
pub open spec fn spec_env_set(
    p: StartSessionParams,
    enriched_path: Seq<char>,
    resolved: Seq<(String, String)>,
) -> Seq<(Seq<char>, Seq<char>)> {
    let effort: Seq<(Seq<char>, Seq<char>)> = if spec_level(p) == "off"@ {
        Seq::empty()
    } else {
        seq![("CLAUDE_CODE_EFFORT_LEVEL"@, spec_level(p))]
    };
    let cap: Seq<(Seq<char>, Seq<char>)> = if spec_env_has(
        resolved,
        "CLAUDE_CODE_MAX_OUTPUT_TOKENS"@,
    ) {
        Seq::empty()
    } else {
        seq![("CLAUDE_CODE_MAX_OUTPUT_TOKENS"@, "64000"@)]
    };
    seq![("PATH"@, enriched_path)] + env_views(resolved) + effort + cap
}

/// Build the environment plan for one launch.
///
/// The "already inside a session" marker variable is always cleared, so
/// the child does not refuse to start when the orchestrator itself runs
/// nested inside a compatible environment.
#[verifier::loop_isolation(false)]
pub fn build_child_env(p: &StartSessionParams, enriched_path: &str, resolved: Vec<(String, String)>)
    -> (r: LaunchEnv)
    ensures
        env_views(r.set@) == spec_env_set(*p, enriched_path@, resolved@),
        r.clear@.len() == 1 && r.clear@[0]@ == "CLAUDECODE"@,
{
    let mut has_cap = false;
    let n: usize = resolved.len();
    let mut k: usize = 0;
    while k < n
        invariant
            k <= n,
            n == resolved@.len(),
            has_cap == exists|q: int|
                0 <= q < k && (#[trigger] resolved@[q]).0@ == "CLAUDE_CODE_MAX_OUTPUT_TOKENS"@,
        decreases n - k,
    {
        let ghost k0 = k as int;
        if str_eq(resolved[k].0.as_str(), "CLAUDE_CODE_MAX_OUTPUT_TOKENS") {
            has_cap = true;
        }
        k += 1;
        proof {
            if !has_cap {
                if exists|q: int|
                    0 <= q < k && (#[trigger] resolved@[q]).0@
                        == "CLAUDE_CODE_MAX_OUTPUT_TOKENS"@ {
                    let w = choose|q: int|
                        0 <= q < k && (#[trigger] resolved@[q]).0@
                            == "CLAUDE_CODE_MAX_OUTPUT_TOKENS"@;
                    assert(w == k0);
                    assert(false);
                }
            }
        }
    }
    let off = match &p.thinking_level {
        Option::Some(l) => str_eq(l.as_str(), "off"),
        Option::None => false,
    };
    let mut set: Vec<(String, String)> = Vec::new();
    set.push(("PATH".to_owned(), enriched_path.to_owned()));
    let ghost resolved0 = resolved@;
    let mut rest = resolved;
    let m: usize = rest.len();
    let mut q: usize = 0;
    proof {
        assert(env_views(set@) =~= seq![("PATH"@, enriched_path@)] + env_views(
            resolved0.subrange(0, 0),
        ));
    }
    while q < m
        invariant
            q <= m,
            m == resolved0.len(),
            rest@ == resolved0,
            env_views(set@) == seq![("PATH"@, enriched_path@)] + env_views(
                resolved0.subrange(0, q as int),
            ),
        decreases m - q,
    {
        let ghost set0 = env_views(set@);
        let pair = (rest[q].0.clone(), rest[q].1.clone());
        set.push(pair);
        q += 1;
        proof {
            let cur = resolved0.subrange(0, q as int);
            assert(cur.drop_last() =~= resolved0.subrange(0, q - 1));
            assert(env_views(set@) =~= set0.push((resolved0[q - 1].0@, resolved0[q - 1].1@)));
            assert(env_views(set@) =~= seq![("PATH"@, enriched_path@)] + env_views(cur));
        }
    }
    proof {
        assert(resolved0.subrange(0, m as int) =~= resolved0);
    }
    let ghost mid = env_views(set@);
    if !off {
        let level: String = match &p.thinking_level {
            Option::Some(l) => l.clone(),
            Option::None => "high".to_owned(),
        };
        proof {
            reveal_strlit("high");
            reveal_strlit("off");
            assert("high"@.len() == 4);
            assert("off"@.len() == 3);
        }
        set.push(("CLAUDE_CODE_EFFORT_LEVEL".to_owned(), level));
    }
    let ghost mid2 = env_views(set@);
    proof {
        assert(mid2 =~= mid + (if spec_level(*p) == "off"@ {
            Seq::<(Seq<char>, Seq<char>)>::empty()
        } else {
            seq![("CLAUDE_CODE_EFFORT_LEVEL"@, spec_level(*p))]
        }));
    }
    if !has_cap {
        set.push(("CLAUDE_CODE_MAX_OUTPUT_TOKENS".to_owned(), "64000".to_owned()));
    }
    let mut clear: Vec<String> = Vec::new();
    clear.push("CLAUDECODE".to_owned());
    proof {
        assert(has_cap == spec_env_has(resolved0, "CLAUDE_CODE_MAX_OUTPUT_TOKENS"@));
        assert(env_views(set@) =~= spec_env_set(*p, enriched_path@, resolved0));
    }
    LaunchEnv { set, clear }
}

/// Relies on `uuid::Uuid::new_v4` and its `Display` rendering: a fresh
/// random v4 UUID formats as 36 hyphenated lower-case hex characters.
#[verifier::external_body]
fn new_uuid_string() -> (r: String)
    ensures
        r@.len() == 36,
{
    uuid::Uuid::new_v4().to_string()
}

/// Resolve the session id of a launch: the caller's id, or a fresh one.
pub fn resolve_session_id(requested: &Option<String>) -> (r: String)
    ensures
        match requested {
            Option::Some(id) => r@ == id@,
            Option::None => r@.len() == 36,
        },
{
    match requested {
        Option::Some(id) => id.clone(),
        Option::None => new_uuid_string(),
    }
}

/// Supersession: drop any prior registration of the id from both
/// registries before a new launch, so no handle leaks.
pub fn prepare_launch(stdin_mgr: &mut StdinManager, proc_mgr: &mut ProcessManager, session_id: &str)
    requires
        old(stdin_mgr).inv(),
        old(proc_mgr).inv(),
    ensures
        final(stdin_mgr).inv(),
        final(proc_mgr).inv(),
        final(stdin_mgr)@ == old(stdin_mgr)@.remove(session_id@),
        final(proc_mgr)@ == old(proc_mgr)@.remove(session_id@),
{
    stdin_mgr.remove(session_id);
    proc_mgr.remove(session_id);
}

/// Register a freshly spawned child under its session id: the input
/// channel in the stdin registry, the process in the session registry.
/// Each registry then holds exactly one entry for the id, the new one.
pub fn complete_launch(
    stdin_mgr: &mut StdinManager,
    proc_mgr: &mut ProcessManager,
    session_id: String,
    pid: u32,
    chan: u64,
    handle: u64,
) -> (r: SessionInfo)
    requires
        old(stdin_mgr).inv(),
        old(proc_mgr).inv(),
    ensures
        final(stdin_mgr).inv(),
        final(proc_mgr).inv(),
        final(stdin_mgr)@ == old(stdin_mgr)@.insert(session_id@, chan),
        final(stdin_mgr).entry_count(session_id@) == 1,
        final(proc_mgr)@.dom().contains(session_id@),
        final(proc_mgr)@[session_id@].pid == pid,
        final(proc_mgr)@[session_id@].handle == handle,
        final(proc_mgr)@[session_id@].session_id@ == session_id@,
        final(proc_mgr).entry_count(session_id@) == 1,
        r.session_id@ == session_id@,
        r.pid == pid,
{
    let id_for_chan = session_id.clone();
    let id_for_proc = session_id.clone();
    let id_inner = session_id.clone();
    stdin_mgr.insert(id_for_chan, chan);
    proc_mgr.insert(id_for_proc, ManagedProcess { session_id: id_inner, pid, handle });
    SessionInfo { session_id, pid }
}

/// Re-launching an id supersedes the prior registration: registering a
/// second channel under the same id leaves the registry exactly as if
/// only the second had ever been registered, and the id maps to it.
pub proof fn lemma_relaunch_supersedes(
    m: Map<Seq<char>, u64>,
    id: Seq<char>,
    first: u64,
    second: u64,
)
    ensures
        m.insert(id, first).insert(id, second) == m.insert(id, second),
        m.insert(id, first).insert(id, second)[id] == second,
{
    assert(m.insert(id, first).insert(id, second) =~= m.insert(id, second));
}

} // verus!
