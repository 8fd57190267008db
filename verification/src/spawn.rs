//! Caller-side spawn logic: the environment allow-list, the choice of
//! surface binary, and the surface's argument conventions.
//!
//! The privileged spawner itself only performs what is decided here: it
//! launches the chosen binary with `--config <token>` and exactly the
//! filtered environment, then reads the exit status through
//! `crate::exit::result_from_status`.

use vstd::prelude::*;

use crate::config::ConfigView;
use crate::config::DialogConfig;
use crate::config::DialogKind;
use crate::config::KindView;

verus! {

/// True of the four allow-listed environment variable names: the display
/// socket, the runtime directory, the session type, and the session
/// message-bus address. Nothing else ever crosses the privilege boundary.
pub open spec fn is_allowed_key(k: Seq<char>) -> bool {
    ||| k == "WAYLAND_DISPLAY"@
    ||| k == "XDG_RUNTIME_DIR"@
    ||| k == "XDG_SESSION_TYPE"@
    ||| k == "DBUS_SESSION_BUS_ADDRESS"@
}

/// View of an environment as key/value character sequences, in order.
pub open spec fn env_view(env: Seq<(String, String)>) -> Seq<(Seq<char>, Seq<char>)> {
    Seq::new(env.len(), |i: int| (env[i].0@, env[i].1@))
}

/// The allow-listed entries of an environment, in their original order.
pub open spec fn allowed_env(env: Seq<(Seq<char>, Seq<char>)>) -> Seq<(Seq<char>, Seq<char>)>
    decreases env.len(),
{
    if env.len() == 0 {
        Seq::empty()
    } else {
        allowed_env(env.drop_last()) + if is_allowed_key(env.last().0) {
            seq![env.last()]
        } else {
            Seq::empty()
        }
    }
}

/// Environment propagation: the filtered environment holds exactly the
/// allow-listed entries present in the input — every entry it holds is
/// allow-listed and came from the input, and every allow-listed input
/// entry is kept.
pub proof fn lemma_allowed_env(env: Seq<(Seq<char>, Seq<char>)>)
    ensures
        forall|j: int|
            0 <= j < allowed_env(env).len() ==> is_allowed_key(#[trigger] allowed_env(env)[j].0)
                && env.contains(allowed_env(env)[j]),
        forall|j: int|
            0 <= j < env.len() && is_allowed_key(#[trigger] env[j].0) ==> allowed_env(
                env,
            ).contains(env[j]),
    decreases env.len(),
{
    if env.len() > 0 {
        let prefix = env.drop_last();
        lemma_allowed_env(prefix);
        assert forall|j: int|
            0 <= j < allowed_env(env).len() implies is_allowed_key(
            #[trigger] allowed_env(env)[j].0,
        ) && env.contains(allowed_env(env)[j]) by {
            if j < allowed_env(prefix).len() {
                assert(allowed_env(env)[j] == allowed_env(prefix)[j]);
                let w = choose|w: int|
                    0 <= w < prefix.len() && prefix[w] == allowed_env(prefix)[j];
                assert(env[w] == allowed_env(env)[j]);
            } else {
                assert(allowed_env(env)[j] == env.last());
                assert(env[env.len() - 1] == env.last());
            }
        }
        assert forall|j: int|
            0 <= j < env.len() && is_allowed_key(#[trigger] env[j].0) implies allowed_env(
            env,
        ).contains(env[j]) by {
            if j < env.len() - 1 {
                assert(prefix[j] == env[j]);
                let w = choose|w: int|
                    0 <= w < allowed_env(prefix).len() && allowed_env(prefix)[w] == prefix[j];
                assert(allowed_env(env)[w] == env[j]);
            } else {
                assert(allowed_env(env).last() == env.last());
            }
        }
    }
}

/// Decide whether one environment variable name is allow-listed.
pub fn allowed_key(k: &String) -> (r: bool)
    ensures
        r == is_allowed_key(k@),
{
    if k.eq(&String::from_str("WAYLAND_DISPLAY")) {
        true
    } else if k.eq(&String::from_str("XDG_RUNTIME_DIR")) {
        true
    } else if k.eq(&String::from_str("XDG_SESSION_TYPE")) {
        true
    } else if k.eq(&String::from_str("DBUS_SESSION_BUS_ADDRESS")) {
        true
    } else {
        false
    }
}

/// The allow-listed variable names, in a fixed order.
pub fn allowed_keys() -> (r: Vec<String>)
    ensures
        r@.len() == 4,
        r@[0]@ == "WAYLAND_DISPLAY"@,
        r@[1]@ == "XDG_RUNTIME_DIR"@,
        r@[2]@ == "XDG_SESSION_TYPE"@,
        r@[3]@ == "DBUS_SESSION_BUS_ADDRESS"@,
        forall|i: int| 0 <= i < 4 ==> is_allowed_key(#[trigger] r@[i]@),
{
    let mut r: Vec<String> = Vec::new();
    r.push(String::from_str("WAYLAND_DISPLAY"));
    r.push(String::from_str("XDG_RUNTIME_DIR"));
    r.push(String::from_str("XDG_SESSION_TYPE"));
    r.push(String::from_str("DBUS_SESSION_BUS_ADDRESS"));
    r
}

/// Keep exactly the allow-listed entries of an environment, in order.
/// This is the only environment a spawned surface ever receives.
pub fn filter_env(env: &Vec<(String, String)>) -> (r: Vec<(String, String)>)
    ensures
        env_view(r@) == allowed_env(env_view(env@)),
{
    let mut out: Vec<(String, String)> = Vec::new();
    let mut i: usize = 0;
    proof {
        assert(env_view(out@) =~= allowed_env(env_view(env@).take(0)));
    }
    while i < env.len()
        invariant
            i <= env@.len(),
            env_view(out@) == allowed_env(env_view(env@).take(i as int)),
        decreases env@.len() - i,
    {
        let pair = &env[i];
        let keep = allowed_key(&pair.0);
        if keep {
            let k = pair.0.clone();
            let v = pair.1.clone();
            out.push((k, v));
        }
        proof {
            let w = env_view(env@);
            assert(w.take(i + 1).drop_last() =~= w.take(i as int));
            assert(w.take(i + 1).last() == w[i as int]);
            assert(env_view(out@) =~= allowed_env(w.take(i + 1)));
        }
        i = i + 1;
    }
    proof {
        assert(env_view(env@).take(env@.len() as int) =~= env_view(env@));
    }
    out
}

/// Choose the surface binary: a sibling of the caller's own executable
/// when one exists, else the well-known installation path.
pub fn choose_dialog_binary(sibling: Option<String>, sibling_exists: bool) -> (r: String)
    ensures
        r@ == match sibling {
            Option::Some(p) => {
                if sibling_exists {
                    p@
                } else {
                    "/usr/bin/session-dialog"@
                }
            },
            Option::None => "/usr/bin/session-dialog"@,
        },
{
    match sibling {
        Option::Some(p) => {
            if sibling_exists {
                p
            } else {
                String::from_str("/usr/bin/session-dialog")
            }
        },
        Option::None => String::from_str("/usr/bin/session-dialog"),
    }
}

/// Single-space join of the legacy arguments.
pub open spec fn spec_join_spaces(args: Seq<Seq<char>>) -> Seq<char>
    decreases args.len(),
{
    if args.len() == 0 {
        Seq::empty()
    } else if args.len() == 1 {
        args[0]
    } else {
        spec_join_spaces(args.drop_last()) + " "@ + args.last()
    }
}

/// The descriptor built by a legacy invocation: the arguments joined with
/// single spaces become a privilege-escalation command with no timeout.
/// An empty argument list is a usage error, `None`.
pub fn legacy_config(args: &Vec<String>) -> (r: Option<DialogConfig>)
    ensures
        args@.len() == 0 <==> r is None,
        r matches Some(c) ==> c@ == (ConfigView {
            kind: KindView::PrivilegeEscalation { command: spec_join_spaces(args.deep_view()) },
            timeout_secs: None,
        }),
{
    if args.len() == 0 {
        return None;
    }
    let mut command = String::new();
    let mut i: usize = 0;
    while i < args.len()
        invariant
            0 < args@.len(),
            i <= args@.len(),
            command@ == spec_join_spaces(args.deep_view().take(i as int)),
        decreases args@.len() - i,
    {
        if i > 0 {
            command.append(" ");
        }
        command.append(args[i].as_str());
        proof {
            let dv = args.deep_view();
            assert(dv[i as int] == args@[i as int]@);
            assert(dv.take(i + 1).drop_last() =~= dv.take(i as int));
            assert(dv.take(i + 1).last() == dv[i as int]);
            assert(command@ =~= spec_join_spaces(dv.take(i + 1)));
        }
        i = i + 1;
    }
    proof {
        assert(args.deep_view().take(args@.len() as int) =~= args.deep_view());
    }
    Some(DialogConfig { kind: DialogKind::PrivilegeEscalation { command }, timeout_secs: None })
}

/// Position of the first `--config` flag among the arguments, if any.
pub fn position_of_config_flag(args: &Vec<String>) -> (r: Option<usize>)
    ensures
        r matches Some(i) ==> i < args@.len() && args@[i as int]@ == "--config"@ && (forall|j: int|
            0 <= j < i ==> args@[j]@ != "--config"@),
        r is None ==> forall|j: int| 0 <= j < args@.len() ==> args@[j]@ != "--config"@,
{
    let mut i: usize = 0;
    while i < args.len()
        invariant
            i <= args@.len(),
            forall|j: int| 0 <= j < i ==> args@[j]@ != "--config"@,
        decreases args@.len() - i,
    {
        if args[i].eq(&String::from_str("--config")) {
            return Some(i);
        }
        i = i + 1;
    }
    None
}

} // verus!
