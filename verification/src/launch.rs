//! Launch preparation: the terminal emulator preference table, the probe
//! that picks the first available one, and the final command line built for
//! a catalog application.

use vstd::prelude::*;
use crate::application::LinuxApplication;
use crate::application::string_views;

verus! {

/// The terminal emulators the launcher knows, in preference order, each
/// with the flag that makes it run a command.
pub open spec fn spec_terminal_profiles() -> Seq<(Seq<char>, Seq<char>)> {
    seq![
        ("ghostty"@, "-e"@),
        ("kitty"@, "-e"@),
        ("alacritty"@, "-e"@),
        ("termite"@, "-e"@),
        ("gnome-terminal"@, "--"@),
        ("weston-terminal"@, "--"@),
    ]
}

/// The views of a vector of profile pairs.
pub open spec fn profile_views(v: Seq<(String, String)>) -> Seq<(Seq<char>, Seq<char>)> {
    v.map_values(|p: (String, String)| (p.0@, p.1@))
}

/// The preference table, as the launcher probes it.
pub fn terminal_profiles() -> (r: Vec<(String, String)>)
    ensures
        profile_views(r@) == spec_terminal_profiles(),
{
    let mut v: Vec<(String, String)> = Vec::new();
    v.push((String::from_str("ghostty"), String::from_str("-e")));
    v.push((String::from_str("kitty"), String::from_str("-e")));
    v.push((String::from_str("alacritty"), String::from_str("-e")));
    v.push((String::from_str("termite"), String::from_str("-e")));
    v.push((String::from_str("gnome-terminal"), String::from_str("--")));
    v.push((String::from_str("weston-terminal"), String::from_str("--")));
    proof {
        assert(profile_views(v@) =~= spec_terminal_profiles());
    }
    v
}

/// Relies on which::which: whether an executable of this name is found on
/// the search path. The answer depends on this machine's state.
#[verifier::external_body]
fn probe_executable(name: &str) -> bool {
    which::which(name).is_ok()
}

/// The first terminal emulator of the preference table that is available on
/// the search path, probed in order; none available means none.
pub fn get_terminal() -> (r: Option<(String, String)>)
    ensures
        r matches Some(p) ==> spec_terminal_profiles().contains((p.0@, p.1@)),
{
    let profiles = terminal_profiles();
    let n = profiles.len();
    let mut i: usize = 0;
    while i < n
        invariant
            i <= n,
            n == profiles@.len(),
            profile_views(profiles@) == spec_terminal_profiles(),
        decreases n - i,
    {
        if probe_executable(profiles[i].0.as_str()) {
            let exe = profiles[i].0.clone();
            let flag = profiles[i].1.clone();
            proof {
                assert(profile_views(profiles@)[i as int] == (exe@, flag@));
            }
            return Some((exe, flag));
        }
        i = i + 1;
    }
    None
}

/// The command line that launches an application: its invocation as it
/// stands, wrapped by the chosen terminal profile when the entry asks for a
/// terminal and one is available.
pub fn build_invocation(app: &LinuxApplication, terminal: Option<&(String, String)>) -> (r: Vec<String>)
    ensures
        string_views(r@) == ({
            let inv = string_views(app.invocation@);
            if inv.len() == 0 {
                inv
            } else if app.is_terminal && terminal is Some {
                seq![terminal->Some_0.0@, terminal->Some_0.1@] + inv
            } else {
                inv
            }
        }),
{
    let mut cmd: Vec<String> = Vec::new();
    if app.invocation.len() == 0 {
        proof {
            assert(string_views(cmd@) =~= string_views(app.invocation@));
        }
        return cmd;
    }
    if app.is_terminal {
        match terminal {
            Some(profile) => {
                cmd.push(profile.0.clone());
                cmd.push(profile.1.clone());
            },
            None => {},
        }
    }
    let ghost prefix = cmd@;
    let n = app.invocation.len();
    let mut i: usize = 0;
    while i < n
        invariant
            i <= n,
            n == app.invocation@.len(),
            cmd@ == prefix + app.invocation@.subrange(0, i as int),
        decreases n - i,
    {
        cmd.push(app.invocation[i].clone());
        i = i + 1;
        proof {
            assert(cmd@ =~= prefix + app.invocation@.subrange(0, i as int));
        }
    }
    proof {
        assert(app.invocation@.subrange(0, n as int) =~= app.invocation@);
        assert(string_views(cmd@) =~= string_views(prefix) + string_views(app.invocation@));
        if app.is_terminal && terminal is Some {
            assert(string_views(prefix) =~= seq![terminal->Some_0.0@, terminal->Some_0.1@]);
        } else {
            assert(string_views(prefix) =~= Seq::<Seq<char>>::empty());
            assert(string_views(cmd@) =~= string_views(app.invocation@));
        }
    }
    cmd
}

} // verus!
