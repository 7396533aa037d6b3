//! The reload controller's decisions: what to do, and to whom, after a
//! reconciliation changed files. The surrounding program carries the
//! decision out (spawning, signalling, and tracking the child process),
//! interrupting a still-running previous hook first so that a
//! long-running hook can coalesce rapid reloads.
use vstd::prelude::*;

use crate::strutil::{
    all_digits, digits_val, int_value, is_int_literal, join_char, join_spec, parse_int, str_eq,
};

verus! {

/// The process a reload signal is delivered to.
pub enum OnReloadSignalTarget {
    Pid(i32),
    ProcessName(String),
    Parent,
}

/// A process-id literal, as an integer parse reads it: an optional `+`
/// or `-` sign and decimal digits.
pub open spec fn pid_literal(s: Seq<char>) -> bool {
    if s.len() > 0 && s[0] == '+' {
        all_digits(s.drop_first()) && s.len() <= 19
    } else {
        is_int_literal(s)
    }
}

/// The process id a pid literal writes.
pub open spec fn pid_value(s: Seq<char>) -> int {
    if s.len() > 0 && s[0] == '+' {
        digits_val(s.drop_first())
    } else {
        int_value(s)
    }
}

impl OnReloadSignalTarget {
    /// Parse a target word: `:parent` names the parent process, a number
    /// a process id, anything else a process name.
    pub fn parse(s: &str) -> (r: Self)
        ensures
            s@ == ":parent"@ ==> r is Parent,
            s@ != ":parent"@ && pid_literal(s@) && -0x8000_0000 <= pid_value(s@) < 0x8000_0000
                ==> (r matches OnReloadSignalTarget::Pid(p) && p as int == pid_value(s@)),
            s@ != ":parent"@ && !(pid_literal(s@) && -0x8000_0000 <= pid_value(s@) < 0x8000_0000)
                ==> (r matches OnReloadSignalTarget::ProcessName(n) && n@ == s@),
    {
        proof {
            reveal_strlit(":parent");
        }
        if str_eq(s, ":parent") {
            return OnReloadSignalTarget::Parent;
        }
        let n = s.unicode_len();
        let plus = n > 0 && s.get_char(0) == '+';
        let body: &str = if plus {
            s.substring_char(1, n)
        } else {
            s
        };
        proof {
            if plus {
                assert(body@ =~= s@.drop_first());
            }
        }
        let digits_only = !plus || (body.unicode_len() > 0 && body.get_char(0) != '-');
        let parsed = if digits_only {
            parse_int(body)
        } else {
            None
        };
        match parsed {
            Some(v) => {
                if -0x8000_0000i64 <= v && v < 0x8000_0000i64 {
                    OnReloadSignalTarget::Pid(v as i32)
                } else {
                    OnReloadSignalTarget::ProcessName(s.to_owned())
                }
            },
            None => OnReloadSignalTarget::ProcessName(s.to_owned()),
        }
    }
}

impl Default for OnReloadSignalTarget {
    /// Absent a target, the parent process is signalled.
    fn default() -> (r: Self)
        ensures
            r is Parent,
    {
        OnReloadSignalTarget::Parent
    }
}

/// What to do after a reconciliation changed files.
pub enum OnReloadAction {
    /// Nothing.
    DoNothing,
    /// Run a shell command.
    ShellCommand(String),
    /// Run an executable directly, without a shell.
    Executable(String),
    /// Send a signal (by number) to the target.
    Signal { signal: i32, target: OnReloadSignalTarget },
}

/// One cycle's decided reload work, for the surrounding program to carry
/// out. Spawns replace a still-running previous child (interrupt it,
/// reap it in passing, spawn anew with the changed paths in the
/// environment); signals are stateless and fire every cycle.
pub enum ReloadDirective {
    Nothing,
    SpawnShell { command: String, env_value: String },
    SpawnExecutable { executable: String, env_value: String },
    SignalPid { signal: i32, pid: i32 },
    SignalParent { signal: i32 },
    SignalProcessName { signal: i32, name: String },
}

/// The comma-joined list of changed paths handed to spawned processes.
pub open spec fn env_value_spec(paths: Seq<Seq<char>>) -> Seq<char> {
    join_spec(paths, ',')
}

/// The reload controller: it owns the configured action. The tracked
/// child-process slot lives with the surrounding program, which is the
/// only place a process handle can.
pub struct OnReload {
    pub action: OnReloadAction,
}

impl OnReload {
    pub fn new(action: OnReloadAction) -> (r: Self)
        ensures
            r.action == action,
    {
        OnReload { action }
    }

    /// Decide this cycle's reload work for the given changed paths: the
    /// action mapped to a directive, with the changed paths comma-joined
    /// into the environment value spawned processes receive.
    pub fn execute(&self, updated_files: &Vec<String>) -> (r: ReloadDirective)
        ensures
            ({
                let joined = env_value_spec(updated_files@.map_values(|p: String| p@));
                match self.action {
                    OnReloadAction::DoNothing => r is Nothing,
                    OnReloadAction::ShellCommand(c) => r matches ReloadDirective::SpawnShell {
                        command,
                        env_value,
                    } && command@ == c@ && env_value@ == joined,
                    OnReloadAction::Executable(x) => r matches ReloadDirective::SpawnExecutable {
                        executable,
                        env_value,
                    } && executable@ == x@ && env_value@ == joined,
                    OnReloadAction::Signal { signal, target } => match target {
                        OnReloadSignalTarget::Pid(p) => r == (ReloadDirective::SignalPid {
                            signal,
                            pid: p,
                        }),
                        OnReloadSignalTarget::Parent => r == (ReloadDirective::SignalParent {
                            signal,
                        }),
                        OnReloadSignalTarget::ProcessName(n) => r
                            matches ReloadDirective::SignalProcessName { signal: sg, name } && sg
                            == signal && name@ == n@,
                    },
                }
            }),
    {
        match &self.action {
            OnReloadAction::DoNothing => ReloadDirective::Nothing,
            OnReloadAction::ShellCommand(c) => {
                let env_value = join_char(updated_files, ',');
                ReloadDirective::SpawnShell { command: c.clone(), env_value }
            },
            OnReloadAction::Executable(x) => {
                let env_value = join_char(updated_files, ',');
                ReloadDirective::SpawnExecutable { executable: x.clone(), env_value }
            },
            OnReloadAction::Signal { signal, target } => match target {
                OnReloadSignalTarget::Pid(p) => ReloadDirective::SignalPid {
                    signal: *signal,
                    pid: *p,
                },
                OnReloadSignalTarget::Parent => ReloadDirective::SignalParent { signal: *signal },
                OnReloadSignalTarget::ProcessName(n) => ReloadDirective::SignalProcessName {
                    signal: *signal,
                    name: n.clone(),
                },
            },
        }
    }
}

/// The ids of the processes whose name equals the target exactly, in
/// table order. A signal aimed at a process name goes to exact matches
/// and to nothing else.
pub open spec fn matching_pids_spec(procs: Seq<(Seq<char>, i32)>, name: Seq<char>) -> Seq<i32>
    decreases procs.len(),
{
    if procs.len() == 0 {
        Seq::empty()
    } else {
        matching_pids_spec(procs.drop_last(), name) + if procs.last().0 == name {
            seq![procs.last().1]
        } else {
            Seq::empty()
        }
    }
}

/// Pick from a process table the ids whose name equals the target
/// exactly.
pub fn matching_pids(processes: &Vec<(String, i32)>, name: &String) -> (r: Vec<i32>)
    ensures
        r@ == matching_pids_spec(
            processes@.map_values(|p: (String, i32)| (p.0@, p.1)),
            name@,
        ),
{
    let ghost model = processes@.map_values(|p: (String, i32)| (p.0@, p.1));
    let mut out: Vec<i32> = Vec::new();
    let mut i: usize = 0;
    while i < processes.len()
        invariant
            i <= processes@.len(),
            model == processes@.map_values(|p: (String, i32)| (p.0@, p.1)),
            out@ == matching_pids_spec(model.subrange(0, i as int), name@),
        decreases processes@.len() - i,
    {
        let ghost pre = model.subrange(0, i as int);
        let ghost next = model.subrange(0, i as int + 1);
        proof {
            assert(next.drop_last() =~= pre);
            assert(next.last() == model[i as int]);
        }
        if processes[i].0.eq(name) {
            out.push(processes[i].1);
        }
        proof {
            assert(out@ =~= matching_pids_spec(next, name@));
        }
        i = i + 1;
    }
    proof {
        assert(model.subrange(0, model.len() as int) =~= model);
    }
    out
}

} // verus!
