//! The process-supervision model: a description of one tool invocation, a
//! workspace-wide registry of live processes that supports joint
//! cancellation, and the rule that turns an exit outcome into a result.
//! Spawning and waiting are the caller's part; the registry here decides
//! what is live, and an entry leaves only after its process finished or was
//! cancelled.

use vstd::prelude::*;
use vstd::string::*;
use crate::errors::Error;

verus! {

/// One external tool invocation, fully described: program, arguments,
/// working directory and environment.
pub struct ToolInvocation {
    pub program: String,
    pub args: Vec<String>,
    pub cwd: String,
    pub env: Vec<(String, String)>,
}

/// Where a supervised process stands.
#[derive(Clone, Copy, PartialEq, Eq, Structural, Debug)]
pub enum ProcessState {
    Running,
    /// Exited on its own with the given status code, if one was available.
    Finished,
    /// Terminated by the registry on abort or interrupt.
    Cancelled,
}

/// One registered process: its tool name and its current state.
pub struct Process {
    pub name: String,
    pub state: ProcessState,
    pub code: Option<i32>,
}

/// The workspace-wide registry of spawned processes. Registration happens
/// before the caller ever sees the handle, so cancellation can never race
/// past a running-but-unregistered process.
pub struct ProcessRegistry {
    pub procs: Vec<Process>,
}

impl ProcessRegistry {
    pub fn new() -> (r: ProcessRegistry)
        ensures
            r.procs@.len() == 0,
    {
        ProcessRegistry { procs: Vec::new() }
    }

    /// Registers a newly spawned process as running and hands back its
    /// handle.
    pub fn register(&mut self, name: String) -> (h: usize)
        ensures
            h == old(self).procs@.len(),
            final(self).procs@.len() == old(self).procs@.len() + 1,
            forall|i: int|
                0 <= i < old(self).procs@.len() ==> (#[trigger] final(self).procs@[i]) == old(
                    self,
                ).procs@[i],
            final(self).procs@[h as int].name == name,
            final(self).procs@[h as int].state is Running,
    {
        let h = self.procs.len();
        self.procs.push(Process { name, state: ProcessState::Running, code: None });
        h
    }

    /// Records that the process behind `h` exited with the given code.
    pub fn mark_finished(&mut self, h: usize, code: Option<i32>)
        requires
            h < old(self).procs@.len(),
            old(self).procs@[h as int].state is Running,
        ensures
            final(self).procs@.len() == old(self).procs@.len(),
            forall|i: int|
                0 <= i < old(self).procs@.len() && i != h ==> (#[trigger] final(self).procs@[i])
                    == old(self).procs@[i],
            final(self).procs@[h as int].state is Finished,
            final(self).procs@[h as int].code == code,
            final(self).procs@[h as int].name == old(self).procs@[h as int].name,
    {
        let name = self.procs[h].name.clone();
        self.procs.set(h, Process { name, state: ProcessState::Finished, code });
    }

    /// Terminates every live process: invoked on abort or interrupt, it
    /// reaches every registry entry, run-forever watchers included.
    pub fn terminate_all(&mut self)
        ensures
            final(self).procs@.len() == old(self).procs@.len(),
            forall|i: int|
                0 <= i < old(self).procs@.len() ==> (#[trigger] final(self).procs@[i]).state == (
                if old(self).procs@[i].state is Running {
                    ProcessState::Cancelled
                } else {
                    old(self).procs@[i].state
                }),
            forall|i: int|
                0 <= i < old(self).procs@.len() ==> (#[trigger] final(self).procs@[i]).name == old(
                    self,
                ).procs@[i].name,
    {
        let n = self.procs.len();
        let mut i: usize = 0;
        while i < n
            invariant
                n == self.procs@.len(),
                n == old(self).procs@.len(),
                i <= n,
                forall|t: int|
                    i <= t < n ==> (#[trigger] self.procs@[t]) == old(self).procs@[t],
                forall|t: int|
                    0 <= t < i ==> (#[trigger] self.procs@[t]).state == (if old(
                        self,
                    ).procs@[t].state is Running {
                        ProcessState::Cancelled
                    } else {
                        old(self).procs@[t].state
                    }),
                forall|t: int|
                    0 <= t < i ==> (#[trigger] self.procs@[t]).name == old(self).procs@[t].name,
            decreases n - i,
        {
            if matches!(self.procs[i].state, ProcessState::Running) {
                let name = self.procs[i].name.clone();
                let code = self.procs[i].code;
                self.procs.set(i, Process { name, state: ProcessState::Cancelled, code });
            }
            i = i + 1;
        }
    }

    /// Whether any registered process is still running.
    pub fn any_live(&self) -> (r: bool)
        ensures
            r == exists|i: int|
                0 <= i < self.procs@.len() && (#[trigger] self.procs@[i]).state is Running,
    {
        let n = self.procs.len();
        let mut i: usize = 0;
        while i < n
            invariant
                n == self.procs@.len(),
                i <= n,
                forall|t: int| 0 <= t < i ==> !((#[trigger] self.procs@[t]).state is Running),
            decreases n - i,
        {
            if matches!(self.procs[i].state, ProcessState::Running) {
                return true;
            }
            i = i + 1;
        }
        false
    }
}

/// The rule behind waiting for success: a process that exited with status
/// zero succeeded; any other outcome is a tool failure carrying the tool's
/// name and status.
pub fn success_of(tool: &String, code: Option<i32>) -> (r: Result<(), Error>)
    ensures
        r is Ok <==> code == Some(0i32),
        r matches Err(e) ==> (e matches Error::ToolFailure { tool: t, code: c } && t@ == tool@ && c
            == code),
{
    match code {
        Some(0) => Ok(()),
        _ => Err(Error::ToolFailure { tool: tool.clone(), code }),
    }
}

/// The invocation that runs a package script: the workspace's package
/// manager, run from the workspace root with its module path exported, told
/// to execute the script — unless the script is the package manager itself,
/// which is invoked directly.
pub fn pnpm_invocation(root: &String, pnpm_path: &String, script: &String) -> (r: ToolInvocation)
    ensures
        r.program@ == pnpm_path@,
        r.cwd@ == root@,
        r.env@.len() == 1,
        r.env@[0].0@ == "NODE_PATH"@,
        r.env@[0].1@ == root@ + "/node_modules"@,
        script@ == "pnpm"@ ==> r.args@.len() == 0,
        script@ != "pnpm"@ ==> r.args@.len() == 2 && r.args@[0]@ == "exec"@ && r.args@[1]@
            == script@,
{
    let mut env: Vec<(String, String)> = Vec::new();
    env.push((String::from_str("NODE_PATH"), root.clone().concat("/node_modules")));
    let mut args: Vec<String> = Vec::new();
    let pnpm_lit = String::from_str("pnpm");
    if !(*script == pnpm_lit) {
        args.push(String::from_str("exec"));
        args.push(script.clone());
    }
    ToolInvocation { program: pnpm_path.clone(), args, cwd: root.clone(), env }
}

} // verus!
