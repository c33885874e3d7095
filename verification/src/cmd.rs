//! The command model: a `Command` is an immutable, shared unit of work,
//! either package-scoped (run once per relevant package) or workspace-scoped
//! (run once). Its identity key, declared prerequisites and runtime policy
//! are all the scheduler ever reads.

use vstd::prelude::*;
use vstd::string::*;
use std::rc::Rc;

verus! {

/// Governs whether dependents of a command wait for its full completion,
/// for an initial readiness signal, or for nothing beyond its start.
#[derive(Clone, Copy, PartialEq, Eq, Structural, Debug)]
pub enum CommandRuntime {
    /// Dependents block until the command completes successfully.
    WaitForDependencies,
    /// The command is spawned and dependents proceed without waiting for
    /// its completion.
    RunImmediately,
    /// The command runs for the remaining process lifetime; dependents
    /// unblock once it signals readiness after its first pass.
    RunForever,
}

/// A package-scoped command: its identity key, its prerequisites, and its
/// runtime policy.
pub struct PkgCommandInfo {
    pub name: String,
    pub deps: Vec<Command>,
    pub runtime: CommandRuntime,
}

/// A workspace-scoped command: it runs once per invocation and declares no
/// prerequisites.
pub struct WsCommandInfo {
    pub name: String,
}

/// The two shapes a command can take.
pub enum CommandInner {
    Package(PkgCommandInfo),
    Workspace(WsCommandInfo),
}

/// A shared, immutable handle on a command; the same handle may be a
/// prerequisite of several others.
pub struct Command {
    pub inner: Rc<CommandInner>,
}

/// Relies on Rc::clone: returns a second handle to the same shared value.
#[verifier::external_body]
pub(crate) fn rc_clone<T>(rc: &Rc<T>) -> (r: Rc<T>)
    ensures
        r == *rc,
{
    Rc::clone(rc)
}

impl Command {
    /// The stable identity key used for deduplication in the command graph.
    pub open spec fn key(self) -> Seq<char> {
        match *self.inner {
            CommandInner::Package(info) => info.name@,
            CommandInner::Workspace(info) => info.name@,
        }
    }

    /// The declared prerequisites; a workspace-scoped command has none.
    pub open spec fn spec_deps(self) -> Seq<Command> {
        match *self.inner {
            CommandInner::Package(info) => info.deps@,
            CommandInner::Workspace(_) => Seq::empty(),
        }
    }

    /// The runtime policy; only package-scoped commands carry one.
    pub open spec fn spec_runtime(self) -> Option<CommandRuntime> {
        match *self.inner {
            CommandInner::Package(info) => Some(info.runtime),
            CommandInner::Workspace(_) => None,
        }
    }

    pub open spec fn is_package_scoped(self) -> bool {
        *self.inner is Package
    }
}

impl Clone for Command {
    fn clone(&self) -> (r: Self)
        ensures
            r == *self,
    {
        Command { inner: rc_clone(&self.inner) }
    }
}

pub(crate) fn clone_commands(v: &Vec<Command>) -> (r: Vec<Command>)
    ensures
        r@ == v@,
{
    let mut r: Vec<Command> = Vec::new();
    let mut i: usize = 0;
    while i < v.len()
        invariant
            i <= v@.len(),
            r@ == v@.subrange(0, i as int),
        decreases v@.len() - i,
    {
        r.push(v[i].clone());
        i = i + 1;
    }
    proof {
        assert(r@ =~= v@);
    }
    r
}

impl CommandInner {
    /// The command's stable identity key.
    pub fn name(&self) -> (r: String)
        ensures
            match self {
                CommandInner::Package(info) => r@ == info.name@,
                CommandInner::Workspace(info) => r@ == info.name@,
            },
    {
        match self {
            CommandInner::Package(info) => info.name.clone(),
            CommandInner::Workspace(info) => info.name.clone(),
        }
    }

    /// The declared prerequisites; a workspace-scoped command has none.
    pub fn deps(&self) -> (r: Vec<Command>)
        ensures
            match self {
                CommandInner::Package(info) => r@ == info.deps@,
                CommandInner::Workspace(_) => r@ == Seq::<Command>::empty(),
            },
    {
        match self {
            CommandInner::Package(info) => clone_commands(&info.deps),
            CommandInner::Workspace(_) => Vec::new(),
        }
    }
}

impl Command {
    /// Wraps a command description in a shared handle.
    pub fn new(inner: CommandInner) -> (r: Command)
        ensures
            *r.inner == inner,
    {
        Command { inner: Rc::new(inner) }
    }

    /// The command's stable identity key.
    pub fn name(&self) -> (r: String)
        ensures
            r@ == self.key(),
    {
        match &*self.inner {
            CommandInner::Package(info) => info.name.clone(),
            CommandInner::Workspace(info) => info.name.clone(),
        }
    }

    /// The declared prerequisites of this command.
    pub fn deps(&self) -> (r: Vec<Command>)
        ensures
            r@ == self.spec_deps(),
    {
        match &*self.inner {
            CommandInner::Package(info) => clone_commands(&info.deps),
            CommandInner::Workspace(_) => Vec::new(),
        }
    }

    /// The runtime policy, present only on package-scoped commands.
    pub fn runtime(&self) -> (r: Option<CommandRuntime>)
        ensures
            r == self.spec_runtime(),
    {
        match &*self.inner {
            CommandInner::Package(info) => Some(info.runtime),
            CommandInner::Workspace(_) => None,
        }
    }

    /// Wraps a package-scoped command implementation in a shared handle.
    pub fn package<C: PackageCommand>(cmd: &C) -> (r: Command)
        ensures
            r.key() == cmd.spec_name(),
            r.spec_deps() == cmd.spec_deps(),
            r.spec_runtime() == Some(cmd.spec_runtime()),
    {
        Command::new(CommandInner::Package(PkgCommandInfo {
            name: cmd.name(),
            deps: cmd.deps(),
            runtime: cmd.runtime(),
        }))
    }

    /// Wraps a workspace-scoped command implementation in a shared handle.
    pub fn workspace<C: WorkspaceCommand>(cmd: &C) -> (r: Command)
        ensures
            r.key() == cmd.spec_name(),
            r.spec_deps() == Seq::<Command>::empty(),
            r.spec_runtime() is None,
    {
        Command::new(CommandInner::Workspace(WsCommandInfo { name: cmd.name() }))
    }
}

/// Everything a command must state about itself: a stable name.
pub trait CoreCommand {
    /// The name the command reports, as a mathematical value.
    spec fn spec_name(&self) -> Seq<char>;

    /// The stable identity component of the command.
    fn name(&self) -> (r: String)
        ensures
            r@ == self.spec_name(),
    ;
}

/// A command that runs once per relevant package. Prerequisites must be
/// declared statically: they may not depend on runtime state.
pub trait PackageCommand: CoreCommand {
    /// The statically declared prerequisites, as a mathematical value.
    spec fn spec_deps(&self) -> Seq<Command>;

    /// The runtime policy, as a mathematical value.
    spec fn spec_runtime(&self) -> CommandRuntime;

    /// The statically declared prerequisites.
    fn deps(&self) -> (r: Vec<Command>)
        ensures
            r@ == self.spec_deps(),
    ;

    /// The policy governing when dependents of this command may proceed.
    fn runtime(&self) -> (r: CommandRuntime)
        ensures
            r == self.spec_runtime(),
    ;

    /// The identity key of one execution of this command for one package.
    fn pkg_key(&self, package_name: &String) -> (r: String)
        ensures
            r@ == self.spec_name() + "-"@ + package_name@,
    {
        self.name().concat("-").concat(package_name.as_str())
    }
}

/// A command that runs once for the whole workspace.
pub trait WorkspaceCommand: CoreCommand {
    /// The identity key of this command's single execution.
    fn ws_key(&self) -> (r: String)
        ensures
            r@ == self.spec_name(),
    {
        self.name()
    }

    /// The declared input-file set for the fingerprint store, if this
    /// command's work can be skipped when its inputs are unchanged.
    fn input_files(&self) -> (r: Option<Vec<String>>) {
        None
    }
}

} // verus!
