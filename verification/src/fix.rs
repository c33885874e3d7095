//! The fix command: runs the workspace's code checker over a package's
//! source files in fix mode, with optional extra arguments given as one
//! shell-quoted string.

use vstd::prelude::*;
use vstd::string::*;
use crate::cmd::{Command, CommandRuntime, CoreCommand, PackageCommand};
use crate::errors::Error;

verus! {

/// Arguments of the fix command: extra checker arguments as one
/// shell-quoted string.
pub struct FixArgs {
    pub biome_args: Option<String>,
}

/// Fix checker issues where possible.
pub struct FixCommand {
    pub args: FixArgs,
}

/// What shell-quoted splitting yields for a given string: the words, or
/// nothing when the input is erroneous.
pub uninterp spec fn split_words(s: Seq<char>) -> Option<Seq<Seq<char>>>;

/// Relies on shlex::split: splits a shell-quoted string into words and
/// returns None on erroneous input; the result depends on the string's
/// characters alone.
#[verifier::external_body]
fn shlex_split(s: &String) -> (r: Option<Vec<String>>)
    ensures
        match split_words(s@) {
            Some(w) => r matches Some(v) && v.deep_view() == w,
            None => r is None,
        },
{
    shlex::split(s.as_str())
}

/// The checker's argument list: fix mode, then the package's source files,
/// then the caller's extra words.
pub open spec fn biome_args_spec(files: Seq<Seq<char>>, extra: Seq<Seq<char>>) -> Seq<Seq<char>> {
    seq!["check"@, "--fix"@] + files + extra
}

fn push_all_strings(dst: &mut Vec<String>, src: &Vec<String>)
    ensures
        final(dst)@ == old(dst)@ + src@,
{
    let ghost base = dst@;
    let mut i: usize = 0;
    while i < src.len()
        invariant
            i <= src@.len(),
            dst@ == base + src@.subrange(0, i as int),
        decreases src@.len() - i,
    {
        dst.push(src[i].clone());
        proof {
            assert(base + src@.subrange(0, i + 1) =~= (base + src@.subrange(0, i as int)).push(
                src@[i as int],
            ));
        }
        i = i + 1;
    }
    proof {
        assert(base + src@.subrange(0, src@.len() as int) =~= base + src@);
    }
}

/// Assembles the checker invocation from the source files and the split
/// extra words.
pub fn assemble_biome_args(source_files: &Vec<String>, extra: &Vec<String>) -> (r: Vec<String>)
    ensures
        r.deep_view() == biome_args_spec(source_files.deep_view(), extra.deep_view()),
{
    let mut r: Vec<String> = Vec::new();
    r.push(String::from_str("check"));
    r.push(String::from_str("--fix"));
    push_all_strings(&mut r, source_files);
    push_all_strings(&mut r, extra);
    proof {
        assert(r.deep_view() =~= biome_args_spec(source_files.deep_view(), extra.deep_view()));
    }
    r
}

impl FixCommand {
    pub fn new(args: FixArgs) -> (r: FixCommand)
        ensures
            r.args == args,
    {
        FixCommand { args }
    }

    /// Wraps this command as a package-scoped command handle.
    pub fn kind(self) -> (r: Command)
        ensures
            r.key() == "fix"@,
            r.spec_deps() == Seq::<Command>::empty(),
            r.spec_runtime() == Some(CommandRuntime::RunImmediately),
    {
        Command::package(&self)
    }

    /// The checker's full argument list for one package: fix mode, the
    /// package's source files, and the extra arguments — which are rejected
    /// as a configuration error when they cannot be split as a shell would.
    pub fn biome_invocation_args(&self, source_files: &Vec<String>) -> (r: Result<
        Vec<String>,
        Error,
    >)
        ensures
            match self.args.biome_args {
                None => r matches Ok(v) && v.deep_view() == biome_args_spec(
                    source_files.deep_view(),
                    Seq::empty(),
                ),
                Some(extra) => match split_words(extra@) {
                    Some(w) => r matches Ok(v) && v.deep_view() == biome_args_spec(
                        source_files.deep_view(),
                        w,
                    ),
                    None => r matches Err(e) && e is ConfigError,
                },
            },
    {
        let extra: Vec<String> = match &self.args.biome_args {
            None => Vec::new(),
            Some(s) => match shlex_split(s) {
                Some(v) => v,
                None => {
                    return Err(Error::ConfigError { message: s.clone() });
                },
            },
        };
        let r = assemble_biome_args(source_files, &extra);
        proof {
            if self.args.biome_args is None {
                assert(extra.deep_view() =~= Seq::<Seq<char>>::empty());
            }
        }
        Ok(r)
    }
}

impl CoreCommand for FixCommand {
    open spec fn spec_name(&self) -> Seq<char> {
        "fix"@
    }

    fn name(&self) -> (r: String) {
        String::from_str("fix")
    }
}

impl PackageCommand for FixCommand {
    open spec fn spec_deps(&self) -> Seq<Command> {
        Seq::empty()
    }

    open spec fn spec_runtime(&self) -> CommandRuntime {
        CommandRuntime::RunImmediately
    }

    fn deps(&self) -> (r: Vec<Command>) {
        Vec::new()
    }

    fn runtime(&self) -> (r: CommandRuntime) {
        CommandRuntime::RunImmediately
    }
}

} // verus!
