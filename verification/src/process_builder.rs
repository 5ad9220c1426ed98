//! Descriptions of processes to run.

use crate::path::Path;
use crate::text::{lemma_views_push, opt_view, push_bytes, to_bytes, utf8, views};
use vstd::prelude::*;

verus! {

/// A process to run.
#[derive(Debug, PartialEq, Eq)]
pub struct ProcessBuilder {
    /// The program.
    pub program: Vec<u8>,
    /// Its arguments.
    pub args: Vec<Vec<u8>>,
    /// What is set in its environment, or taken out of it, in order: of two entries for the same
    /// variable the later one counts.
    pub env: Vec<(String, Option<Vec<u8>>)>,
    /// The directory that it runs in.
    pub cwd: Path,
}

/// What a `ProcessBuilder` describes.
#[verifier::ext_equal]
pub struct Command {
    pub program: Seq<u8>,
    pub args: Seq<Seq<u8>>,
    pub env: Map<Seq<char>, Option<Seq<u8>>>,
    pub cwd: Seq<u8>,
}

/// The environment that a list of entries leads to.
pub open spec fn env_map(entries: Seq<(String, Option<Vec<u8>>)>) -> Map<Seq<char>, Option<Seq<u8>>>
    decreases entries.len(),
{
    if entries.len() == 0 {
        Map::empty()
    } else {
        env_map(entries.drop_last()).insert(entries.last().0@, opt_view(entries.last().1))
    }
}

impl View for ProcessBuilder {
    type V = Command;

    open spec fn view(&self) -> Command {
        Command {
            program: self.program@,
            args: views(self.args@),
            env: env_map(self.env@),
            cwd: self.cwd@,
        }
    }
}

impl Command {
    /// The command with more arguments.
    pub open spec fn with_args(self, args: Seq<Seq<u8>>) -> Command {
        Command { args: self.args + args, ..self }
    }

    /// The command with a variable set in its environment.
    pub open spec fn with_env(self, key: Seq<char>, value: Seq<u8>) -> Command {
        Command { env: self.env.insert(key, Some(value)), ..self }
    }
}

/// Copies a byte string.
pub fn copy_bytes(bytes: &Vec<u8>) -> (copy: Vec<u8>)
    ensures
        copy@ == bytes@,
{
    let mut copy: Vec<u8> = Vec::new();
    push_bytes(&mut copy, bytes.as_slice());
    copy
}

/// Copies a list of entries of an environment.
pub fn copy_env(env: &Vec<(String, Option<Vec<u8>>)>) -> (copy: Vec<(String, Option<Vec<u8>>)>)
    ensures
        env_map(copy@) == env_map(env@),
{
    let mut copy: Vec<(String, Option<Vec<u8>>)> = Vec::new();
    for i in 0..env.len()
        invariant
            env_map(copy@) == env_map(env@.take(i as int)),
    {
        let ghost before = copy@;
        let value = match &env[i].1 {
            Some(value) => Some(copy_bytes(value)),
            None => None,
        };
        copy.push((env[i].0.clone(), value));
        assert(copy@.drop_last() =~= before);
        assert(env@.take(i + 1).drop_last() =~= env@.take(i as int));
    }
    assert(env@.take(env@.len() as int) =~= env@);
    copy
}

impl Clone for ProcessBuilder {
    fn clone(&self) -> (copy: ProcessBuilder)
        ensures
            copy@ == self@,
    {
        broadcast use lemma_views_push;

        let mut args: Vec<Vec<u8>> = Vec::new();
        assert(views(args@) =~= views(self.args@.take(0)));
        for i in 0..self.args.len()
            invariant
                views(args@) == views(self.args@.take(i as int)),
        {
            args.push(copy_bytes(&self.args[i]));
            assert(views(self.args@.take(i + 1)) =~= views(self.args@.take(i as int)).push(
                self.args@[i as int]@,
            ));
        }
        assert(self.args@.take(self.args@.len() as int) =~= self.args@);
        ProcessBuilder {
            program: copy_bytes(&self.program),
            args,
            env: copy_env(&self.env),
            cwd: self.cwd.clone(),
        }
    }
}

impl ProcessBuilder {
    /// Adds an argument.
    pub fn arg(self, arg: &[u8]) -> (cmd: ProcessBuilder)
        ensures
            cmd@ == self@.with_args(seq![arg@]),
    {
        broadcast use lemma_views_push;

        let mut cmd = self;
        let mut bytes: Vec<u8> = Vec::new();
        push_bytes(&mut bytes, arg);
        cmd.args.push(bytes);
        assert(cmd@.args =~= self@.args + seq![arg@]);
        cmd
    }

    /// Adds an argument that is given as text.
    pub fn arg_str(self, arg: &str) -> (cmd: ProcessBuilder)
        ensures
            cmd@ == self@.with_args(seq![utf8(arg@)]),
    {
        self.arg(arg.as_bytes())
    }

    /// Adds arguments that are given as text.
    pub fn args(self, args: &Vec<String>) -> (cmd: ProcessBuilder)
        ensures
            cmd@ == self@.with_args(args@.map_values(|arg: String| utf8(arg@))),
    {
        let mut cmd = self;
        let ghost all = args@.map_values(|arg: String| utf8(arg@));
        assert(cmd@ =~= self@.with_args(all.take(0)));
        for i in 0..args.len()
            invariant
                all == args@.map_values(|arg: String| utf8(arg@)),
                cmd@ == self@.with_args(all.take(i as int)),
        {
            cmd = cmd.arg_str(args[i].as_str());
            assert(all.take(i + 1) =~= all.take(i as int).push(utf8(args@[i as int]@)));
            assert(cmd@ =~= self@.with_args(all.take(i + 1)));
        }
        assert(all.take(all.len() as int) =~= all);
        cmd
    }

    /// Sets a variable in the environment.
    pub fn env(self, key: &str, value: Vec<u8>) -> (cmd: ProcessBuilder)
        ensures
            cmd@ == self@.with_env(key@, value@),
    {
        let mut cmd = self;
        cmd.env.push((key.to_owned(), Some(value)));
        assert(cmd.env@.drop_last() =~= self.env@);
        assert(cmd@ =~= self@.with_env(key@, value@));
        cmd
    }

    /// Sets a variable in the environment to a value that is given as text.
    pub fn env_str(self, key: &str, value: &str) -> (cmd: ProcessBuilder)
        ensures
            cmd@ == self@.with_env(key@, utf8(value@)),
    {
        self.env(key, to_bytes(value))
    }

    /// Sets the directory that the process runs in.
    pub fn cwd(self, cwd: Path) -> (cmd: ProcessBuilder)
        ensures
            cmd@ == (Command { cwd: cwd@, ..self@ }),
    {
        let mut cmd = self;
        cmd.cwd = cwd;
        cmd
    }
}

/// A variable that is mentioned has the value of the last entry that mentions it.
pub proof fn law_last_entry_counts(entries: Seq<(String, Option<Vec<u8>>)>, at: int)
    requires
        0 <= at < entries.len(),
        forall|j: int| at < j < entries.len() ==> (#[trigger] entries[j]).0@ != entries[at].0@,
    ensures
        env_map(entries).contains_pair(entries[at].0@, opt_view(entries[at].1)),
    decreases entries.len(),
{
    if at < entries.len() - 1 {
        let front = entries.drop_last();
        assert(entries[entries.len() - 1].0@ != entries[at].0@);
        assert forall|j: int| at < j < front.len() implies (#[trigger] front[j]).0@
            != front[at].0@ by {
            assert(front[j] == entries[j]);
        }
        law_last_entry_counts(front, at);
    }
}

/// Only variables that are mentioned are set or taken out.
pub proof fn law_only_entries_count(entries: Seq<(String, Option<Vec<u8>>)>, key: Seq<char>)
    requires
        forall|j: int| 0 <= j < entries.len() ==> (#[trigger] entries[j]).0@ != key,
    ensures
        !env_map(entries).contains_key(key),
    decreases entries.len(),
{
    if entries.len() > 0 {
        let front = entries.drop_last();
        assert(entries[entries.len() - 1].0@ != key);
        assert forall|j: int| 0 <= j < front.len() implies (#[trigger] front[j]).0@ != key by {
            assert(front[j] == entries[j]);
        }
        law_only_entries_count(front, key);
    }
}

/// Two processes that are described alike have the same program, arguments and directory, and their
/// entries lead to the same environment.
pub proof fn law_descriptions_are_complete(a: ProcessBuilder, b: ProcessBuilder)
    requires
        a@ == b@,
    ensures
        a.program@ == b.program@,
        a.args@.len() == b.args@.len(),
        forall|i: int| 0 <= i < a.args@.len() ==> (#[trigger] a.args@[i])@ == b.args@[i]@,
        env_map(a.env@) == env_map(b.env@),
        a.cwd.repr@ == b.cwd.repr@,
{
    assert(views(a.args@).len() == views(b.args@).len());
    assert forall|i: int| 0 <= i < a.args@.len() implies (#[trigger] a.args@[i])@ == b.args@[i]@ by {
        assert(views(a.args@)[i] == views(b.args@)[i]);
    }
}

/// Further arguments come behind those that are there, and change nothing else.
pub proof fn law_with_args(command: Command, args: Seq<Seq<u8>>, i: int)
    ensures
        command.with_args(args).args.len() == command.args.len() + args.len(),
        0 <= i < command.args.len() ==> command.with_args(args).args[i] == command.args[i],
        0 <= i < args.len() ==> command.with_args(args).args[command.args.len() + i] == args[i],
        command.with_args(args).program == command.program,
        command.with_args(args).env == command.env,
        command.with_args(args).cwd == command.cwd,
{
}

/// Setting a variable gives it the value, whatever it had, and changes nothing else.
pub proof fn law_with_env(command: Command, key: Seq<char>, value: Seq<u8>, other: Seq<char>)
    ensures
        command.with_env(key, value).env.contains_pair(key, Some(value)),
        other != key ==> command.with_env(key, value).env.contains_key(other)
            == command.env.contains_key(other) && command.with_env(key, value).env[other]
            == command.env[other],
        command.with_env(key, value).program == command.program,
        command.with_env(key, value).args == command.args,
        command.with_env(key, value).cwd == command.cwd,
{
}

/// What is described is what is held.
pub proof fn law_description_is_what_is_held(builder: ProcessBuilder, i: int)
    ensures
        builder@.program == builder.program@,
        builder@.args.len() == builder.args@.len(),
        0 <= i < builder.args@.len() ==> builder@.args[i] == builder.args@[i]@,
        builder@.env == env_map(builder.env@),
        builder@.cwd == builder.cwd.repr@,
{
}

} // verus!
