//! Commands as plain values: a program, its arguments, and what is changed in the
//! environment that it inherits.

use crate::path::FilePath;
use vstd::prelude::*;

verus! {

/// A change to one environment variable of a command, as mathematical values.
#[verifier::ext_equal]
pub struct EnvView {
    /// The name of the variable.
    pub name: Seq<char>,
    /// The value it is set to, or `None` when it is unset.
    pub value: Option<Seq<u8>>,
}

/// A change to one environment variable of a command.
#[derive(Debug, PartialEq, Eq)]
pub struct EnvChange {
    /// The name of the variable.
    pub name: &'static str,
    /// The value it is set to, or `None` when it is unset.
    pub value: Option<Vec<u8>>,
}

impl View for EnvChange {
    type V = EnvView;

    open spec fn view(&self) -> EnvView {
        EnvView { name: self.name@, value: optional_bytes(self.value) }
    }
}

impl DeepView for EnvChange {
    type V = EnvView;

    open spec fn deep_view(&self) -> EnvView {
        self@
    }
}

/// The byte sequence that an optional byte vector holds.
pub open spec fn optional_bytes(value: Option<Vec<u8>>) -> Option<Seq<u8>> {
    match value {
        Some(bytes) => Some(bytes@),
        None => None,
    }
}

/// An environment after `changes` have been made to it, in order.
pub open spec fn changed(
    env: Map<Seq<char>, Seq<u8>>,
    changes: Seq<EnvView>,
) -> Map<Seq<char>, Seq<u8>>
    decreases changes.len(),
{
    if changes.len() == 0 {
        env
    } else {
        let before = changed(env, changes.drop_last());
        let change = changes.last();
        match change.value {
            Some(value) => before.insert(change.name, value),
            None => before.remove(change.name),
        }
    }
}

/// A command, as mathematical values.
#[verifier::ext_equal]
pub struct CommandView {
    /// The program to run.
    pub program: Seq<u8>,
    /// Its arguments, without the program itself.
    pub args: Seq<Seq<u8>>,
    /// The changes to the inherited environment, in order.
    pub env: Seq<EnvView>,
    /// The directory to run it in, or `None` for that of this process.
    pub current_dir: Option<Seq<u8>>,
}

/// A command that has not been started.
#[derive(Debug, PartialEq, Eq)]
pub struct CommandLine {
    /// The program to run.
    pub program: FilePath,
    /// Its arguments, without the program itself.
    pub args: Vec<Vec<u8>>,
    /// The changes to the inherited environment, in order.
    pub env: Vec<EnvChange>,
    /// The directory to run it in, or `None` for that of this process.
    pub current_dir: Option<FilePath>,
}

impl View for CommandLine {
    type V = CommandView;

    open spec fn view(&self) -> CommandView {
        CommandView {
            program: self.program@,
            args: crate::path::byte_views(self.args@),
            env: self.env.deep_view(),
            current_dir: self.current_dir.deep_view(),
        }
    }
}

/// What commands and changes to the environment stand for is what they hold.
pub proof fn law_command_views(change: EnvChange, line: CommandLine)
    ensures
        change@.name == change.name@,
        change@.value is Some <==> change.value is Some,
        change.value matches Some(bytes) ==> change@.value == Some(bytes@),
        line@.program == line.program.bytes@,
        line@.args.len() == line.args@.len(),
        forall|i: int| 0 <= i < line.args@.len() ==> #[trigger] line@.args[i] == line.args@[i]@,
        line@.env.len() == line.env@.len(),
        forall|i: int| 0 <= i < line.env@.len() ==> #[trigger] line@.env[i] == line.env@[i]@,
        line@.current_dir is Some <==> line.current_dir is Some,
        line.current_dir matches Some(dir) ==> line@.current_dir == Some(dir.bytes@),
{
}

/// A change to the environment sets or unsets one variable and leaves the others alone,
/// and the last change of a variable counts.
pub proof fn law_environment_changes(
    env: Map<Seq<char>, Seq<u8>>,
    changes: Seq<EnvView>,
    last: EnvView,
    other: Seq<char>,
)
    requires
        other != last.name,
    ensures
        changed(env, Seq::<EnvView>::empty()) == env,
        ({
            let before = changed(env, changes);
            let after = changed(env, changes.push(last));
            &&& after.contains_key(last.name) == (last.value is Some)
            &&& last.value matches Some(value) ==> after[last.name] == value
            &&& after.contains_key(other) == before.contains_key(other)
            &&& before.contains_key(other) ==> after[other] == before[other]
        }),
{
    assert(changes.push(last).drop_last() == changes);
}

} // verus!
