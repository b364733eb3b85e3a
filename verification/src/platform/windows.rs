//! Windows-specific choices.
//!
//! Windows support compiles the host control plane; the VM-execution code
//! paths mirror the Linux executor (libkrun on Windows auto-mounts the guest's
//! virtiofs devices, so no mount-wrapper script is needed). Rosetta is a
//! macOS-only feature and is unavailable here.
use vstd::prelude::*;
use crate::error::{Error, Failure};
use crate::text::{contains_char, texts};

verus! {

/// Windows VM executor.
///
/// Executes the user command directly without a virtiofs mount-wrapper script.
#[derive(Debug, Clone, Copy)]
pub struct WindowsExecutor;

/// The command to execute: the given one, else a shell.
pub open spec fn effective_command(command: Option<Seq<Seq<char>>>) -> Seq<Seq<char>> {
    match command {
        Some(words) => words,
        None => seq!["/bin/sh"@],
    }
}

/// Some argument behind the program cannot be handed over: it holds a NUL.
pub open spec fn has_bad_argument(words: Seq<Seq<char>>) -> bool {
    exists|i: int| 1 <= i < words.len() && (#[trigger] words[i]).contains('\0')
}

/// What keeps a command from being executed, if anything does.
pub open spec fn command_fault(words: Seq<Seq<char>>) -> Option<Seq<char>> {
    if words.len() == 0 {
        Some("command cannot be empty"@)
    } else if words[0].contains('\0') {
        Some("invalid command path"@)
    } else if has_bad_argument(words) {
        Some("invalid command argument"@)
    } else {
        None
    }
}

/// The models of an optional list of strings.
pub open spec fn maybe_texts(command: Option<Vec<String>>) -> Option<Seq<Seq<char>>> {
    match command {
        Some(words) => Some(texts(words@)),
        None => None,
    }
}

impl WindowsExecutor {
    /// No wrapper script mounts the guest's virtiofs devices.
    pub fn requires_mount_wrapper(&self) -> (r: bool)
        ensures
            !r,
    {
        false
    }

    /// The program to execute and its arguments. Neither mounts nor Rosetta
    /// change them.
    pub fn build_exec_command(
        &self,
        command: &Option<Vec<String>>,
        _mounts: &[(String, String)],
        _rootfs: &str,
        _rosetta: bool,
    ) -> (r: Result<(String, Vec<String>), Error>)
        ensures
            ({
                let words = effective_command(maybe_texts(*command));
                match (command_fault(words), r) {
                    (None, Ok((program, arguments))) => program@ == words[0] && texts(arguments@)
                        == words.drop_first(),
                    (Some(fault), Err(error)) => error@ == (Failure::VmCreation { reason: fault }),
                    _ => false,
                }
            }),
    {
        let shell: Vec<String> = vec!["/bin/sh".to_owned()];
        assert(texts(shell@) =~= seq!["/bin/sh"@]);
        let words = match command {
            Some(words) => words,
            None => &shell,
        };
        let ghost w = texts(words@);
        if words.len() == 0 {
            return Err(Error::vm_creation("command cannot be empty".to_owned()));
        }
        assert(w[0] == words@[0]@);
        if contains_char(words[0].as_str(), '\0') {
            return Err(Error::vm_creation("invalid command path".to_owned()));
        }
        let mut arguments: Vec<String> = Vec::new();
        for i in 1..words.len()
            invariant
                w == texts(words@),
                w == effective_command(maybe_texts(*command)),
                w.len() > 0,
                !w[0].contains('\0'),
                arguments@.len() == i - 1,
                forall|j: int| 0 <= j < i - 1 ==> (#[trigger] arguments@[j])@ == w[j + 1],
                forall|j: int| 1 <= j < i ==> !(#[trigger] w[j]).contains('\0'),
        {
            assert(w[i as int] == words@[i as int]@);
            if contains_char(words[i].as_str(), '\0') {
                return Err(Error::vm_creation("invalid command argument".to_owned()));
            }
            arguments.push(words[i].clone());
        }
        assert(texts(arguments@) =~= w.drop_first());
        Ok((words[0].clone(), arguments))
    }

    /// Directories with host tools: none.
    pub fn tool_search_paths(&self) -> (r: Vec<String>)
        ensures
            r@.len() == 0,
    {
        Vec::new()
    }

    /// Extension of dynamic libraries.
    pub fn dylib_extension(&self) -> (r: &'static str)
        ensures
            r@ == "dll"@,
    {
        "dll"
    }

    /// Directories with libraries: none.
    pub fn library_search_paths(&self) -> (r: Vec<String>)
        ensures
            r@.len() == 0,
    {
        Vec::new()
    }
}

/// Windows Rosetta support (always unavailable).
#[derive(Debug, Clone, Copy)]
pub struct WindowsRosetta;

impl WindowsRosetta {
    /// Rosetta is never available.
    pub fn is_available(&self) -> (r: bool)
        ensures
            !r,
    {
        false
    }

    /// There is no Rosetta runtime.
    pub fn runtime_path(&self) -> (r: Option<&'static str>)
        ensures
            r is None,
    {
        None
    }
}

/// Get the Rosetta support instance for Windows.
pub fn rosetta_support() -> (r: WindowsRosetta)
    ensures
        r == WindowsRosetta,
{
    WindowsRosetta
}

/// A command is what was given, and a shell where nothing was.
pub proof fn law_shell_is_the_default(words: Seq<Seq<char>>)
    ensures
        effective_command(Some(words)) == words,
        effective_command(None) == seq!["/bin/sh"@],
{
}

/// A command can be executed exactly if it has a program and no word of it holds
/// a NUL; an empty one, the program and the arguments are told apart, in this
/// order.
pub proof fn law_executable_commands(words: Seq<Seq<char>>)
    ensures
        command_fault(words) is None <==> words.len() > 0 && forall|i: int|
            0 <= i < words.len() ==> !(#[trigger] words[i]).contains('\0'),
        words.len() == 0 ==> command_fault(words) == Some("command cannot be empty"@),
        words.len() > 0 && words[0].contains('\0') ==> command_fault(words) == Some(
            "invalid command path"@,
        ),
        words.len() > 0 && !words[0].contains('\0') && (exists|i: int|
            0 <= i < words.len() && (#[trigger] words[i]).contains('\0')) ==> command_fault(words)
            == Some("invalid command argument"@),
{
    if words.len() > 0 && !words[0].contains('\0') && has_bad_argument(words) {
        let i = choose|i: int| 1 <= i < words.len() && (#[trigger] words[i]).contains('\0');
        assert(words[i].contains('\0'));
    }
    if words.len() > 0 && !words[0].contains('\0') && (exists|i: int|
        0 <= i < words.len() && (#[trigger] words[i]).contains('\0')) {
        let i = choose|i: int| 0 <= i < words.len() && (#[trigger] words[i]).contains('\0');
        assert(has_bad_argument(words));
    }
}

} // verus!
