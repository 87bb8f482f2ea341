//! Which interpreter runs a script, and how it is called.
//!
//! Nothing here starts a process: the functions say what is to be run, and
//! the caller runs it.

use vstd::prelude::*;
use crate::runtfile::Script;

verus! {

/// Why a script cannot be run.
#[derive(Debug, Clone, Copy, PartialEq, Eq, Structural)]
pub enum EvalError {
    /// The script is written in Ruby, for which no interpreter is wired up.
    RubyUnimplemented,
}

impl EvalError {
    /// The error in words, as plain text.
    pub open spec fn text(self) -> Seq<char> {
        "Ruby support is not yet implemented."@
    }

    /// The error in words.
    pub fn message(&self) -> (text: String)
        ensures
            text@ == self.text(),
    {
        "Ruby support is not yet implemented.".to_owned()
    }
}

/// The texts of a list of strings.
pub open spec fn texts(words: Seq<String>) -> Seq<Seq<char>> {
    words.map_values(|word: String| word@)
}

/// The words that start the interpreter of a script, which reads the code
/// from its standard input: the program, then its arguments. Ruby has none.
pub open spec fn interpreter_for(script: Script) -> Option<Seq<Seq<char>>> {
    match script {
        Script::Javascript => Some(seq!["node"@, "-"@]),
        Script::Python => Some(seq!["python"@, "-"@]),
        Script::Bash => Some(seq!["bash"@, "-s"@, "-"@]),
        Script::Ruby => None,
    }
}

/// The whole command line for a script: the interpreter's words, then what
/// the invocation hands on to the script, if anything.
pub open spec fn command_line_for(script: Script, args: Option<Seq<char>>) -> Option<
    Seq<Seq<char>>,
> {
    match interpreter_for(script) {
        Some(words) => Some(
            match args {
                Some(extra) => words.push(extra),
                None => words,
            },
        ),
        None => None,
    }
}

/// The command line that runs a script of kind `script`, or the reason why
/// there is none.
pub fn command_line(script: Script, args: Option<String>) -> (line: Result<Vec<String>, EvalError>)
    ensures
        match line {
            Ok(words) => command_line_for(
                script,
                match args {
                    Some(extra) => Some(extra@),
                    None => None,
                },
            ) == Some(texts(words@)),
            Err(error) => script == Script::Ruby && error == EvalError::RubyUnimplemented,
        },
{
    let mut words: Vec<String> = Vec::new();
    match script {
        Script::Javascript => {
            words.push("node".to_owned());
        },
        Script::Python => {
            words.push("python".to_owned());
        },
        Script::Bash => {
            words.push("bash".to_owned());
            words.push("-s".to_owned());
        },
        Script::Ruby => {
            return Err(EvalError::RubyUnimplemented);
        },
    }
    words.push("-".to_owned());
    if let Some(extra) = args {
        words.push(extra);
    }
    assert(texts(words@) =~= command_line_for(
        script,
        match args {
            Some(extra) => Some(extra@),
            None => None,
        },
    ).unwrap());
    Ok(words)
}

/// Runs Ruby code: not possible yet, whatever the code.
pub fn ruby(_code: &str, _args: Option<String>) -> (outcome: Result<(), EvalError>)
    ensures
        outcome == Err::<(), EvalError>(EvalError::RubyUnimplemented),
{
    Err(EvalError::RubyUnimplemented)
}

} // verus!
