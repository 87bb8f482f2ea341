//! The command-line interface as clap holds it.
//!
//! `clap::Command` and `clap::ArgMatches` are opaque to Verus. This module
//! names what the library reads of them and states what the clap methods it
//! calls do to that. None of these statements is proved: they are read off
//! clap's source.

use vstd::prelude::*;
use clap::ArgMatches;
use clap::Command as ClapCommand;
use clap::parser::MatchesError;

verus! {

#[verifier::external_type_specification]
#[verifier::external_body]
pub struct ExClapCommand(ClapCommand);

#[verifier::external_type_specification]
#[verifier::external_body]
pub struct ExArgMatches(ArgMatches);

#[verifier::external_type_specification]
#[verifier::external_body]
pub struct ExMatchesError(MatchesError);

/// An argument of a command: its id and its help text.
pub struct ArgView {
    pub id: Seq<char>,
    pub help: Option<Seq<char>>,
}

/// What the library reads of a `clap::Command`: its name, its short
/// description, its arguments and its subcommands, both in the order in
/// which they were added.
pub struct CliView {
    pub name: Seq<char>,
    pub about: Option<Seq<char>>,
    pub args: Seq<ArgView>,
    pub subcommands: Seq<CliView>,
}

/// The name, description, arguments and subcommands that a `clap::Command`
/// holds.
pub uninterp spec fn cli_view(cli: ClapCommand) -> CliView;

/// The subcommand that an invocation selected, if it selected one: its
/// name and the matches below it.
pub uninterp spec fn selected(matches: ArgMatches) -> Option<(Seq<char>, ArgMatches)>;

/// The first value that an invocation holds for the argument `id`, where
/// it holds one and the value is a `String`.
pub uninterp spec fn held_string(matches: ArgMatches, id: Seq<char>) -> Option<Seq<char>>;

/// `Command::new`: a command called `name`, with no description, no
/// arguments and no subcommands.
#[verifier::external_body]
pub(crate) fn clap_command(name: String) -> (cli: ClapCommand)
    ensures
        cli_view(cli) == (CliView {
            name: name@,
            about: None,
            args: Seq::empty(),
            subcommands: Seq::empty(),
        }),
{
    ClapCommand::new(name)
}

/// `Command::about`: the same command with `about` as its description.
#[verifier::external_body]
pub(crate) fn clap_about(cli: ClapCommand, about: String) -> (described: ClapCommand)
    ensures
        cli_view(described) == (CliView { about: Some(about@), ..cli_view(cli) }),
{
    cli.about(about)
}

/// `Command::arg` with an `Arg::new(id).help(help)`: the same command with
/// that argument behind those it has.
#[verifier::external_body]
pub(crate) fn clap_arg(cli: ClapCommand, id: String, help: String) -> (extended: ClapCommand)
    ensures
        cli_view(extended) == (CliView {
            args: cli_view(cli).args.push(ArgView { id: id@, help: Some(help@) }),
            ..cli_view(cli)
        }),
{
    cli.arg(clap::Arg::new(id).help(help))
}

/// `Command::subcommand`: the same command with `sub` behind the
/// subcommands it has. Of `sub` clap changes only the place at which help
/// lists it, which is no part of the view.
#[verifier::external_body]
pub(crate) fn clap_subcommand(cli: ClapCommand, sub: ClapCommand) -> (extended: ClapCommand)
    ensures
        cli_view(extended) == (CliView {
            subcommands: cli_view(cli).subcommands.push(cli_view(sub)),
            ..cli_view(cli)
        }),
{
    cli.subcommand(sub)
}

/// `ArgMatches::subcommand`: the name of the selected subcommand and the
/// matches below it, where one was selected.
#[verifier::external_body]
pub(crate) fn chosen_subcommand<'a>(matches: &'a ArgMatches) -> (chosen: Option<
    (&'a str, &'a ArgMatches),
>)
    ensures
        match chosen {
            Some((name, inner)) => selected(*matches) == Some((name@, *inner)),
            None => selected(*matches) is None,
        },
{
    matches.subcommand()
}

/// `ArgMatches::try_get_one::<String>`: a copy of the first value held for
/// `id`. clap answers with an error where the value is no `String`, and in
/// some builds where no argument has this id; it answers `Ok(None)` where
/// nothing is held.
#[verifier::external_body]
pub(crate) fn matched_string(matches: &ArgMatches, id: &str) -> (value: Result<
    Option<String>,
    MatchesError,
>)
    ensures
        held_string(*matches, id@) == match value {
            Ok(Some(text)) => Some(text@),
            _ => None,
        },
{
    matches.try_get_one::<String>(id).map(|held| held.cloned())
}

} // verus!
