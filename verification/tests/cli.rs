use clap::{Arg, Command as ClapCommand};
use la_arena::Arena;
use runt::compile::{build_cli_from_runtfile, match_command};
use runt::parser::{compile, parse, Event};
use runt::runtfile::{Command, Runtfile, Script};

fn heading(level: u8, title: &str) -> Vec<Event> {
    vec![Event::Heading(level), Event::Text(title.to_string())]
}

fn code(info: &str, literal: &str) -> Event {
    Event::CodeBlock { info: info.to_string(), literal: literal.to_string() }
}

fn command(name: &str, level: u8, code: &str, subcommands: Vec<u32>) -> Command {
    Command {
        name: name.to_string(),
        description: String::new(),
        script: Script::Bash,
        code: code.to_string(),
        level,
        subcommands,
    }
}

fn tool() -> Runtfile {
    let mut events = heading(1, "Tool");
    events.push(Event::Text("A tool".to_string()));
    events.extend(heading(2, "Build"));
    events.push(Event::Text("Builds it".to_string()));
    events.push(code("sh", "make"));
    events.extend(heading(3, "Fast"));
    events.push(code("python", "fast()"));
    events.extend(heading(3, "Slow"));
    events.extend(heading(2, "Test"));
    events.push(code("js", "test()"));
    compile(&events)
}

fn subcommand_names(cli: &ClapCommand) -> Vec<String> {
    cli.get_subcommands().map(|c| c.get_name().to_string()).collect()
}

fn argument_ids(cli: &ClapCommand) -> Vec<String> {
    cli.get_arguments().map(|a| a.get_id().to_string()).collect()
}

#[test]
fn single_root_resolves_to_itself() {
    let runtfile = parse("# Solo\n\nJust one command\n");
    assert_eq!(runtfile.commands.len(), 1);
    let cli = build_cli_from_runtfile(&runtfile);
    let matches = cli.try_get_matches_from(vec!["solo"]).unwrap();
    let (found, passthrough) = match_command(&runtfile, &matches, runtfile.root_command());
    let found = found.unwrap();
    assert_eq!(found.name, "solo");
    assert_eq!(found.description, "Just one command");
    assert_eq!(found.level, 1);
    assert_eq!(passthrough, None);
}

#[test]
fn siblings_become_subcommands_in_document_order() {
    let runtfile = parse("# Root\n\n## Zeta\n\n## Alpha\n\n## Mid\n\n## Beta\n");
    let cli = build_cli_from_runtfile(&runtfile);
    assert_eq!(cli.get_name(), "root");
    assert_eq!(subcommand_names(&cli), vec!["zeta", "alpha", "mid", "beta"]);
}

#[test]
fn no_siblings_no_subcommands() {
    let runtfile = parse("# Root\n");
    let cli = build_cli_from_runtfile(&runtfile);
    assert_eq!(subcommand_names(&cli), Vec::<String>::new());
}

#[test]
fn cli_mirrors_the_tree() {
    let runtfile = tool();
    let cli = build_cli_from_runtfile(&runtfile);
    assert_eq!(cli.get_name(), "tool");
    assert_eq!(cli.get_about().unwrap().to_string(), "A tool");
    assert_eq!(argument_ids(&cli), Vec::<String>::new());
    assert_eq!(subcommand_names(&cli), vec!["build", "test"]);

    let build = cli.find_subcommand("build").unwrap();
    assert_eq!(build.get_about().unwrap().to_string(), "Builds it");
    assert_eq!(argument_ids(build), vec!["--"]);
    let passthrough = build.get_arguments().next().unwrap();
    assert_eq!(
        passthrough.get_help().unwrap().to_string(),
        "Arguments coming after this are passed to the script."
    );
    assert_eq!(subcommand_names(build), vec!["fast", "slow"]);

    let fast = build.find_subcommand("fast").unwrap();
    assert_eq!(argument_ids(fast), vec!["--"]);
    assert_eq!(subcommand_names(fast), Vec::<String>::new());

    let slow = build.find_subcommand("slow").unwrap();
    assert_eq!(slow.get_about().unwrap().to_string(), "");
    assert_eq!(argument_ids(slow), Vec::<String>::new());

    let test = cli.find_subcommand("test").unwrap();
    assert_eq!(argument_ids(test), vec!["--"]);
}

#[test]
fn root_with_code_takes_no_argument() {
    let runtfile = compile(&vec![Event::Text("Root".to_string()), code("sh", "ls")]);
    let cli = build_cli_from_runtfile(&runtfile);
    assert_eq!(argument_ids(&cli), Vec::<String>::new());
}

#[test]
fn resolves_to_the_deepest_command_named() {
    let runtfile = tool();
    let cli = build_cli_from_runtfile(&runtfile);
    let matches = cli.try_get_matches_from(vec!["tool", "build", "fast"]).unwrap();
    let (found, passthrough) = match_command(&runtfile, &matches, runtfile.root_command());
    let found = found.unwrap();
    assert_eq!(found.name, "fast");
    assert_eq!(found.script, Script::Python);
    assert_eq!(found.code, "fast()");
    assert_eq!(passthrough, None);
}

#[test]
fn branch_is_chosen_where_the_invocation_stops_at_it() {
    let runtfile = tool();
    let cli = build_cli_from_runtfile(&runtfile);
    let matches = cli.try_get_matches_from(vec!["tool", "build"]).unwrap();
    let (found, passthrough) = match_command(&runtfile, &matches, runtfile.root_command());
    let found = found.unwrap();
    assert_eq!(found.name, "build");
    assert_eq!(found.code, "make");
    assert_eq!(found.subcommands.len(), 2);
    assert_eq!(passthrough, None);
}

#[test]
fn bare_invocation_resolves_to_the_root() {
    let runtfile = tool();
    let cli = build_cli_from_runtfile(&runtfile);
    let matches = cli.try_get_matches_from(vec!["tool"]).unwrap();
    let (found, passthrough) = match_command(&runtfile, &matches, runtfile.root_command());
    assert_eq!(found.unwrap().name, "tool");
    assert_eq!(passthrough, None);
}

#[test]
fn passthrough_is_handed_on() {
    let runtfile = tool();
    let cli = build_cli_from_runtfile(&runtfile);
    let matches = cli.try_get_matches_from(vec!["tool", "test", "--", "-v"]).unwrap();
    let (found, passthrough) = match_command(&runtfile, &matches, runtfile.root_command());
    assert_eq!(found.unwrap().name, "test");
    assert_eq!(passthrough, Some("-v".to_string()));
}

#[test]
fn passthrough_without_separator() {
    let runtfile = tool();
    let cli = build_cli_from_runtfile(&runtfile);
    let matches = cli.try_get_matches_from(vec!["tool", "build", "fast", "now"]).unwrap();
    let (found, passthrough) = match_command(&runtfile, &matches, runtfile.root_command());
    assert_eq!(found.unwrap().name, "fast");
    assert_eq!(passthrough, Some("now".to_string()));
}

#[test]
fn command_that_the_invocation_does_not_reach() {
    let runtfile = tool();
    let cli = build_cli_from_runtfile(&runtfile);
    let matches = cli.try_get_matches_from(vec!["tool", "test"]).unwrap();
    let build = runtfile.find_command_by_name("build").unwrap();
    let (found, passthrough) = match_command(&runtfile, &matches, build);
    assert!(found.is_none());
    assert_eq!(passthrough, None);

    let bare = build_cli_from_runtfile(&runtfile).try_get_matches_from(vec!["tool"]).unwrap();
    let (found, passthrough) = match_command(&runtfile, &bare, build);
    assert!(found.is_none());
    assert_eq!(passthrough, None);
}

#[test]
fn command_resolved_from_its_own_level() {
    let runtfile = tool();
    let cli = build_cli_from_runtfile(&runtfile);
    let matches = cli.try_get_matches_from(vec!["tool", "build", "slow"]).unwrap();
    let build = runtfile.find_command_by_name("build").unwrap();
    let (found, _) = match_command(&runtfile, &matches, build);
    assert_eq!(found.unwrap().name, "slow");
}

#[test]
fn leftmost_child_wins() {
    let mut runtfile = Runtfile { commands: Arena::new() };
    runtfile.add_command(command("prog", 1, "", vec![1, 2, 3]));
    runtfile.add_command(command("other", 2, "zero", vec![]));
    runtfile.add_command(command("dup", 2, "first", vec![]));
    runtfile.add_command(command("dup", 2, "second", vec![]));
    let cli = ClapCommand::new("prog")
        .subcommand(ClapCommand::new("other"))
        .subcommand(ClapCommand::new("dup").arg(Arg::new("--")));
    let matches = cli.try_get_matches_from(vec!["prog", "dup", "extra"]).unwrap();
    let (found, passthrough) = match_command(&runtfile, &matches, runtfile.root_command());
    let found = found.unwrap();
    assert_eq!(found.name, "dup");
    assert_eq!(found.code, "first");
    assert_eq!(passthrough, Some("extra".to_string()));
}
