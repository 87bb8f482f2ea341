use runt::compile::{build_cli_from_runtfile, match_command};
use runt::parser::{compile, parse, script_for, try_parse, Event};
use runt::runtfile::{Command, Runtfile, Script};
use runt::text::normalize;

const CHOCOLATE: &str = "# Chocolate\n\n## Rain\n\nSome stay high while others feel the pain\n\n```sh\necho chocolate rain\n```\n";

fn heading(level: u8, title: &str) -> Vec<Event> {
    vec![Event::Heading(level), Event::Text(title.to_string())]
}

fn names(runtfile: &Runtfile) -> Vec<String> {
    runtfile.commands.values().map(|c| c.name.clone()).collect()
}

fn same_command(a: &Command, b: &Command) -> bool {
    a.name == b.name
        && a.description == b.description
        && a.script == b.script
        && a.code == b.code
        && a.level == b.level
        && a.subcommands == b.subcommands
}

#[test]
fn parses_markdown_command() {
    let runtfile = parse(CHOCOLATE);

    println!("{:?}", runtfile);
    assert_eq!(runtfile.root_command().name, "chocolate".to_string());
    let command = runtfile.find_command_by_name("rain");
    assert!(command.is_some());
    let command = command.unwrap();
    assert_eq!(command.script, Script::Bash);

    let cli = build_cli_from_runtfile(&runtfile);
    assert_eq!(cli.get_name(), "chocolate".to_string());

    let subcommand = cli.find_subcommand("rain");
    assert!(subcommand.is_some());
    let subcommand = subcommand.unwrap();

    let about = subcommand.get_about();
    assert!(about.is_some());
    let about = about.unwrap();
    assert!(about.to_string().contains("feel the pain"));
}

#[test]
fn chocolate_rain_tree_is_exact() {
    let runtfile = parse(CHOCOLATE);
    assert_eq!(runtfile.commands.len(), 2);
    let root = runtfile.root_command();
    assert_eq!(root.name, "chocolate");
    assert_eq!(root.description, "");
    assert_eq!(root.code, "");
    assert_eq!(root.level, 1);
    assert_eq!(root.subcommands, vec![1u32]);
    let rain = runtfile.find_command_by_name("rain").unwrap();
    assert_eq!(rain.description, "Some stay high while others feel the pain");
    assert_eq!(rain.code, "echo chocolate rain\n");
    assert_eq!(rain.script, Script::Bash);
    assert_eq!(rain.level, 2);
    assert!(rain.subcommands.is_empty());
}

#[test]
fn chocolate_rain_resolves_to_rain() {
    let runtfile = parse(CHOCOLATE);
    let cli = build_cli_from_runtfile(&runtfile);
    let matches = cli.try_get_matches_from(vec!["chocolate", "rain"]).unwrap();
    let (found, passthrough) = match_command(&runtfile, &matches, runtfile.root_command());
    let found = found.unwrap();
    assert_eq!(found.name, "rain");
    assert_eq!(found.code, "echo chocolate rain\n");
    assert_eq!(passthrough, None);
}

#[test]
fn try_parse_gives_the_same_tree_as_parse() {
    let parsed = try_parse(CHOCOLATE).unwrap();
    let direct = parse(CHOCOLATE);
    assert_eq!(parsed.commands.len(), direct.commands.len());
    for (a, b) in parsed.commands.values().zip(direct.commands.values()) {
        assert!(same_command(a, b));
    }
}

#[test]
fn parsing_twice_gives_the_same_tree() {
    let text = "# Tool\n\n## Build\n\nBuilds it\n\n```python\nprint(1)\n```\n\n### Fast\n\n```js\n1\n```\n\n## Test\n";
    let first = parse(text);
    let second = parse(text);
    assert_eq!(first.commands.len(), 4);
    assert_eq!(first.commands.len(), second.commands.len());
    for (a, b) in first.commands.values().zip(second.commands.values()) {
        assert!(same_command(a, b));
    }
}

#[test]
fn nested_document_links_children_in_order() {
    let text = "# Tool\n\n## Build\n\nBuilds it\n\n```python\nprint(1)\n```\n\n### Fast\n\n```js\n1\n```\n\n## Test\n";
    let runtfile = parse(text);
    assert_eq!(names(&runtfile), vec!["tool", "build", "fast", "test"]);
    let all: Vec<&Command> = runtfile.commands.values().collect();
    assert_eq!(all[0].subcommands, vec![1u32, 3u32]);
    assert_eq!(all[1].subcommands, vec![2u32]);
    assert_eq!(all[1].script, Script::Python);
    assert_eq!(all[1].code, "print(1)\n");
    assert_eq!(all[1].description, "Builds it");
    assert_eq!(all[2].script, Script::Javascript);
    assert_eq!(all[2].level, 3);
    assert!(all[3].subcommands.is_empty());
    assert_eq!(all[3].code, "");
}

#[test]
fn normalize_joins_with_dashes_and_lowercases() {
    assert_eq!(normalize("Some Name"), "some-name");
    assert_eq!(normalize("Some Name"), normalize("Some Name"));
    assert_eq!(normalize("A  B"), "a--b");
    assert_eq!(normalize("already-fine"), "already-fine");
    assert_eq!(normalize(""), "");
    assert_eq!(normalize("ÀB c"), "àb-c");
}

#[test]
fn info_strings_name_their_script() {
    assert_eq!(script_for("python"), Script::Python);
    assert_eq!(script_for("javascript"), Script::Javascript);
    assert_eq!(script_for("js"), Script::Javascript);
    assert_eq!(script_for("ruby"), Script::Ruby);
    assert_eq!(script_for("bash"), Script::Bash);
    assert_eq!(script_for("sh"), Script::Bash);
    assert_eq!(script_for(""), Script::Bash);
    assert_eq!(script_for("Python"), Script::Bash);
    assert_eq!(script_for("python3"), Script::Bash);
}

#[test]
fn compile_of_nothing_is_a_bare_root() {
    let runtfile = compile(&Vec::new());
    assert_eq!(runtfile.commands.len(), 1);
    let root = runtfile.root_command();
    assert_eq!(root.name, "");
    assert_eq!(root.description, "");
    assert_eq!(root.script, Script::Bash);
    assert_eq!(root.code, "");
    assert_eq!(root.level, 1);
    assert!(root.subcommands.is_empty());
}

#[test]
fn first_text_names_second_describes_later_ones_are_ignored() {
    let events = vec![
        Event::Text("Big Tool".to_string()),
        Event::Text("Does Things".to_string()),
        Event::Text("More words".to_string()),
    ];
    let runtfile = compile(&events);
    let root = runtfile.root_command();
    assert_eq!(root.name, "big-tool");
    assert_eq!(root.description, "Does Things");
}

#[test]
fn last_code_block_wins() {
    let events = vec![
        Event::CodeBlock { info: "python".to_string(), literal: "one".to_string() },
        Event::Other,
        Event::CodeBlock { info: "nothing known".to_string(), literal: "two".to_string() },
    ];
    let runtfile = compile(&events);
    let root = runtfile.root_command();
    assert_eq!(root.code, "two");
    assert_eq!(root.script, Script::Bash);
    assert_eq!(root.name, "");
}

#[test]
fn orphan_heading_is_dropped() {
    let mut events = heading(1, "Root");
    events.extend(heading(3, "Orphan"));
    let runtfile = compile(&events);
    assert_eq!(runtfile.commands.len(), 1);
    assert!(runtfile.commands.values().all(|c| c.level != 3));
    let root = runtfile.root_command();
    assert_eq!(root.name, "root");
    assert_eq!(root.description, "Orphan");
    assert!(root.subcommands.is_empty());
}

#[test]
fn orphan_heading_in_a_document_is_dropped() {
    let runtfile = parse("# Root\n\n### Orphan\n\n## Child\n");
    assert_eq!(names(&runtfile), vec!["root", "child"]);
    assert!(runtfile.commands.values().all(|c| c.level != 3));
}

#[test]
fn heading_of_depth_zero_is_dropped() {
    let events = vec![Event::Heading(0), Event::Text("x".to_string())];
    let runtfile = compile(&events);
    assert_eq!(runtfile.commands.len(), 1);
    assert_eq!(runtfile.root_command().name, "x");
}

#[test]
fn ruby_block_on_an_empty_document_tags_the_root() {
    let runtfile = parse("```ruby\nputs 1\n```\n");
    assert_eq!(runtfile.commands.len(), 1);
    let root = runtfile.root_command();
    assert_eq!(root.script, Script::Ruby);
    assert_eq!(root.code, "puts 1\n");
}

#[test]
fn heading_attaches_to_the_first_command_one_level_up() {
    let mut events = heading(1, "Root");
    events.extend(heading(2, "A"));
    events.extend(heading(2, "B"));
    events.extend(heading(3, "Deep"));
    let runtfile = compile(&events);
    let all: Vec<&Command> = runtfile.commands.values().collect();
    assert_eq!(all.len(), 4);
    assert_eq!(all[0].subcommands, vec![1u32, 2u32]);
    assert_eq!(all[1].name, "a");
    assert_eq!(all[1].subcommands, vec![3u32]);
    assert_eq!(all[2].name, "b");
    assert!(all[2].subcommands.is_empty());
    assert_eq!(all[3].name, "deep");
    assert_eq!(all[3].level, 3);
}
