use runt::eval::{command_line, ruby, EvalError};
use runt::parser::parse;
use runt::runtfile::Script;

fn words(list: &[&str]) -> Vec<String> {
    list.iter().map(|w| w.to_string()).collect()
}

#[test]
fn ruby_is_not_wired_up() {
    assert_eq!(ruby("puts 1", None), Err(EvalError::RubyUnimplemented));
    assert_eq!(ruby("", Some("x".to_string())), Err(EvalError::RubyUnimplemented));
    assert_eq!(
        EvalError::RubyUnimplemented.message(),
        "Ruby support is not yet implemented."
    );
}

#[test]
fn ruby_block_cannot_be_dispatched() {
    let runtfile = parse("```ruby\nputs 1\n```\n");
    let root = runtfile.root_command();
    assert_eq!(root.script, Script::Ruby);
    assert_eq!(command_line(root.script, None), Err(EvalError::RubyUnimplemented));
    assert_eq!(ruby(&root.code, None), Err(EvalError::RubyUnimplemented));
}

#[test]
fn command_lines_without_passthrough() {
    assert_eq!(command_line(Script::Javascript, None), Ok(words(&["node", "-"])));
    assert_eq!(command_line(Script::Python, None), Ok(words(&["python", "-"])));
    assert_eq!(command_line(Script::Bash, None), Ok(words(&["bash", "-s", "-"])));
}

#[test]
fn command_lines_with_passthrough() {
    let extra = Some("a b".to_string());
    assert_eq!(command_line(Script::Javascript, extra.clone()), Ok(words(&["node", "-", "a b"])));
    assert_eq!(command_line(Script::Python, extra.clone()), Ok(words(&["python", "-", "a b"])));
    assert_eq!(command_line(Script::Bash, extra.clone()), Ok(words(&["bash", "-s", "-", "a b"])));
    assert_eq!(command_line(Script::Ruby, extra), Err(EvalError::RubyUnimplemented));
}
