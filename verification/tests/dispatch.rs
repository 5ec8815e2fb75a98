use rush::dispatch::{
    cd_target, clear_sequence, dispatch_line, parse_tokens, Action, ParsedLine,
};
use rush::lexer::tokenize_line;

fn home() -> Option<String> {
    Some("/home/someone".to_string())
}

fn run(line: &str) -> (Action, Vec<String>) {
    dispatch_line(line, home())
}

#[test]
fn exit_terminates() {
    assert_eq!(run("exit").0, Action::Exit);
}

#[test]
fn exit_with_surrounding_whitespace_terminates() {
    assert_eq!(run("   exit\t ").0, Action::Exit);
}

#[test]
fn exit_ignores_trailing_arguments() {
    assert_eq!(run("exit now please").0, Action::Exit);
}

#[test]
fn empty_line_does_nothing() {
    let (action, errors) = run("");
    assert_eq!(action, Action::Proceed);
    assert!(errors.is_empty());
}

#[test]
fn whitespace_line_does_nothing() {
    let (action, errors) = run(" \t  ");
    assert_eq!(action, Action::Proceed);
    assert!(errors.is_empty());
}

#[test]
fn cd_goes_to_its_argument() {
    assert_eq!(run("cd /tmp").0, Action::ChangeDir("/tmp".to_string()));
}

#[test]
fn cd_without_argument_goes_home() {
    assert_eq!(run("cd").0, Action::ChangeDir("/home/someone".to_string()));
}

#[test]
fn cd_without_argument_or_home_goes_to_root() {
    assert_eq!(dispatch_line("cd", None).0, Action::ChangeDir("/".to_string()));
}

#[test]
fn cd_target_prefers_first_argument() {
    let args = vec!["/var".to_string(), "/etc".to_string()];
    assert_eq!(cd_target(&args, home()), "/var".to_string());
}

#[test]
fn clear_and_cls_clear_the_screen() {
    assert_eq!(run("clear").0, Action::ClearScreen);
    assert_eq!(run("cls").0, Action::ClearScreen);
}

#[test]
fn clear_sequence_is_the_ansi_erase_sequence() {
    assert_eq!(clear_sequence(), "\u{1b}[2J\u{1b}[3J\u{1b}[H".to_string());
}

#[test]
fn other_commands_run_a_program() {
    let (action, errors) = run("ls -l /tmp");
    assert_eq!(
        action,
        Action::RunProgram("ls".to_string(), vec!["-l".to_string(), "/tmp".to_string()])
    );
    assert!(errors.is_empty());
}

#[test]
fn example_scenario_runs_echo_with_two_arguments() {
    let (action, errors) = run("echo \"hello world\" foo");
    assert_eq!(
        action,
        Action::RunProgram(
            "echo".to_string(),
            vec!["hello world".to_string(), "foo".to_string()]
        )
    );
    assert!(errors.is_empty());
}

#[test]
fn unclosed_quote_reports_and_keeps_the_command() {
    let (action, errors) = run("foo \"bar");
    assert_eq!(action, Action::RunProgram("foo".to_string(), vec![]));
    assert_eq!(errors, vec!["Unclosed quote: \"".to_string()]);
}

#[test]
fn unclosed_quote_alone_reports_and_does_nothing() {
    let (action, errors) = run("\"bar");
    assert_eq!(action, Action::Proceed);
    assert_eq!(errors, vec!["Unclosed quote: \"".to_string()]);
}

#[test]
fn first_unquoted_word_is_the_command_even_after_a_literal() {
    let (action, _) = run("\"a\" b");
    assert_eq!(action, Action::RunProgram("b".to_string(), vec!["a".to_string()]));
}

#[test]
fn quoted_word_is_an_argument_not_the_command() {
    let (action, _) = run("\"exit\" run");
    assert_eq!(
        action,
        Action::RunProgram("run".to_string(), vec!["exit".to_string()])
    );
}

#[test]
fn unquoted_exit_after_literal_is_still_the_builtin() {
    assert_eq!(run("\"a\" exit").0, Action::Exit);
}

#[test]
fn parse_tokens_partitions_into_command_and_arguments() {
    let tokens = tokenize_line("tar -x \"my file\"");
    let (parsed, errors) = parse_tokens(&tokens);
    assert_eq!(
        parsed,
        Some(ParsedLine {
            command: "tar".to_string(),
            args: vec!["-x".to_string(), "my file".to_string()],
        })
    );
    assert!(errors.is_empty());
}

#[test]
fn parse_tokens_without_a_command_gives_none() {
    let tokens = tokenize_line("  ");
    let (parsed, errors) = parse_tokens(&tokens);
    assert_eq!(parsed, None);
    assert!(errors.is_empty());
}
