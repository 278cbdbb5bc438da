use neocmakelsp::cli::parse_args;

fn args(words: &[&str]) -> Vec<String> {
    words.iter().map(|w| w.to_string()).collect()
}

#[test]
fn test_parse_args() {
    let cli = parse_args(args(&["neocmakelsp", "--stdio"]));
    assert_eq!(cli.stdio, true);
}

#[test]
fn parse_args_without_flag() {
    let cli = parse_args(args(&["neocmakelsp"]));
    assert_eq!(cli.stdio, false);
}

#[test]
fn parse_args_wrapped_command_gets_separator() {
    // The second word does not start with a dash, so a `--` separator is
    // inserted after the program name and the trailing words are read as
    // operands, not flags.
    let cli = parse_args(args(&["booster", "server_cmd", "--stdio"]));
    assert_eq!(cli.stdio, false);
}

#[test]
fn parse_args_flag_after_separator_is_ignored() {
    let cli = parse_args(args(&["neocmakelsp", "--", "--stdio"]));
    assert_eq!(cli.stdio, false);
}
