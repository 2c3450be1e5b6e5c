use rush::lexer::{split_subcommands, tokenize_comm, trim_line};

fn strings(v: &[&str]) -> Vec<String> {
    v.iter().map(|s| s.to_string()).collect()
}

#[test]
fn split_plain_line_is_single_subcommand() {
    assert_eq!(split_subcommands("ls -la"), strings(&["ls -la"]));
    assert_eq!(split_subcommands("a"), strings(&["a"]));
}

#[test]
fn split_of_trimmed_plain_line_returns_it() {
    // A line with no pipe and no quotes splits, after trimming, into
    // exactly one subcommand: the trimmed line itself.
    let trimmed = trim_line("  ls -la \n");
    assert_eq!(split_subcommands(&trimmed), vec![trimmed.clone()]);
    assert_eq!(trimmed, "ls -la".to_string());
}

#[test]
fn split_preserves_quoted_pipe() {
    // A pipe strictly inside a matched quote pair never splits; the quotes
    // stay in the emitted subcommand and surrounding whitespace is kept.
    assert_eq!(
        split_subcommands("\"a|b\" | cat"),
        strings(&["\"a|b\" ", " cat"])
    );
}

#[test]
fn split_on_unquoted_pipes() {
    assert_eq!(split_subcommands("a | b | c"), strings(&["a ", " b ", " c"]));
    assert_eq!(split_subcommands("a|b"), strings(&["a", "b"]));
}

#[test]
fn split_drops_empty_spans() {
    assert_eq!(split_subcommands("a || b"), strings(&["a ", " b"]));
    assert_eq!(split_subcommands("a|"), strings(&["a"]));
    assert_eq!(split_subcommands("|a"), strings(&["a"]));
    assert_eq!(split_subcommands("|"), strings(&[]));
}

#[test]
fn split_single_quotes_protect_too() {
    assert_eq!(split_subcommands("'x|y'"), strings(&["'x|y'"]));
}

#[test]
fn split_unterminated_quote_protects_rest() {
    // A quote that is never closed covers the rest of the line.
    assert_eq!(split_subcommands("\"a | b"), strings(&["\"a | b"]));
}

#[test]
fn tokenize_simple_words() {
    assert_eq!(tokenize_comm("ls -la /tmp"), strings(&["ls", "-la", "/tmp"]));
}

#[test]
fn tokenize_strips_quotes_keeps_inner_space() {
    assert_eq!(
        tokenize_comm("echo \"hello world\""),
        strings(&["echo", "hello world"])
    );
}

#[test]
fn tokenize_single_word_is_identity() {
    assert_eq!(tokenize_comm("word"), strings(&["word"]));
}

#[test]
fn tokenize_collapses_whitespace_runs() {
    assert_eq!(tokenize_comm("  a \t  b  "), strings(&["a", "b"]));
}

#[test]
fn tokenize_empty_and_blank_give_no_tokens() {
    assert_eq!(tokenize_comm(""), strings(&[]));
    assert_eq!(tokenize_comm("   \t "), strings(&[]));
}

#[test]
fn tokenize_quote_kinds_toggle_one_state() {
    // Either quote character toggles the same state: a single quote opened
    // here is closed by a double quote.
    assert_eq!(tokenize_comm("'a\" b"), strings(&["a", "b"]));
}

#[test]
fn tokenize_unterminated_quote_is_lenient() {
    assert_eq!(tokenize_comm("echo \"a b"), strings(&["echo", "a b"]));
}

#[test]
fn tokenize_single_quotes() {
    assert_eq!(tokenize_comm("echo 'one two'"), strings(&["echo", "one two"]));
}

#[test]
fn trim_removes_surrounding_blanks() {
    assert_eq!(trim_line("  ls -la \n"), "ls -la".to_string());
    assert_eq!(trim_line("\t\n"), String::new());
    assert_eq!(trim_line(""), String::new());
    assert_eq!(trim_line("x"), "x".to_string());
}
