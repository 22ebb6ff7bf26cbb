use mini_shell::tokenizer::{prepare_line, tokenize};

fn toks(line: &str) -> Vec<String> {
    tokenize(line)
}

#[test]
fn simple_words() {
    assert_eq!(toks("echo hi"), vec!["echo".to_string(), "hi".to_string()]);
}

#[test]
fn quoted_argument_keeps_quotes() {
    assert_eq!(toks("echo \"a b\""), vec!["echo".to_string(), "\"a b\"".to_string()]);
}

#[test]
fn whitespace_collapse() {
    assert_eq!(toks("  a   b "), vec!["a".to_string(), "b".to_string()]);
}

#[test]
fn empty_line_has_no_tokens() {
    assert_eq!(toks(""), Vec::<String>::new());
}

#[test]
fn all_spaces_has_no_tokens() {
    assert_eq!(toks("      "), Vec::<String>::new());
}

#[test]
fn unterminated_quote_is_one_token() {
    assert_eq!(toks("echo \"a b"), vec!["echo".to_string(), "\"a b".to_string()]);
}

#[test]
fn quotes_inside_a_word() {
    assert_eq!(toks("\"a\"b\" c\""), vec!["\"a\"b\" c\"".to_string()]);
}

#[test]
fn quoted_spaces_join_words() {
    assert_eq!(
        toks("say \"one two\" three"),
        vec!["say".to_string(), "\"one two\"".to_string(), "three".to_string()]
    );
}

#[test]
fn tab_is_trimmed_from_emitted_token() {
    assert_eq!(toks("a\t b"), vec!["a".to_string(), "b".to_string()]);
}

#[test]
fn lone_tab_leaves_empty_token() {
    assert_eq!(toks("x \t y"), vec!["x".to_string(), "".to_string(), "y".to_string()]);
}

#[test]
fn final_token_is_not_trimmed() {
    assert_eq!(toks("a b\t"), vec!["a".to_string(), "b\t".to_string()]);
}

#[test]
fn single_word() {
    assert_eq!(toks("pwd"), vec!["pwd".to_string()]);
}

#[test]
fn prepare_line_skips_blank_input() {
    assert_eq!(prepare_line("   \t\n"), None);
    assert_eq!(prepare_line(""), None);
}

#[test]
fn prepare_line_trims_and_tokenizes() {
    assert_eq!(
        prepare_line("  echo hi \n"),
        Some(vec!["echo".to_string(), "hi".to_string()])
    );
}
