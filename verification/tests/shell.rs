use mini_shell::context::{format_prompt, get_simplified_cwd, parse_head_branch};
use mini_shell::dispatch::{
    builtin_of_name, cd_error_message, echo_message, exit_decision, expand_tilde, is_builtin,
    not_found_message, type_message, BuiltinCmd, ExitDecision,
};
use mini_shell::numbers::parse_i32;
use mini_shell::paths::{ancestor_chain, base_name, contains_str, get_git_root, parent_of};
use mini_shell::resolver::{first_existing, path_candidates};
use mini_shell::strutil::{str_eq, str_has_prefix, trim_str};

fn strings(items: &[&str]) -> Vec<String> {
    items.iter().map(|s| s.to_string()).collect()
}

#[test]
fn type_reports_builtin() {
    assert_eq!(type_message("echo", &None), "echo is a shell builtin");
}

#[test]
fn type_reports_not_found() {
    assert_eq!(
        type_message("nonexistent_cmd_xyz", &None),
        "type: nonexistent_cmd_xyz: not found"
    );
}

#[test]
fn type_reports_resolved_path() {
    assert_eq!(type_message("ls", &Some("/bin/ls".to_string())), "ls is /bin/ls");
}

#[test]
fn type_ignores_resolution_for_builtin() {
    assert_eq!(type_message("cd", &Some("/bin/cd".to_string())), "cd is a shell builtin");
}

#[test]
fn builtin_registry() {
    assert_eq!(builtin_of_name("exit"), Some(BuiltinCmd::Exit));
    assert_eq!(builtin_of_name("echo"), Some(BuiltinCmd::Echo));
    assert_eq!(builtin_of_name("type"), Some(BuiltinCmd::Type));
    assert_eq!(builtin_of_name("pwd"), Some(BuiltinCmd::Pwd));
    assert_eq!(builtin_of_name("cd"), Some(BuiltinCmd::Cd));
    assert_eq!(builtin_of_name("ls"), None);
    assert!(is_builtin("pwd"));
    assert!(!is_builtin("foobarbaz"));
}

#[test]
fn exit_with_code() {
    assert_eq!(exit_decision(&strings(&["42"])), ExitDecision::Terminate(42));
}

#[test]
fn exit_without_argument() {
    assert_eq!(exit_decision(&strings(&[])), ExitDecision::Terminate(0));
}

#[test]
fn exit_with_two_arguments_is_a_count_error() {
    assert_eq!(exit_decision(&strings(&["1", "2"])), ExitDecision::WrongArgCount(2));
}

#[test]
fn exit_with_bad_number() {
    assert_eq!(exit_decision(&strings(&["abc"])), ExitDecision::BadNumber);
}

#[test]
fn exit_with_negative_code() {
    assert_eq!(exit_decision(&strings(&["-7"])), ExitDecision::Terminate(-7));
}

#[test]
fn unknown_command_message() {
    assert_eq!(not_found_message("foobarbaz"), "Command foobarbaz not found");
}

#[test]
fn echo_joins_arguments() {
    assert_eq!(echo_message(&strings(&["a", "b c", "d"])), "a b c d");
    assert_eq!(echo_message(&strings(&[])), "");
    assert_eq!(echo_message(&strings(&["solo"])), "solo");
}

#[test]
fn cd_expands_leading_tilde() {
    assert_eq!(expand_tilde("~/work", "/home/me"), "/home/me/work");
    assert_eq!(expand_tilde("~", "/home/me"), "/home/me");
    assert_eq!(expand_tilde("/tmp", "/home/me"), "/tmp");
    assert_eq!(expand_tilde("a~b", "/home/me"), "a~b");
}

#[test]
fn cd_error_names_original_argument() {
    assert_eq!(cd_error_message("missing"), "cd: missing: No such file or directory");
}

#[test]
fn label_inside_repository_subdirectory() {
    let root = Some("/home/me/repo".to_string());
    assert_eq!(get_simplified_cwd("/home/me/repo/sub/dir", "/home/me", &root), "repo/sub/dir");
}

#[test]
fn label_at_repository_root_has_no_separator() {
    let root = Some("/home/me/repo".to_string());
    assert_eq!(get_simplified_cwd("/home/me/repo", "/home/me", &root), "repo");
}

#[test]
fn label_outside_repository_replaces_home() {
    assert_eq!(get_simplified_cwd("/home/me/docs", "/home/me", &None), "~/docs");
}

#[test]
fn label_outside_home_is_the_full_path() {
    assert_eq!(get_simplified_cwd("/var/log", "/home/me", &None), "/var/log");
}

#[test]
fn branch_from_symbolic_head() {
    assert_eq!(parse_head_branch("ref: refs/heads/main\n"), "main");
}

#[test]
fn branch_from_detached_head_is_empty() {
    assert_eq!(parse_head_branch("b17a6e1c09b3e3ed2a023f46b74e921659a15d6a\n"), "");
}

#[test]
fn branch_from_empty_head_is_empty() {
    assert_eq!(parse_head_branch(""), "");
}

#[test]
fn prompt_without_branch_omits_brackets() {
    let p = format_prompt("me", "box", "~/docs", "");
    assert_eq!(p, "\u{1b}[33mme@box\u{1b}[0m: ~/docs$ ");
    assert!(!p.contains("[main]"));
}

#[test]
fn prompt_with_branch_shows_brackets() {
    let p = format_prompt("me", "box", "repo", "main");
    assert_eq!(p, "\u{1b}[33mme@box\u{1b}[0m: repo \u{1b}[33m[main]\u{1b}[0m$ ");
}

#[test]
fn parse_i32_accepts_plain_and_signed() {
    assert_eq!(parse_i32("42"), Some(42));
    assert_eq!(parse_i32("-5"), Some(-5));
    assert_eq!(parse_i32("+7"), Some(7));
    assert_eq!(parse_i32("0"), Some(0));
    assert_eq!(parse_i32("007"), Some(7));
}

#[test]
fn parse_i32_limits() {
    assert_eq!(parse_i32("2147483647"), Some(i32::MAX));
    assert_eq!(parse_i32("-2147483648"), Some(i32::MIN));
    assert_eq!(parse_i32("2147483648"), None);
    assert_eq!(parse_i32("-2147483649"), None);
    assert_eq!(parse_i32("99999999999999999999"), None);
}

#[test]
fn parse_i32_rejects_malformed() {
    assert_eq!(parse_i32(""), None);
    assert_eq!(parse_i32("-"), None);
    assert_eq!(parse_i32("+"), None);
    assert_eq!(parse_i32("12a"), None);
    assert_eq!(parse_i32("--3"), None);
    assert_eq!(parse_i32(" 3"), None);
}

#[test]
fn parent_walks_toward_root() {
    assert_eq!(parent_of("/a/b"), Some("/a".to_string()));
    assert_eq!(parent_of("/a"), Some("/".to_string()));
    assert_eq!(parent_of("/"), None);
    assert_eq!(parent_of("noslash"), None);
}

#[test]
fn base_name_is_last_component() {
    assert_eq!(base_name("/home/me/repo"), "repo");
    assert_eq!(base_name("plain"), "plain");
    assert_eq!(base_name("/"), "");
}

#[test]
fn ancestors_run_to_the_root() {
    assert_eq!(ancestor_chain("/a/b"), strings(&["/a/b", "/a", "/"]));
    assert_eq!(ancestor_chain("/"), strings(&["/"]));
}

#[test]
fn git_root_is_nearest_marked_ancestor() {
    let dirs = strings(&["/home/me/repo", "/home/me/repo/vendor"]);
    assert_eq!(
        get_git_root("/home/me/repo/vendor/pkg", &dirs),
        Some("/home/me/repo/vendor".to_string())
    );
    assert_eq!(get_git_root("/home/me/repo/src", &dirs), Some("/home/me/repo".to_string()));
    assert_eq!(get_git_root("/home/other", &dirs), None);
}

#[test]
fn contains_str_matches_exactly() {
    let v = strings(&["ab", "cd"]);
    assert!(contains_str(&v, "cd"));
    assert!(!contains_str(&v, "c"));
}

#[test]
fn candidates_follow_search_path_order() {
    assert_eq!(
        path_candidates("/bin:/usr/bin", "ls"),
        strings(&["/bin/ls", "/usr/bin/ls"])
    );
    assert_eq!(path_candidates("", "x"), strings(&["/x"]));
    assert_eq!(path_candidates("/a::/b", "x"), strings(&["/a/x", "/x", "/b/x"]));
}

#[test]
fn resolution_takes_the_first_existing_candidate() {
    let cands = strings(&["/bin/x", "/usr/bin/x", "/sbin/x"]);
    assert_eq!(
        first_existing(&cands, &vec![false, true, true]),
        Some("/usr/bin/x".to_string())
    );
    assert_eq!(first_existing(&cands, &vec![false, false, false]), None);
    assert_eq!(first_existing(&Vec::new(), &Vec::new()), None);
}

#[test]
fn trim_removes_ascii_blanks() {
    assert_eq!(trim_str("  a b \n"), "a b");
    assert_eq!(trim_str("\t\r\n "), "");
    assert_eq!(trim_str("x"), "x");
}

#[test]
fn string_helpers() {
    assert!(str_eq("abc", "abc"));
    assert!(!str_eq("abc", "abd"));
    assert!(!str_eq("abc", "ab"));
    assert!(str_has_prefix("ref: refs/heads/dev", "ref: refs/heads/"));
    assert!(!str_has_prefix("ref:", "ref: "));
}
