use clang_wrap::paths::{append_tmp_suffix, compute_llvmir_path, compute_llvmir_target_dir, get_absolute_path, is_absolute};
use clang_wrap::shell::{
    expand_at_file_args, response_file_arguments, response_file_path, shell_escape, split_response_args,
};
use clang_wrap::text::{join, lines, replace_all, split_on, split_whitespace, trim};

fn strings(v: &[&str]) -> Vec<String> {
    v.iter().map(|s| s.to_string()).collect()
}

#[test]
fn llvmir_path_of_absolute_file_drops_the_root() {
    assert_eq!(compute_llvmir_path("/home/u/proj/a.o", "/cwd", "/ir"), "/ir/home/u/proj/a.o");
}

#[test]
fn llvmir_path_of_relative_file_uses_working_directory() {
    assert_eq!(compute_llvmir_path("src/a.o", "/work", "/ir"), "/ir/work/src/a.o");
}

#[test]
fn llvmir_target_dir_maps_like_a_file() {
    for p in ["dst", "/abs/dst", "a/b/c"] {
        assert_eq!(
            compute_llvmir_target_dir(p, "/w", "/tmp/ir"),
            compute_llvmir_path(p, "/w", "/tmp/ir")
        );
    }
}

#[test]
fn absolute_path_is_kept_and_relative_joined() {
    assert_eq!(get_absolute_path("/x/y", "/w"), "/x/y");
    assert_eq!(get_absolute_path("y", "/w"), "/w/y");
    assert!(is_absolute("/x"));
    assert!(!is_absolute("x/y"));
    assert!(!is_absolute(""));
}

#[test]
fn tmp_suffix_is_appended() {
    assert_eq!(append_tmp_suffix("/ir/a.o", ".tmp.12.34"), "/ir/a.o.tmp.12.34");
}

#[test]
fn shell_escape_leaves_plain_words() {
    assert_eq!(shell_escape("abc-._/=,:+"), "abc-._/=,:+");
    assert_eq!(shell_escape(""), "''");
}

#[test]
fn shell_escape_quotes_special_words() {
    assert_eq!(shell_escape("hello space"), "'hello space'");
    assert_eq!(shell_escape("it's"), "'it'\\''s'");
    assert_eq!(shell_escape("$HOME"), "'$HOME'");
    assert_eq!(shell_escape("a~b"), "'a~b'");
    assert_eq!(shell_escape("a\tb"), "'a\tb'");
    assert_eq!(shell_escape("a\nb"), "'a\nb'");
    assert_eq!(shell_escape("#x"), "'#x'");
}

#[test]
fn response_file_words_and_quotes() {
    assert_eq!(
        split_response_args("a 'b c' \"d e\" f\\ g\n\th"),
        strings(&["a", "b c", "d e", "f g", "h"])
    );
    assert_eq!(split_response_args("'it'\"'\"'s'"), strings(&["it's"]));
    assert_eq!(split_response_args("   "), Vec::<String>::new());
    assert_eq!(split_response_args("trailing\\"), strings(&["trailing\\"]));
}

#[test]
fn escaped_command_line_reads_back() {
    let words = strings(&["clang", "hello space.c", "it's", "-DX=\"y\"", "$(pwd)", "plain", "a\tb", "#x"]);
    let escaped: Vec<String> = words.iter().map(|w| shell_escape(w)).collect();
    let line = join(&escaped, " ");
    assert_eq!(split_response_args(&line), words);
}

#[test]
fn response_file_argument_names_its_file() {
    assert_eq!(response_file_path("@args.rsp"), Some("args.rsp".to_string()));
    assert_eq!(response_file_path("args.rsp"), None);
}

#[test]
fn at_file_arguments_are_expanded() {
    let args = strings(&["clang", "@opts", "-c", "@missing"]);
    let contents = vec![None, Some("-O2\nfoo bar.c\n".to_string()), None, None];
    assert_eq!(
        expand_at_file_args(&args, &contents),
        strings(&["clang", "-O2", "foo bar.c", "-c", "@missing"])
    );
}

#[test]
fn arguments_without_at_file_stay_unchanged() {
    let args = strings(&["clang", "-c", "a.c"]);
    let contents = vec![Some("ignored".to_string()), None, None];
    assert_eq!(expand_at_file_args(&args, &contents), args);
}

#[test]
fn text_helpers_follow_std() {
    assert_eq!(split_whitespace("  a\tb \n c "), strings(&["a", "b", "c"]));
    assert_eq!(split_on("a::b", ':'), strings(&["a", "", "b"]));
    assert_eq!(lines("x\r\ny\n"), strings(&["x", "y"]));
    assert_eq!(trim("  t  "), "t");
    assert_eq!(replace_all("aaa", "aa", "b"), "ba");
}

#[test]
fn mirror_of_absolute_path_ignores_working_directory() {
    assert_eq!(compute_llvmir_path("/x/y.o", "/a", "/ir"), compute_llvmir_path("/x/y.o", "/b", "/ir"));
}

#[test]
fn response_file_arguments_one_per_line() {
    assert_eq!(response_file_arguments("-O2\r\n\nfoo bar.c\n"), strings(&["-O2", "foo bar.c"]));
    assert_eq!(response_file_arguments(""), Vec::<String>::new());
}

#[test]
fn plain_response_text_splits_like_split_whitespace() {
    let text = "  -O2\t-c  a.c\nb.c  ";
    assert_eq!(split_response_args(text), split_whitespace(text));
}
