//! Property-style checks on concrete values: idempotence of the engine,
//! extension normalization, boundary inputs, and the individual rewrite
//! stages and classifier helpers.

use dashify::classify::{has_camel_case, has_letter_number_transition, is_clean_name,
    should_leave_alone};
use dashify::rewrite::{collapse_mixed_separators, collapse_runs, process_name,
    split_camel_case, split_numbers};
use dashify::split::split_name_and_extension;
use dashify::{dashify, DashifyOptions};

fn default_opts() -> DashifyOptions {
    DashifyOptions::default()
}

fn force_dash_opts() -> DashifyOptions {
    DashifyOptions { force_dash: true }
}

fn chars(s: &str) -> Vec<char> {
    s.chars().collect()
}

fn string_of(v: &[char]) -> String {
    v.iter().collect()
}

#[test]
fn idempotent_on_rewritten_inputs() {
    let inputs = [
        "file name.txt",
        "camelCaseFileName.txt",
        "XMLParser.java",
        "getHTTPResponse.js",
        "file[name].txt",
        "file--name.txt",
        "file___name.txt",
        "File2Name.txt",
        "My Document.PDF",
        "-_-.txt",
        "--file--.txt",
        ".Hidden File.txt",
        "file..name.txt",
        "Consideration+While+Project+Planning.doc",
    ];
    for input in inputs {
        let once = dashify(input, &default_opts());
        let twice = dashify(&once, &default_opts());
        assert_eq!(twice, once);
    }
}

#[test]
fn idempotent_on_exempt_inputs() {
    let inputs = ["__init__.py", "README.md", "v2.0.1-release.txt", "café.txt", "...txt",
        "file.tar.gz", " file.txt", ".hidden_file", "a.txt", "no_extension", "-.txt", ""];
    for input in inputs {
        assert_eq!(dashify(input, &default_opts()), input);
        let twice = dashify(&dashify(input, &default_opts()), &default_opts());
        assert_eq!(twice, input);
    }
}

#[test]
fn bracket_removal_can_join_letter_and_digit() {
    // Removing a bracket can put a letter beside a digit, which only a
    // second pass separates: the one rewrite that is not idempotent.
    assert_eq!(dashify("a[1].txt", &default_opts()), "a1.txt");
    assert_eq!(dashify("a1.txt", &default_opts()), "a-1.txt");
}

#[test]
fn idempotent_with_force_dash() {
    let inputs = ["file_name.txt", "some_snake_case.yaml", "my_project_v2.md",
        "file__name.txt", "Mixed_And Spaced.TXT"];
    for input in inputs {
        let once = dashify(input, &force_dash_opts());
        let twice = dashify(&once, &force_dash_opts());
        assert_eq!(twice, once);
    }
}

#[test]
fn extension_always_lowercased_when_rewritten() {
    let cases = [
        ("My Document.PDF", "pdf"),
        ("file name.TXT", "txt"),
        ("Shouting Name.JPEG", "jpeg"),
        ("Report Final.DocX", "docx"),
    ];
    for (input, ext) in cases {
        let result = dashify(input, &default_opts());
        let (_, got_ext) = result.rsplit_once('.').unwrap();
        assert_eq!(got_ext, ext);
    }
}

#[test]
fn empty_input_returned_unchanged() {
    assert_eq!(dashify("", &default_opts()), "");
    assert_eq!(dashify("", &force_dash_opts()), "");
}

#[test]
fn pure_punctuation_inputs_do_not_fail() {
    assert_eq!(dashify("!!!", &default_opts()), "");
    assert_eq!(dashify("...", &default_opts()), "...");
    assert_eq!(dashify("_", &default_opts()), "_");
}

#[test]
fn semver_shapes_left_alone() {
    assert_eq!(dashify("1.2.txt", &default_opts()), "1.2.txt");
    assert_eq!(dashify("v1.2.3-alpha-2.tar", &default_opts()), "v1.2.3-alpha-2.tar");
    assert_eq!(dashify("x1.2.txt", &default_opts()), "x-1.2.txt");
}

#[test]
fn underscore_run_without_word_collapses() {
    assert_eq!(dashify("_____.py", &default_opts()), "_.py");
}

#[test]
fn archive_with_unclean_head_rewritten() {
    assert_eq!(dashify("My File.tar.gz", &default_opts()), "my-file.tar.gz");
}

#[test]
fn split_keeps_hidden_file_prefix() {
    let (name, ext) = split_name_and_extension(&chars(".hidden.txt"));
    assert_eq!(string_of(&name), ".hidden");
    assert_eq!(string_of(&ext), "txt");

    let (name, ext) = split_name_and_extension(&chars(".hidden"));
    assert_eq!(string_of(&name), ".hidden");
    assert_eq!(string_of(&ext), "");

    let (name, ext) = split_name_and_extension(&chars("archive.tar.gz"));
    assert_eq!(string_of(&name), "archive.tar");
    assert_eq!(string_of(&ext), "gz");

    let (name, ext) = split_name_and_extension(&chars("plain"));
    assert_eq!(string_of(&name), "plain");
    assert_eq!(string_of(&ext), "");
}

#[test]
fn camel_split_stage() {
    assert_eq!(string_of(&split_camel_case(&chars("camelCase"))), "camel-Case");
    assert_eq!(string_of(&split_camel_case(&chars("iPhone"))), "iPhone");
    assert_eq!(string_of(&split_camel_case(&chars("XMLParser"))), "XML-Parser");
    assert_eq!(string_of(&split_camel_case(&chars(""))), "");
}

#[test]
fn number_split_stage() {
    assert_eq!(string_of(&split_numbers(&chars("file123name"))), "file-123-name");
    assert_eq!(string_of(&split_numbers(&chars("123file"))), "123-file");
    assert_eq!(string_of(&split_numbers(&chars("v2"))), "v-2");
    assert_eq!(string_of(&split_numbers(&chars("2.0"))), "2.0");
}

#[test]
fn separator_collapse_stages() {
    assert_eq!(string_of(&collapse_mixed_separators(&chars("a-_-b"))), "a-b");
    assert_eq!(string_of(&collapse_mixed_separators(&chars("a___b"))), "a_b");
    assert_eq!(string_of(&collapse_mixed_separators(&chars("a_-_b"))), "a-b");
    assert_eq!(string_of(&collapse_runs(&chars("a--b---c"), '-')), "a-b-c");
    assert_eq!(string_of(&collapse_runs(&chars("a..b"), '.')), "a.b");
}

#[test]
fn process_name_trims_only_new_trailing_separators() {
    assert_eq!(string_of(&process_name(&chars("file(x)"), false)), "file-x");
    assert_eq!(string_of(&process_name(&chars("file-"), false)), "file-");
    assert_eq!(string_of(&process_name(&chars(".Secret File"), false)), ".secret-file");
}

#[test]
fn classifier_helper_predicates() {
    assert!(is_clean_name(&chars("simple-name_1.txt")));
    assert!(!is_clean_name(&chars("Simple.txt")));
    assert!(is_clean_name(&chars("")));
    assert!(has_camel_case(&chars("aB")));
    assert!(!has_camel_case(&chars("AB")));
    assert!(has_letter_number_transition(&chars("a1")));
    assert!(has_letter_number_transition(&chars("1a")));
    assert!(!has_letter_number_transition(&chars("a-1")));
}

#[test]
fn classifier_decisions() {
    let default = default_opts();
    let force = force_dash_opts();
    assert!(should_leave_alone(&chars("__init__.py"), &default));
    assert!(should_leave_alone(&chars("README.md"), &default));
    assert!(should_leave_alone(&chars("v2.0.1-release.txt"), &default));
    assert!(should_leave_alone(&chars("café.txt"), &default));
    assert!(should_leave_alone(&chars("file.tar.gz"), &default));
    assert!(should_leave_alone(&chars("file_name.txt"), &default));
    assert!(!should_leave_alone(&chars("file_name.txt"), &force));
    assert!(!should_leave_alone(&chars("File Name.txt"), &default));
    assert!(!should_leave_alone(&chars("file[1].txt"), &default));
}
