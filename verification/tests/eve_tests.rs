use eve::error::EveError;
use eve::output::{plan_in_place, render_outputs};
use eve::resolve::{resolve, InputArg, Source};
use eve::subst::Eve;

fn store_from(env_content: &str) -> Eve {
    let entries: Vec<(String, String)> = env_content
        .lines()
        .filter(|l| !l.is_empty())
        .map(|l| {
            let (k, v) = l.split_once('=').unwrap();
            (k.to_string(), v.to_string())
        })
        .collect();
    Eve::new(entries)
}

#[test]
fn single_file() {
    let eve = store_from("HELLO=Hello");
    let replaced = eve.replace("{{HELLO}} World!\n").unwrap();
    assert_eq!(replaced, "Hello World!\n");
}

#[test]
fn two_files() {
    let eve = store_from("HELLO=Hello");
    let first = eve.replace("{{HELLO}} World!").unwrap();
    let second = eve.replace("World! {{HELLO}}").unwrap();
    assert_eq!(first, "Hello World!");
    assert_eq!(second, "World! Hello");
    let combined = render_outputs(&vec![first, second]);
    let expected = "Hello World!\nWorld! Hello";
    assert_eq!(combined, format!("{}\n", expected));
}

#[test]
fn single_inline_file() {
    let eve = store_from("HELLO=Hello");
    let original = "{{HELLO}} World!";
    let replaced = eve.replace(original).unwrap();
    let ops = plan_in_place("test_file", original, &replaced, None);
    assert_eq!(ops.len(), 1);
    assert_eq!(ops[0].path, "test_file");
    assert_eq!(ops[0].content, "Hello World!");
}

#[test]
fn backup_inline_file() {
    let extension = "backup";
    let original = "{{HELLO}} World!";
    let eve = store_from("HELLO=Hello");
    let replaced = eve.replace(original).unwrap();
    let ops = plan_in_place("test_file", original, &replaced, Some(extension));
    assert_eq!(ops.len(), 2);
    assert_eq!(ops[0].path, "test_file.backup");
    assert_eq!(ops[0].content, "{{HELLO}} World!");
    assert_eq!(ops[1].path, "test_file");
    assert_eq!(ops[1].content, "Hello World!");
}

#[test]
fn directory() {
    let eve = store_from("HELLO=Hello\nWORLD=World!");
    let file_contents = [
        ("Hello World!", "{{HELLO}} World!"),
        ("Hello World!", "Hello {{WORLD}}"),
    ];
    let args = vec![InputArg::Directory {
        path: "actual_dir".to_string(),
        files: vec!["actual_dir/first".to_string(), "actual_dir/second".to_string()],
    }];
    let sources = resolve(&args, true).unwrap();
    assert_eq!(
        sources,
        vec![
            Source::File { path: "actual_dir/first".to_string() },
            Source::File { path: "actual_dir/second".to_string() },
        ]
    );
    for (expected, actual) in file_contents {
        assert_eq!(eve.replace(actual).unwrap(), expected);
    }
}

#[test]
fn placeholder_free_text_is_unchanged() {
    let eve = store_from("HELLO=Hello");
    let text = "no placeholders here: } { }} only stray braces\n";
    assert_eq!(eve.replace(text).unwrap(), text);
}

#[test]
fn empty_text_is_unchanged() {
    let eve = store_from("HELLO=Hello");
    assert_eq!(eve.replace("").unwrap(), "");
}

#[test]
fn unresolved_variable_fails() {
    let eve = store_from("HELLO=Hello");
    let err = eve.replace("{{MISSING}} World!").unwrap_err();
    assert_eq!(err, EveError::UnresolvedVariable { name: "MISSING".to_string() });
}

#[test]
fn empty_name_is_unresolved() {
    let eve = store_from("HELLO=Hello");
    let err = eve.replace("{{}}").unwrap_err();
    assert_eq!(err, EveError::UnresolvedVariable { name: String::new() });
}

#[test]
fn two_placeholders_on_one_line() {
    let eve = store_from("A=1\nB=2");
    assert_eq!(eve.replace("{{A}} text {{B}}").unwrap(), "1 text 2");
}

#[test]
fn unclosed_opener_is_literal() {
    let eve = store_from("A=1");
    assert_eq!(eve.replace("{{A").unwrap(), "{{A");
    assert_eq!(eve.replace("a {{ b").unwrap(), "a {{ b");
}

#[test]
fn value_is_not_rescanned() {
    let eve = store_from("A={{B}}\nB=2");
    assert_eq!(eve.replace("{{A}}").unwrap(), "{{B}}");
}

#[test]
fn earliest_entry_wins() {
    let eve = Eve::new(vec![
        ("A".to_string(), "first".to_string()),
        ("A".to_string(), "second".to_string()),
    ]);
    assert_eq!(eve.replace("{{A}}").unwrap(), "first");
}

#[test]
fn multibyte_text_around_placeholder() {
    let eve = store_from("NAME=Welt");
    assert_eq!(eve.replace("Grüße, {{NAME}} — schön!").unwrap(), "Grüße, Welt — schön!");
}

#[test]
fn no_arguments_resolve_to_stdin() {
    let sources = resolve(&Vec::new(), false).unwrap();
    assert_eq!(sources, vec![Source::Stdin]);
}

#[test]
fn directory_without_recursive_fails() {
    let args = vec![
        InputArg::File { path: "a.txt".to_string() },
        InputArg::Directory { path: "some_dir".to_string(), files: Vec::new() },
    ];
    let err = resolve(&args, false).unwrap_err();
    assert_eq!(err, EveError::InvalidArgument { path: "some_dir".to_string() });
}

#[test]
fn files_resolve_in_argument_order() {
    let args = vec![
        InputArg::File { path: "b.txt".to_string() },
        InputArg::File { path: "a.txt".to_string() },
    ];
    let sources = resolve(&args, false).unwrap();
    assert_eq!(
        sources,
        vec![
            Source::File { path: "b.txt".to_string() },
            Source::File { path: "a.txt".to_string() },
        ]
    );
}

#[test]
fn mixed_arguments_keep_argument_order() {
    let args = vec![
        InputArg::File { path: "first.txt".to_string() },
        InputArg::Directory {
            path: "conf".to_string(),
            files: vec!["conf/a".to_string(), "conf/b".to_string()],
        },
        InputArg::File { path: "last.txt".to_string() },
    ];
    let sources = resolve(&args, true).unwrap();
    assert_eq!(
        sources,
        vec![
            Source::File { path: "first.txt".to_string() },
            Source::File { path: "conf/a".to_string() },
            Source::File { path: "conf/b".to_string() },
            Source::File { path: "last.txt".to_string() },
        ]
    );
}

#[test]
fn render_of_no_outputs_is_empty() {
    assert_eq!(render_outputs(&Vec::new()), "");
}

#[test]
fn error_messages_name_the_culprit() {
    let unresolved = EveError::UnresolvedVariable { name: "HOST".to_string() };
    assert_eq!(unresolved.message(), "unresolved variable: HOST");
    let invalid = EveError::InvalidArgument { path: "dir".to_string() };
    assert_eq!(invalid.message(), "directory provided without the recursive flag: dir");
    let load = EveError::EnvironmentLoad { path: ".env".to_string() };
    assert_eq!(load.message(), "cannot load environment file: .env");
    let io = EveError::Io { path: "f".to_string() };
    assert_eq!(io.message(), "cannot read or write: f");
}
