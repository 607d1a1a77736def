use cane::environment::Environment;
use cane::path::HostPath;
use cane::text::{byte_length, is_whitespace, join, push_decimal, strip_prefix, tail, trim, trim_end};

#[test]
fn white_space_is_what_unicode_says() {
    for character in '\0'..=char::MAX {
        assert_eq!(is_whitespace(character), character.is_whitespace(), "{character:?}");
    }
}

#[test]
fn trimming_agrees_with_the_standard_library() {
    for text in ["", "  ", " a b\t\n", "\u{a0}x\u{3000}", "x", "\u{200b}x"] {
        assert_eq!(trim(text), text.trim());
        assert_eq!(trim_end(text), text.trim_end());
    }
}

#[test]
fn numbers_are_written_without_leading_zeros() {
    for number in [0, 9, 10, 1_000, u64::MAX] {
        let mut text = String::from("n");
        push_decimal(&mut text, number);
        assert_eq!(text, format!("n{number}"));
    }
}

#[test]
fn the_tail_of_a_text_holds_whole_characters() {
    assert_eq!(tail("a\u{e9}b", 2), "b");
    assert_eq!(tail("a\u{e9}b", 3), "\u{e9}b");
    assert_eq!(tail("abc", 10), "abc");
    assert_eq!(byte_length("a\u{e9}\u{1f600}"), 7);
}

#[test]
fn prefixes_and_separators() {
    assert_eq!(strip_prefix("sess_1", "sess_"), Some("1".to_string()));
    assert_eq!(strip_prefix("run_1", "sess_"), None);
    assert_eq!(join(&vec!["a".to_string(), "b".to_string()], ", "), "a, b");
}

fn texts(components: &[Vec<u8>]) -> Vec<String> {
    components
        .iter()
        .map(|component| String::from_utf8(component.clone()).unwrap())
        .collect()
}

#[test]
fn paths_agree_with_the_standard_library() {
    let samples = [
        "", "/", "a", "/a", "a/b", "/a//b/", "./a", "/a/./b", "/a/..", "a/.", "..", ".", "/a/b.c",
        "/a/.b", "/a/b.tar.gz", "a/b.", "//a",
    ];
    for text in samples {
        let path = HostPath::from_text(text);
        let std_path = std::path::Path::new(text);
        assert_eq!(path.is_absolute(), std_path.is_absolute(), "{text}");
        assert_eq!(
            path.parent().map(|parent| parent.display()),
            std_path.parent().map(|parent| parent.to_str().unwrap().to_string()),
            "{text}"
        );
        assert_eq!(
            path.file_name(),
            std_path.file_name().map(|name| name.to_str().unwrap().as_bytes().to_vec()),
            "{text}"
        );
        assert_eq!(
            path.extension(),
            std_path.extension().map(|name| name.to_str().unwrap().as_bytes().to_vec()),
            "{text}"
        );
        assert_eq!(
            path.with_extension("lock").display(),
            std_path.with_extension("lock").to_str().unwrap(),
            "{text}"
        );
        for other in samples {
            let base = HostPath::from_text(other);
            let std_base = std::path::Path::new(other);
            assert_eq!(path.same(&base), std_path == std_base, "{text} {other}");
            assert_eq!(path == base, std_path == std_base, "{text} {other}");
            assert_eq!(
                path.starts_with(&base),
                std_path.starts_with(std_base),
                "{text} {other}"
            );
            assert_eq!(
                path.join(&base).display(),
                std_path.join(std_base).to_str().unwrap(),
                "{text} {other}"
            );
        }
    }
}

#[test]
fn the_root_stands_before_the_components_of_an_absolute_path() {
    assert_eq!(texts(HostPath::from_text("a/./b").components()), ["a", "b"]);
    assert_eq!(
        HostPath::from_bytes(vec![b'a', 0xff]).display(),
        "a\u{fffd}"
    );
    assert_eq!(HostPath::from_bytes(vec![0xff]).to_text(), None);
}

#[test]
fn environments_hold_each_name_once_in_order() {
    let mut environment = Environment::new();
    environment.insert("PATH", "/bin");
    environment.insert("HOME", "/root");
    environment.insert("PATH", "/usr/bin");

    let names: Vec<&str> =
        environment.variables().iter().map(|variable| variable.name.as_str()).collect();
    assert_eq!(names, ["HOME", "PATH"]);
    assert_eq!(environment.get("PATH"), Some("/usr/bin"));
    assert_eq!(environment.get("SHELL"), None);
}
