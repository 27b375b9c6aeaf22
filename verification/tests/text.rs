use dashgen::text::{chars_of, glue, last_piece, replace, split};

fn strings(parts: &[&str]) -> Vec<String> {
    parts.iter().map(|part| part.to_string()).collect()
}

#[test]
fn split_cuts_at_each_separator() {
    assert_eq!(split("a::b::Widget", "::"), strings(&["a", "b", "Widget"]));
    assert_eq!(split("/home/doc/serde/all.html", "/"), strings(&["", "home", "doc", "serde", "all.html"]));
}

#[test]
fn split_without_separator_gives_the_text() {
    assert_eq!(split("Widget", "::"), strings(&["Widget"]));
    assert_eq!(split("", "/"), strings(&[""]));
    assert_eq!(split(":", "::"), strings(&[":"]));
}

#[test]
fn split_keeps_empty_pieces() {
    assert_eq!(split("::", "::"), strings(&["", ""]));
    assert_eq!(split("a//b", "/"), strings(&["a", "", "b"]));
    assert_eq!(split("a/", "/"), strings(&["a", ""]));
    assert_eq!(split("/a", "/"), strings(&["", "a"]));
}

#[test]
fn split_scans_from_the_left_without_overlap() {
    assert_eq!(split("a:::b", "::"), strings(&["a", ":b"]));
    assert_eq!(split("::::", "::"), strings(&["", "", ""]));
    assert_eq!(split(":::::", "::"), strings(&["", "", ":"]));
    assert_eq!(split("aaa", "aa"), strings(&["", "a"]));
}

#[test]
fn split_agrees_with_the_standard_library() {
    let texts = ["", "a", "a::b", "::a::", "a:::b", "x::y::z::", ":::::", "a:b::c:d", "日本::語"];
    for text in texts {
        let expected: Vec<String> = text.split("::").map(|part| part.to_string()).collect();
        assert_eq!(split(text, "::"), expected);
    }
}

#[test]
fn split_counts_characters_not_bytes() {
    assert_eq!(split("é/ü/ß", "/"), strings(&["é", "ü", "ß"]));
    assert_eq!(split("→a→b", "→"), strings(&["", "a", "b"]));
}

#[test]
fn last_piece_is_the_end_of_the_text() {
    assert_eq!(last_piece("a::b::Widget", "::"), "Widget");
    assert_eq!(last_piece("Widget", "::"), "Widget");
    assert_eq!(last_piece("a::", "::"), "");
    assert_eq!(last_piece("a:::b", "::"), ":b");
}

#[test]
fn glue_puts_the_glue_between_neighbours() {
    assert_eq!(glue(&strings(&["a", "b", "c"]), "_"), "a_b_c");
    assert_eq!(glue(&strings(&["a"]), "_"), "a");
    assert_eq!(glue(&strings(&[]), "_"), "");
    assert_eq!(glue(&strings(&["", ""]), "::"), "::");
}

#[test]
fn glue_undoes_split() {
    let texts = ["", "a", "a::b", "::a::", "a:::b", "x::y::z::", ":::::"];
    for text in texts {
        assert_eq!(glue(&split(text, "::"), "::"), text);
    }
}

#[test]
fn replace_exchanges_every_occurrence() {
    assert_eq!(replace("my-crate-name", "-", "_"), "my_crate_name");
    assert_eq!(replace("plain", "-", "_"), "plain");
    assert_eq!(replace("--", "-", "_"), "__");
    assert_eq!(replace("a::b", "::", "."), "a.b");
    assert_eq!(replace("", "-", "_"), "");
}

#[test]
fn replace_agrees_with_the_standard_library() {
    let texts = ["", "-", "a-b", "-a-", "a--b", "no dash", "aaa"];
    for text in texts {
        assert_eq!(replace(text, "-", "_"), text.replace("-", "_"));
        assert_eq!(replace(text, "aa", "b"), text.replace("aa", "b"));
    }
}

#[test]
fn chars_of_lists_the_characters() {
    assert_eq!(chars_of("a::b"), vec!['a', ':', ':', 'b']);
    assert_eq!(chars_of(""), Vec::<char>::new());
    assert_eq!(chars_of("é→"), vec!['é', '→']);
}

#[test]
fn empty_separator_cuts_nowhere() {
    assert_eq!(split("abc", ""), strings(&["abc"]));
    assert_eq!(split("", ""), strings(&[""]));
    assert_eq!(last_piece("a/b", ""), "a/b");
    assert_eq!(replace("a-b", "", "_"), "a-b");
}

#[test]
fn replace_may_lengthen_or_shorten_the_text() {
    assert_eq!(replace("a-b-c", "-", "::"), "a::b::c");
    assert_eq!(replace("a::b::c", "::", ""), "abc");
    assert_eq!(replace("-", "-", ""), "");
}
