use dashgen::entry::Entry;
use dashgen::extract::{
    anchor_text, collect_entries, entries_from_anchors, extract_entries, extract_page,
    module_segment, Anchor, ExtractError, Page, MAX_PAGE_BYTES,
};
use dashgen::kind::RustType;

const LISTING: &str = r#"<!DOCTYPE html>
<html><head><title>List of all items in this crate</title></head>
<body>
<nav class="sidebar"><a href="../index.html">Back</a></nav>
<section id="main" class="content">
<h1 class="fqn">List of all items</h1>
<h3 id="Structs">Structs</h3>
<ul class="structs docblock">
<li><a href="struct.Widget.html">Widget</a></li>
<li><a href="gears/struct.Cog.html">gears::Cog</a></li>
</ul>
<h3 id="Enums">Enums</h3>
<ul class="enums docblock"><li><a href="enum.Mode.html">Mode</a></li></ul>
<h3 id="Typedefs">Typedefs</h3>
<ul class="types docblock"><li><a href="type.Id.html">Id</a></li></ul>
<h3 id="Functions">Functions</h3>
<ul class="functions docblock"><li><a href="fn.run.html">mycrate::run</a></li></ul>
</section>
</body></html>"#;

fn entry(name: &str, kind: RustType, path: &str) -> Entry {
    Entry::new(name.to_string(), kind, path.to_string())
}

fn extract(path: &str, html: &str, kind: RustType) -> Result<Vec<Entry>, ExtractError> {
    extract_entries(&path.to_string(), html.as_bytes(), &kind)
}

fn nodes(texts: &[Option<&str>]) -> Vec<Option<String>> {
    texts.iter().map(|text| text.map(|t| t.to_string())).collect()
}

fn anchor(text: Option<&str>, href: Option<&str>) -> Anchor {
    Anchor {
        texts: text.iter().map(|t| Some(t.to_string())).collect(),
        href: href.map(|h| h.to_string()),
    }
}

#[test]
fn extracts_the_links_under_the_kind_marker() {
    let found = extract("/doc/mycrate/all.html", LISTING, RustType::Struct).unwrap();
    assert_eq!(
        found,
        vec![
            entry("Widget", RustType::Struct, "mycrate/struct.Widget.html"),
            entry("Cog", RustType::Struct, "mycrate/gears/struct.Cog.html"),
        ]
    );
}

#[test]
fn qualified_anchor_text_is_cut_to_its_last_segment() {
    let html = r#"<ul class="structs docblock"><li><a href="b/struct.Widget.html">a::b::Widget</a></li></ul>"#;
    let found = extract("/doc/a/all.html", html, RustType::Struct).unwrap();
    assert_eq!(found.len(), 1);
    assert_eq!(found[0].name(), "Widget");
}

#[test]
fn path_is_the_link_target_below_the_page_directory() {
    let html = r#"<ul class="structs"><li><a href="struct.Foo.html">Foo</a></li></ul>"#;
    let found = extract("/home/user/project/target/doc/serde/all.html", html, RustType::Struct)
        .unwrap();
    assert_eq!(found.len(), 1);
    assert_eq!(found[0].path(), "serde/struct.Foo.html");
    assert_eq!(found[0].rust_type(), RustType::Struct);
    let relative = extract("serde/all.html", html, RustType::Struct).unwrap();
    assert_eq!(relative[0].path(), "serde/struct.Foo.html");
}

#[test]
fn page_without_the_marker_yields_no_entries() {
    assert_eq!(extract("/doc/mycrate/all.html", LISTING, RustType::Macro), Ok(vec![]));
    assert_eq!(extract("/doc/mycrate/all.html", LISTING, RustType::Union), Ok(vec![]));
    assert_eq!(extract("/doc/mycrate/all.html", "", RustType::Struct), Ok(vec![]));
}

#[test]
fn marker_without_links_yields_no_entries() {
    let html = r#"<ul class="traits docblock"><li>nothing here</li></ul>"#;
    assert_eq!(extract("/doc/m/all.html", html, RustType::Trait), Ok(vec![]));
}

#[test]
fn every_kind_is_found_under_its_own_marker() {
    let cases = [
        (RustType::Struct, "structs", "struct"),
        (RustType::Enum, "enums", "enum"),
        (RustType::Macro, "macros", "macro"),
        (RustType::Typedef, "types", "type"),
        (RustType::Constant, "constants", "constant"),
        (RustType::Trait, "traits", "trait"),
        (RustType::Function, "functions", "fn"),
        (RustType::Union, "unions", "union"),
    ];
    for (kind, class, stem) in cases {
        let html = format!(
            r#"<ul class="{} docblock"><li><a href="{}.X.html">X</a></li></ul>"#,
            class, stem
        );
        let found = extract("/doc/m/all.html", &html, kind).unwrap();
        assert_eq!(found, vec![entry("X", kind, &format!("m/{}.X.html", stem))]);
        for (other, _, _) in cases {
            if other != kind {
                assert_eq!(extract("/doc/m/all.html", &html, other), Ok(vec![]));
            }
        }
    }
}

#[test]
fn links_outside_the_marker_are_ignored() {
    let found = extract("/doc/mycrate/all.html", LISTING, RustType::Enum).unwrap();
    assert_eq!(found, vec![entry("Mode", RustType::Enum, "mycrate/enum.Mode.html")]);
}

#[test]
fn links_deep_below_the_marker_are_found_in_document_order() {
    let html = r#"<div class="structs"><p><span><a href="one.html">One</a></span></p>
        <table><tr><td><a href="two.html">x::Two</a></td></tr></table></div>"#;
    let found = extract("/doc/m/all.html", html, RustType::Struct).unwrap();
    assert_eq!(
        found,
        vec![
            entry("One", RustType::Struct, "m/one.html"),
            entry("Two", RustType::Struct, "m/two.html"),
        ]
    );
}

#[test]
fn marker_is_matched_as_a_whole_class_token() {
    let html = r#"<ul class="mystructs"><li><a href="a.html">A</a></li></ul>
        <ul class="docblock  structs"><li><a href="b.html">B</a></li></ul>"#;
    let found = extract("/doc/m/all.html", html, RustType::Struct).unwrap();
    assert_eq!(found, vec![entry("B", RustType::Struct, "m/b.html")]);
}

#[test]
fn anchor_text_is_taken_unescaped_and_untrimmed() {
    let html = r#"<ul class="structs"><li><a href="s.html"> Pair&lt;T&gt; </a></li></ul>"#;
    let found = extract("/doc/m/all.html", html, RustType::Struct).unwrap();
    assert_eq!(found[0].name(), " Pair<T> ");
}

#[test]
fn link_without_target_is_an_error() {
    let html = r#"<ul class="structs"><li><a href="a.html">A</a></li><li><a>B</a></li></ul>"#;
    assert_eq!(extract("/doc/m/all.html", html, RustType::Struct), Err(ExtractError::MissingHref));
}

#[test]
fn link_without_any_text_is_an_error() {
    let empty = r#"<ul class="structs"><li><a href="a.html"></a></li></ul>"#;
    assert_eq!(extract("/doc/m/all.html", empty, RustType::Struct), Err(ExtractError::MissingText));
    let hollow = r#"<ul class="structs"><li><a href="a.html"><code></code><br></a></li></ul>"#;
    assert_eq!(extract("/doc/m/all.html", hollow, RustType::Struct), Err(ExtractError::MissingText));
    let remark = r#"<ul class="structs"><li><a href="a.html"><!-- A --></a></li></ul>"#;
    assert_eq!(extract("/doc/m/all.html", remark, RustType::Struct), Err(ExtractError::MissingText));
}

#[test]
fn text_inside_an_element_of_the_link_is_its_text() {
    let nested = r#"<ul class="structs"><li><a href="a.html"><code>A</code></a></li></ul>"#;
    assert_eq!(
        extract("/doc/m/all.html", nested, RustType::Struct),
        Ok(vec![entry("A", RustType::Struct, "m/a.html")])
    );
}

#[test]
fn link_text_broken_by_an_element_is_read_as_a_whole() {
    let html = "<ul class='structs'><li><a href='struct.Foo.html'>m::<wbr>Foo</a></li></ul>";
    let found = extract("doc/m/all.html", html, RustType::Struct).unwrap();
    assert_eq!(found.len(), 1);
    assert_eq!(found[0].name(), "Foo");
    assert_eq!(found[0].path(), "m/struct.Foo.html");
}

#[test]
fn link_text_is_joined_in_document_order() {
    let html = r#"<ul class="traits"><li><a href="t.html">a<b>::b<i>::</i></b><!-- x -->Deep<span></span>Name</a></li></ul>"#;
    assert_eq!(
        extract("/doc/m/all.html", html, RustType::Trait),
        Ok(vec![entry("DeepName", RustType::Trait, "m/t.html")])
    );
}

#[test]
fn anchor_text_joins_the_text_nodes() {
    assert_eq!(anchor_text(&nodes(&[Some("m::"), None, Some("Foo")])), Some("m::Foo".to_string()));
    assert_eq!(anchor_text(&nodes(&[None, Some("A")])), Some("A".to_string()));
    assert_eq!(anchor_text(&nodes(&[Some("A")])), Some("A".to_string()));
    assert_eq!(anchor_text(&nodes(&[Some("")])), Some("".to_string()));
}

#[test]
fn anchor_text_of_no_text_node_is_nothing() {
    assert_eq!(anchor_text(&nodes(&[])), None);
    assert_eq!(anchor_text(&nodes(&[None, None])), None);
}

#[test]
fn page_beyond_the_parser_limit_is_an_error() {
    assert_eq!(MAX_PAGE_BYTES, 715_827_882);
    assert!(3 * (MAX_PAGE_BYTES as u64) <= 1 << 31);
    assert!(3 * (MAX_PAGE_BYTES as u64 + 1) > 1 << 31);
    let bytes: Vec<u8> = vec![0u8; MAX_PAGE_BYTES + 1];
    let result = extract_entries(&"/doc/m/all.html".to_string(), &bytes, &RustType::Struct);
    assert_eq!(result, Err(ExtractError::TooLarge));
    let homeless = extract_entries(&"all.html".to_string(), &bytes, &RustType::Struct);
    assert_eq!(homeless, Err(ExtractError::NoModuleSegment));
}

#[test]
fn missing_text_is_reported_before_missing_target() {
    let html = r#"<ul class="structs"><li><a></a></li></ul>"#;
    assert_eq!(extract("/doc/m/all.html", html, RustType::Struct), Err(ExtractError::MissingText));
}

#[test]
fn first_bad_link_decides_the_error() {
    let html = r#"<ul class="structs"><li><a>NoTarget</a></li><li><a href="x.html"></a></li></ul>"#;
    assert_eq!(extract("/doc/m/all.html", html, RustType::Struct), Err(ExtractError::MissingHref));
}

#[test]
fn bytes_that_are_no_text_are_an_error() {
    let bytes: Vec<u8> = vec![0x3c, 0x61, 0x3e, 0xff, 0xfe, 0x80];
    let result = extract_entries(&"/doc/m/all.html".to_string(), &bytes, &RustType::Struct);
    assert_eq!(result, Err(ExtractError::Unreadable));
}

#[test]
fn path_without_directory_is_an_error() {
    assert_eq!(extract("all.html", LISTING, RustType::Struct), Err(ExtractError::NoModuleSegment));
    assert_eq!(extract("", LISTING, RustType::Struct), Err(ExtractError::NoModuleSegment));
    let bytes: Vec<u8> = vec![0xff];
    let result = extract_entries(&"all.html".to_string(), &bytes, &RustType::Struct);
    assert_eq!(result, Err(ExtractError::NoModuleSegment));
}

#[test]
fn module_segment_is_the_segment_before_the_last_slash() {
    assert_eq!(module_segment("/doc/serde/all.html"), Some("serde".to_string()));
    assert_eq!(module_segment("serde/all.html"), Some("serde".to_string()));
    assert_eq!(module_segment("/all.html"), Some("".to_string()));
    assert_eq!(module_segment("a//all.html"), Some("".to_string()));
    assert_eq!(module_segment("a/b/"), Some("b".to_string()));
    assert_eq!(module_segment("all.html"), None);
    assert_eq!(module_segment(""), None);
}

#[test]
fn entries_from_anchors_builds_one_entry_per_anchor() {
    let anchors = vec![
        anchor(Some("a::b::Widget"), Some("struct.Widget.html")),
        anchor(Some("Plain"), Some("deep/struct.Plain.html")),
    ];
    assert_eq!(
        entries_from_anchors(&anchors, "mycrate", RustType::Struct),
        Ok(vec![
            entry("Widget", RustType::Struct, "mycrate/struct.Widget.html"),
            entry("Plain", RustType::Struct, "mycrate/deep/struct.Plain.html"),
        ])
    );
}

#[test]
fn entries_from_anchors_reads_the_whole_text_of_an_anchor() {
    let anchors = vec![Anchor {
        texts: nodes(&[Some("m::"), None, Some("Foo")]),
        href: Some("struct.Foo.html".to_string()),
    }];
    assert_eq!(
        entries_from_anchors(&anchors, "m", RustType::Struct),
        Ok(vec![entry("Foo", RustType::Struct, "m/struct.Foo.html")])
    );
}

#[test]
fn entries_from_anchors_of_none_is_empty() {
    assert_eq!(entries_from_anchors(&vec![], "mycrate", RustType::Trait), Ok(vec![]));
}

#[test]
fn entries_from_anchors_fails_at_the_first_bad_anchor() {
    let no_text = vec![
        anchor(Some("A"), Some("a.html")),
        Anchor { texts: nodes(&[None, None]), href: Some("b.html".to_string()) },
    ];
    assert_eq!(
        entries_from_anchors(&no_text, "m", RustType::Enum),
        Err(ExtractError::MissingText)
    );
    let no_href = vec![anchor(Some("A"), None), anchor(None, None)];
    assert_eq!(
        entries_from_anchors(&no_href, "m", RustType::Enum),
        Err(ExtractError::MissingHref)
    );
    let neither = vec![anchor(None, None)];
    assert_eq!(
        entries_from_anchors(&neither, "m", RustType::Enum),
        Err(ExtractError::MissingText)
    );
}

#[test]
fn extract_page_lists_kind_after_kind() {
    let html = r#"<ul class="functions"><li><a href="fn.run.html">run</a></li></ul>
        <ul class="structs"><li><a href="struct.Widget.html">Widget</a></li></ul>
        <ul class="enums"><li><a href="enum.Mode.html">Mode</a></li></ul>"#;
    let page = Page { path: "/doc/m/all.html".to_string(), content: html.as_bytes().to_vec() };
    assert_eq!(
        extract_page(&page),
        Ok(vec![
            entry("Widget", RustType::Struct, "m/struct.Widget.html"),
            entry("Mode", RustType::Enum, "m/enum.Mode.html"),
            entry("run", RustType::Function, "m/fn.run.html"),
        ])
    );
}

#[test]
fn extract_page_fails_with_the_first_failing_kind() {
    let html = r#"<ul class="functions"><li><a>run</a></li></ul>
        <ul class="enums"><li><a href="enum.Mode.html"></a></li></ul>"#;
    let page = Page { path: "/doc/m/all.html".to_string(), content: html.as_bytes().to_vec() };
    assert_eq!(extract_page(&page), Err(ExtractError::MissingText));
}

#[test]
fn collect_entries_joins_the_pages_in_order() {
    let first = Page {
        path: "/doc/one/all.html".to_string(),
        content: br#"<ul class="traits"><li><a href="trait.T.html">T</a></li></ul>"#.to_vec(),
    };
    let second = Page {
        path: "/doc/two/all.html".to_string(),
        content: br#"<ul class="structs"><li><a href="struct.S.html">S</a></li></ul>"#.to_vec(),
    };
    assert_eq!(
        collect_entries(&vec![first, second]),
        Ok(vec![
            entry("T", RustType::Trait, "one/trait.T.html"),
            entry("S", RustType::Struct, "two/struct.S.html"),
        ])
    );
    assert_eq!(collect_entries(&vec![]), Ok(vec![]));
}

#[test]
fn collect_entries_fails_with_the_first_failing_page() {
    let good = Page {
        path: "/doc/one/all.html".to_string(),
        content: br#"<ul class="traits"><li><a href="trait.T.html">T</a></li></ul>"#.to_vec(),
    };
    let unreadable = Page { path: "/doc/two/all.html".to_string(), content: vec![0xc3, 0x28] };
    let homeless = Page { path: "all.html".to_string(), content: vec![] };
    assert_eq!(
        collect_entries(&vec![good.clone(), unreadable.clone(), homeless.clone()]),
        Err(ExtractError::Unreadable)
    );
    assert_eq!(
        collect_entries(&vec![good, homeless, unreadable]),
        Err(ExtractError::NoModuleSegment)
    );
}
