//! Tests of the document codec: parsing, serialization, the round trip, and
//! the entity layer built on them.

use hexo_core::error::Error;
use hexo_core::markdown::{entity_id, Frontmatter, MarkdownDocument, Post};
use hexo_core::meta::Value;

fn plain_frontmatter(title: &str, date: &str) -> Frontmatter {
    Frontmatter {
        title: title.to_string(),
        date: date.to_string(),
        tags: Vec::new(),
        categories: Vec::new(),
        permalink: None,
        list_image: None,
        list_image_alt: None,
        main_image: None,
        main_image_alt: None,
        custom_fields: Vec::new(),
    }
}

#[test]
fn parse_example_document() {
    let raw = "---\ntitle: Hello\ndate: 2024-01-01\ntags:\n  - a\n  - b\n---\n\nBody text.\n";
    let doc = MarkdownDocument::parse(raw).unwrap();
    assert_eq!(doc.frontmatter.title, "Hello");
    assert_eq!(doc.frontmatter.date, "2024-01-01");
    assert_eq!(doc.frontmatter.tags, vec!["a".to_string(), "b".to_string()]);
    assert!(doc.frontmatter.categories.is_empty());
    assert!(doc.frontmatter.permalink.is_none());
    assert!(doc.frontmatter.custom_fields.is_empty());
    assert_eq!(doc.content, "Body text.");

    let text = doc.to_string().unwrap();
    let again = MarkdownDocument::parse(&text).unwrap();
    assert_eq!(again.frontmatter.title, "Hello");
    assert_eq!(again.frontmatter.date, "2024-01-01");
    assert_eq!(again.frontmatter.tags, vec!["a".to_string(), "b".to_string()]);
    assert!(again.frontmatter.categories.is_empty());
    assert_eq!(again.content, "Body text.");
}

#[test]
fn parse_rejects_missing_delimiter() {
    assert!(matches!(MarkdownDocument::parse("title: x\n"), Err(Error::NotFrontmatter)));
    assert!(matches!(MarkdownDocument::parse(""), Err(Error::NotFrontmatter)));
    assert!(matches!(MarkdownDocument::parse("--\ntitle: x\n"), Err(Error::NotFrontmatter)));
}

#[test]
fn parse_rejects_single_delimiter() {
    assert!(matches!(
        MarkdownDocument::parse("---\ntitle: x\ndate: d\n"),
        Err(Error::MalformedFrontmatter)
    ));
}

#[test]
fn parse_rejects_bad_metadata() {
    // no title
    assert!(matches!(
        MarkdownDocument::parse("---\ndate: d\n---\n\nbody"),
        Err(Error::InvalidMetadata(_))
    ));
    // unreadable line
    assert!(matches!(
        MarkdownDocument::parse("---\njust text\n---\n\nbody"),
        Err(Error::InvalidMetadata(_))
    ));
    // duplicate title
    assert!(matches!(
        MarkdownDocument::parse("---\ntitle: a\ntitle: b\ndate: d\n---\n\nbody"),
        Err(Error::InvalidMetadata(_))
    ));
    // tags with a scalar instead of a block sequence
    assert!(matches!(
        MarkdownDocument::parse("---\ntitle: a\ndate: d\ntags: x\n---\n\nbody"),
        Err(Error::InvalidMetadata(_))
    ));
}

#[test]
fn serialize_exact_text() {
    let mut fm = plain_frontmatter("Hello", "2024-01-01");
    fm.tags = vec!["a".to_string(), "b".to_string()];
    let doc = MarkdownDocument { frontmatter: fm, content: "Body text.".to_string() };
    let text = doc.to_string().unwrap();
    assert_eq!(
        text,
        "---\ntitle: Hello\ndate: 2024-01-01\ntags:\n  - a\n  - b\n---\n\nBody text."
    );
}

#[test]
fn round_trip_with_custom_fields() {
    let mut fm = plain_frontmatter("T", "2020-05-05");
    fm.tags = vec!["x".to_string()];
    fm.permalink = Some("/a/b".to_string());
    fm.custom_fields.push(("author".to_string(), Value::Scalar("ada".to_string())));
    fm.custom_fields.push((
        "aliases".to_string(),
        Value::Items(vec!["one".to_string(), "two".to_string()]),
    ));
    fm.custom_fields.push((
        "theme".to_string(),
        Value::Mapping(vec![
            ("color".to_string(), Value::Scalar("red".to_string())),
            ("fonts".to_string(), Value::Items(vec!["serif".to_string()])),
        ]),
    ));
    let doc = MarkdownDocument { frontmatter: fm, content: "The body.".to_string() };
    let text = doc.to_string().unwrap();
    let back = MarkdownDocument::parse(&text).unwrap();
    assert_eq!(back.frontmatter.title, "T");
    assert_eq!(back.frontmatter.date, "2020-05-05");
    assert_eq!(back.frontmatter.tags, vec!["x".to_string()]);
    assert!(back.frontmatter.categories.is_empty());
    assert_eq!(back.frontmatter.permalink, Some("/a/b".to_string()));
    assert_eq!(back.frontmatter.custom_fields.len(), 3);
    assert_eq!(back.frontmatter.custom_fields[0].0, "author");
    assert!(matches!(&back.frontmatter.custom_fields[0].1, Value::Scalar(s) if s == "ada"));
    assert_eq!(back.frontmatter.custom_fields[1].0, "aliases");
    assert!(matches!(&back.frontmatter.custom_fields[1].1,
        Value::Items(v) if v == &vec!["one".to_string(), "two".to_string()]));
    assert_eq!(back.frontmatter.custom_fields[2].0, "theme");
    match &back.frontmatter.custom_fields[2].1 {
        Value::Mapping(entries) => {
            assert_eq!(entries.len(), 2);
            assert_eq!(entries[0].0, "color");
            assert!(matches!(&entries[0].1, Value::Scalar(s) if s == "red"));
            assert_eq!(entries[1].0, "fonts");
            assert!(matches!(&entries[1].1,
                Value::Items(v) if v == &vec!["serif".to_string()]));
        }
        other => panic!("expected a mapping, got {:?}", other),
    }
    assert_eq!(back.content, "The body.");
}

#[test]
fn serialize_rejects_structurally_unencodable_custom_values() {
    // an empty block sequence has no written form
    let mut fm = plain_frontmatter("T", "d");
    fm.custom_fields.push(("empty".to_string(), Value::Items(Vec::new())));
    assert!(matches!(
        MarkdownDocument { frontmatter: fm, content: String::new() }.to_string(),
        Err(Error::InvalidMetadata(_))
    ));
    // an empty nested mapping has no written form either
    let mut fm2 = plain_frontmatter("T", "d");
    fm2.custom_fields.push(("empty".to_string(), Value::Mapping(Vec::new())));
    assert!(matches!(
        MarkdownDocument { frontmatter: fm2, content: String::new() }.to_string(),
        Err(Error::InvalidMetadata(_))
    ));
    // nesting past the bound is refused
    let mut deep = Value::Scalar("x".to_string());
    for _ in 0..70 {
        deep = Value::Mapping(vec![("k".to_string(), deep)]);
    }
    let mut fm3 = plain_frontmatter("T", "d");
    fm3.custom_fields.push(("deep".to_string(), deep));
    assert!(matches!(
        MarkdownDocument { frontmatter: fm3, content: String::new() }.to_string(),
        Err(Error::InvalidMetadata(_))
    ));
}

#[test]
fn awkward_text_round_trips() {
    // serialization is total in the text it carries: scalars and keys the
    // plain line format cannot hold are quoted and read back unchanged
    let mut fm = plain_frontmatter("line one\nline two", "---");
    fm.tags = vec!["a:b".to_string(), "\"quoted\"".to_string()];
    fm.permalink = Some("back\\slash".to_string());
    fm.custom_fields.push(("odd:key".to_string(), Value::Scalar("v".to_string())));
    fm.custom_fields.push(("-dash".to_string(), Value::Scalar("---".to_string())));
    let doc = MarkdownDocument { frontmatter: fm, content: "body".to_string() };
    let text = doc.to_string().unwrap();
    let back = MarkdownDocument::parse(&text).unwrap();
    assert_eq!(back.frontmatter.title, "line one\nline two");
    assert_eq!(back.frontmatter.date, "---");
    assert_eq!(
        back.frontmatter.tags,
        vec!["a:b".to_string(), "\"quoted\"".to_string()]
    );
    assert_eq!(back.frontmatter.permalink, Some("back\\slash".to_string()));
    assert_eq!(back.frontmatter.custom_fields.len(), 2);
    assert_eq!(back.frontmatter.custom_fields[0].0, "odd:key");
    assert!(matches!(&back.frontmatter.custom_fields[0].1, Value::Scalar(s) if s == "v"));
    assert_eq!(back.frontmatter.custom_fields[1].0, "-dash");
    assert!(matches!(&back.frontmatter.custom_fields[1].1, Value::Scalar(s) if s == "---"));
    assert_eq!(back.content, "body");
}

#[test]
fn quoted_spelling_exact_text() {
    let fm = plain_frontmatter("a\nb", "c-d");
    let doc = MarkdownDocument { frontmatter: fm, content: "b".to_string() };
    let text = doc.to_string().unwrap();
    // the newline forces the quoted spelling; a lone dash stays plain
    assert_eq!(text, "---\ntitle: \"a\\nb\"\ndate: c-d\n---\n\nb");
    let back = MarkdownDocument::parse(&text).unwrap();
    assert_eq!(back.frontmatter.title, "a\nb");
    assert_eq!(back.frontmatter.date, "c-d");
}

#[test]
fn entity_identity_relative_and_absolute() {
    assert_eq!(entity_id("/proj/posts/hello.md", "/proj"), "posts/hello.md");
    assert_eq!(entity_id("/other/hello.md", "/proj"), "/other/hello.md");
    assert_eq!(entity_id("/project2/x.md", "/proj"), "/project2/x.md");
}

#[test]
fn post_from_file_fields_and_timestamps() {
    let raw = "---\ntitle: Hi\ndate: 2021-02-03\n---\n\nhello";
    let post = Post::from_file(
        "/proj/source/_posts/hi.md",
        "/proj",
        raw,
        Some(100),
        Some(200),
    )
    .unwrap();
    assert_eq!(post.id, "source/_posts/hi.md");
    assert_eq!(post.title, "Hi");
    assert_eq!(post.date, "2021-02-03");
    assert_eq!(post.content, "hello");
    assert_eq!(post.file_path, "/proj/source/_posts/hi.md");
    assert_eq!(post.created_at, 100);
    assert_eq!(post.modified_at, 200);

    // creation time falls back to modification time, then to zero
    let p2 = Post::from_file("/a.md", "/proj", raw, None, Some(7)).unwrap();
    assert_eq!(p2.created_at, 7);
    assert_eq!(p2.modified_at, 7);
    let p3 = Post::from_file("/a.md", "/proj", raw, None, None).unwrap();
    assert_eq!(p3.created_at, 0);
    assert_eq!(p3.modified_at, 0);

    assert!(matches!(
        Post::from_file("/a.md", "/proj", "no frontmatter", None, None),
        Err(Error::NotFrontmatter)
    ));
}

#[test]
fn post_to_markdown_round_trips() {
    let raw = "---\ntitle: Hi\ndate: 2021-02-03\n---\n\nhello";
    let post = Post::from_file("/proj/p.md", "/proj", raw, None, None).unwrap();
    let text = post.to_markdown().unwrap();
    assert_eq!(text, "---\ntitle: Hi\ndate: 2021-02-03\n---\n\nhello");
}

#[test]
fn body_keeps_later_delimiters() {
    let raw = "---\ntitle: T\ndate: d\n---\n\nfirst\n---\nsecond";
    let doc = MarkdownDocument::parse(raw).unwrap();
    assert_eq!(doc.content, "first\n---\nsecond");
}

#[test]
fn parse_trims_body_whitespace() {
    let raw = "---\ntitle: T\ndate: d\n---\n\n   \n  padded body \t\n\n";
    let doc = MarkdownDocument::parse(raw).unwrap();
    assert_eq!(doc.content, "padded body");
}

#[test]
fn optional_fields_round_trip() {
    let mut fm = plain_frontmatter("T", "d");
    fm.list_image = Some("img.png".to_string());
    fm.main_image_alt = Some("an image".to_string());
    let doc = MarkdownDocument { frontmatter: fm, content: "b".to_string() };
    let text = doc.to_string().unwrap();
    assert_eq!(
        text,
        "---\ntitle: T\ndate: d\nlistImage: img.png\nmainImageAlt: an image\n---\n\nb"
    );
    let back = MarkdownDocument::parse(&text).unwrap();
    assert_eq!(back.frontmatter.list_image, Some("img.png".to_string()));
    assert_eq!(back.frontmatter.main_image_alt, Some("an image".to_string()));
    assert!(back.frontmatter.permalink.is_none());
    assert!(back.frontmatter.main_image.is_none());
    assert!(back.frontmatter.list_image_alt.is_none());
}
