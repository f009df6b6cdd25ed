use ferrum::document::{load_documents, parse, serialize_metadata};
use ferrum::error::ErrorKind;
use ferrum::paths::{
    copy_eligible, is_document_file, is_hidden, is_template_file, key_of, output_path,
};
use ferrum::render::render;
use ferrum::site::build_site;
use ferrum::template::{Template, TemplateStore};

fn b(s: &str) -> Vec<u8> {
    s.as_bytes().to_vec()
}

fn store_of(entries: &[(&str, &str)]) -> TemplateStore {
    let mut templates = Vec::new();
    for (name, content) in entries {
        templates.push(Template { name: b(name), content: b(content) });
    }
    TemplateStore { templates }
}

#[test]
fn parse_without_front_matter_keeps_whole_content_as_body() {
    let raw = b("just a body\nwith two lines\n");
    let doc = parse(&raw, &b("_posts/plain.md")).unwrap();
    assert!(doc.metadata.is_empty());
    assert_eq!(doc.body, raw);
    assert_eq!(doc.key, b("plain"));
    assert!(doc.template_name.is_none());
}

#[test]
fn parse_reads_front_matter_fields_and_body() {
    let raw = b("---\ntitle: Hello\ndate: 2021-01-01\n---\nWorld");
    let doc = parse(&raw, &b("_posts/2021-01-01-hello.md")).unwrap();
    assert_eq!(doc.metadata, vec![(b("title"), b("Hello")), (b("date"), b("2021-01-01"))]);
    assert_eq!(doc.body, b("World"));
    assert_eq!(doc.key, b("hello"));
}

#[test]
fn parse_reads_template_field() {
    let raw = b("---\ntemplate: post\n---\nbody");
    let doc = parse(&raw, &b("x.md")).unwrap();
    assert_eq!(doc.template_name, Some(b("post")));
}

#[test]
fn parse_serialize_round_trip() {
    let metadata = vec![(b("title"), b("A Title")), (b("template"), b("post")), (b("n"), b(""))];
    let mut raw = serialize_metadata(&metadata);
    raw.extend_from_slice(b"The body.\nMore body.");
    let doc = parse(&raw, &b("_posts/2020-05-06-roundtrip.md")).unwrap();
    assert_eq!(doc.metadata, metadata);
    assert_eq!(doc.body, b("The body.\nMore body."));
}

#[test]
fn parse_value_without_space_after_colon() {
    let raw = b("---\ntitle:Hello\n---\n");
    let doc = parse(&raw, &b("a.md")).unwrap();
    assert_eq!(doc.metadata, vec![(b("title"), b("Hello"))]);
}

#[test]
fn parse_keeps_extra_spaces_in_value() {
    let raw = b("---\ntitle:   spaced\n---\n");
    let doc = parse(&raw, &b("a.md")).unwrap();
    // one space after the colon is the separator; the rest belongs to the value
    assert_eq!(doc.metadata, vec![(b("title"), b("  spaced"))]);
}

#[test]
fn parse_unterminated_front_matter_is_decoding_error() {
    let raw = b("---\ntitle: Hello\nno closing line");
    let err = parse(&raw, &b("_posts/broken.md")).unwrap_err();
    match err.kind {
        ErrorKind::DecodingError(f) => assert_eq!(f, b("_posts/broken.md")),
        k => panic!("unexpected kind {:?}", k),
    }
}

#[test]
fn parse_field_line_without_colon_is_decoding_error() {
    let raw = b("---\nnocolon\n---\nbody");
    let err = parse(&raw, &b("bad.md")).unwrap_err();
    assert!(matches!(err.kind, ErrorKind::DecodingError(_)));
}

#[test]
fn parse_repeated_field_key_is_decoding_error() {
    let raw = b("---\na: 1\na: 2\n---\n");
    let err = parse(&raw, &b("dup.md")).unwrap_err();
    assert!(matches!(err.kind, ErrorKind::DecodingError(_)));
}

#[test]
fn parse_empty_front_matter_block() {
    let raw = b("---\n---\nbody");
    let doc = parse(&raw, &b("a.md")).unwrap();
    assert!(doc.metadata.is_empty());
    assert_eq!(doc.body, b("body"));
}

#[test]
fn key_strips_date_prefix_and_extension() {
    assert_eq!(key_of(&b("_posts/2021-01-01-hello.md")), b("hello"));
    assert_eq!(key_of(&b("about.md")), b("about"));
    assert_eq!(key_of(&b("src/_posts/2019-12-31-year-end.markdown")), b("year-end"));
    assert_eq!(key_of(&b("noext")), b("noext"));
}

#[test]
fn load_documents_with_distinct_keys_succeeds_in_order() {
    let files = vec![
        (b("_posts/2021-01-01-a.md"), b("---\nt: 1\n---\nA")),
        (b("_posts/b.md"), b("B")),
    ];
    let docs = load_documents(&files).unwrap();
    assert_eq!(docs.len(), 2);
    assert_eq!(docs[0].key, b("a"));
    assert_eq!(docs[1].key, b("b"));
}

#[test]
fn load_documents_with_colliding_keys_is_duplicate_key_error() {
    // distinct source paths, same derived key
    let files = vec![
        (b("_posts/2021-01-01-hello.md"), b("one")),
        (b("_posts/2022-02-02-hello.md"), b("two")),
    ];
    let err = load_documents(&files).unwrap_err();
    match err.kind {
        ErrorKind::DuplicateKeyError(k) => assert_eq!(k, b("hello")),
        k => panic!("unexpected kind {:?}", k),
    }
}

#[test]
fn load_documents_fails_fast_on_first_broken_file() {
    let files = vec![
        (b("_posts/good.md"), b("fine")),
        (b("_posts/bad.md"), b("---\nunterminated")),
        (b("_posts/later.md"), b("also fine")),
    ];
    let err = load_documents(&files).unwrap_err();
    match err.kind {
        ErrorKind::DecodingError(f) => assert_eq!(f, b("_posts/bad.md")),
        k => panic!("unexpected kind {:?}", k),
    }
}

#[test]
fn render_substitutes_metadata_and_body() {
    let raw = b("---\ntitle: Hello\n---\nWorld");
    let doc = parse(&raw, &b("_posts/2021-01-01-hello.md")).unwrap();
    let store = store_of(&[("default", "<h1>{{title}}</h1>{{content}}")]);
    let out = render(&doc, &store).unwrap();
    assert_eq!(out, b("<h1>Hello</h1>World"));
}

#[test]
fn render_twice_yields_identical_bytes() {
    let doc = parse(&b("---\ntitle: T\n---\nB"), &b("p.md")).unwrap();
    let store = store_of(&[("default", "{{title}}: {{content}}")]);
    let first = render(&doc, &store).unwrap();
    let second = render(&doc, &store).unwrap();
    assert_eq!(first, second);
}

#[test]
fn unset_template_name_resolves_to_default() {
    let doc = parse(&b("no front matter"), &b("p.md")).unwrap();
    let store = store_of(&[("other", "X"), ("default", "D:{{content}}")]);
    let out = render(&doc, &store).unwrap();
    assert_eq!(out, b("D:no front matter"));
}

#[test]
fn named_template_is_used_when_present() {
    let doc = parse(&b("---\ntemplate: post\n---\nbody"), &b("p.md")).unwrap();
    let store = store_of(&[("default", "D"), ("post", "P[{{content}}]")]);
    let out = render(&doc, &store).unwrap();
    assert_eq!(out, b("P[body]"));
}

#[test]
fn missing_named_template_is_missing_template_error() {
    let doc = parse(&b("---\ntemplate: absent\n---\n"), &b("p.md")).unwrap();
    let store = store_of(&[("default", "D")]);
    let err = render(&doc, &store).unwrap_err();
    match err.kind {
        ErrorKind::MissingTemplateError(n) => assert_eq!(n, b("absent")),
        k => panic!("unexpected kind {:?}", k),
    }
}

#[test]
fn missing_default_template_is_missing_template_error() {
    let doc = parse(&b("body"), &b("p.md")).unwrap();
    let store = store_of(&[("other", "X")]);
    let err = render(&doc, &store).unwrap_err();
    match err.kind {
        ErrorKind::MissingTemplateError(n) => assert_eq!(n, b("default")),
        k => panic!("unexpected kind {:?}", k),
    }
}

#[test]
fn unknown_placeholder_is_an_error() {
    let doc = parse(&b("body"), &b("p.md")).unwrap();
    let store = store_of(&[("default", "{{typo}}")]);
    let err = render(&doc, &store).unwrap_err();
    assert!(matches!(err.kind, ErrorKind::DecodingError(_)));
}

#[test]
fn unclosed_placeholder_is_an_error() {
    let doc = parse(&b("body"), &b("p.md")).unwrap();
    let store = store_of(&[("default", "a{{content")]);
    let err = render(&doc, &store).unwrap_err();
    assert!(matches!(err.kind, ErrorKind::DecodingError(_)));
}

#[test]
fn body_shadows_a_content_metadata_field() {
    let doc = parse(&b("---\ncontent: meta\n---\nreal body"), &b("p.md")).unwrap();
    let store = store_of(&[("default", "{{content}}")]);
    let out = render(&doc, &store).unwrap();
    assert_eq!(out, b("real body"));
}

#[test]
fn literal_braces_outside_placeholders_pass_through() {
    let doc = parse(&b("B"), &b("p.md")).unwrap();
    let store = store_of(&[("default", "{ not }} a {placeholder {{content}}!")]);
    let out = render(&doc, &store).unwrap();
    assert_eq!(out, b("{ not }} a {placeholder B!"));
}

#[test]
fn duplicate_template_names_are_a_duplicate_key_error() {
    let files = vec![
        (b("_templates/default.tpl"), b("one")),
        (b("other/default.tpl"), b("two")),
    ];
    let err = TemplateStore::build(&files).unwrap_err();
    match err.kind {
        ErrorKind::DuplicateKeyError(k) => assert_eq!(k, b("default")),
        k => panic!("unexpected kind {:?}", k),
    }
}

#[test]
fn template_store_build_derives_names_from_stems() {
    let files = vec![
        (b("_templates/default.tpl"), b("D")),
        (b("_templates/post.tpl"), b("P")),
    ];
    let store = TemplateStore::build(&files).unwrap();
    assert_eq!(store.templates.len(), 2);
    assert_eq!(store.templates[0].name, b("default"));
    assert_eq!(store.templates[1].name, b("post"));
    assert_eq!(store.get(&b("post")), Some(b("P")));
    assert_eq!(store.get(&b("absent")), None);
}

#[test]
fn hidden_files_are_never_loaded_or_copied() {
    assert!(is_hidden(&b(".secret")));
    assert!(is_hidden(&b("dir/.hidden.tpl")));
    assert!(!is_template_file(&b("dir/.hidden.tpl")));
    assert!(!is_document_file(&b("_posts/.draft.md")));
    assert!(!copy_eligible(&b(".git")));
    assert!(is_template_file(&b("_templates/default.tpl")));
    assert!(!is_template_file(&b("_templates/readme.md")));
    assert!(is_document_file(&b("_posts/a.md")));
}

#[test]
fn reserved_directories_are_not_copied() {
    assert!(!copy_eligible(&b("_posts")));
    assert!(!copy_eligible(&b("_templates")));
    assert!(copy_eligible(&b("css")));
    assert!(copy_eligible(&b("index.html")));
}

#[test]
fn output_path_joins_with_a_single_separator() {
    assert_eq!(output_path(&b("./_site/"), &b("hello")), b("./_site/hello"));
    assert_eq!(output_path(&b("out"), &b("hello")), b("out/hello"));
}

#[test]
fn end_to_end_build_renders_one_post() {
    let templates = vec![(b("_templates/default.tpl"), b("<h1>{{title}}</h1>{{content}}"))];
    let posts = vec![(b("_posts/2021-01-01-hello.md"), b("---\ntitle: Hello\n---\nWorld"))];
    let outs = build_site(&templates, &posts, &b("./_site/")).unwrap();
    assert_eq!(outs.len(), 1);
    assert_eq!(outs[0].0, b("./_site/hello"));
    assert_eq!(outs[0].1, b("<h1>Hello</h1>World"));
}

#[test]
fn end_to_end_build_halts_on_malformed_document() {
    let templates = vec![(b("_templates/default.tpl"), b("{{content}}"))];
    let posts = vec![
        (b("_posts/ok.md"), b("fine")),
        (b("_posts/broken.md"), b("---\nunterminated")),
    ];
    let err = build_site(&templates, &posts, &b("out")).unwrap_err();
    match err.kind {
        ErrorKind::DecodingError(f) => assert_eq!(f, b("_posts/broken.md")),
        k => panic!("unexpected kind {:?}", k),
    }
}

#[test]
fn serialize_metadata_exact_bytes() {
    let metadata = vec![(b("title"), b("Hello"))];
    assert_eq!(serialize_metadata(&metadata), b("---\ntitle: Hello\n---\n"));
    assert_eq!(serialize_metadata(&Vec::new()), b("---\n---\n"));
}

#[test]
fn date_prefix_with_empty_remainder_is_decoding_error() {
    let err = parse(&b("body"), &b("_posts/2021-01-01-.md")).unwrap_err();
    assert!(matches!(err.kind, ErrorKind::DecodingError(_)));
}

#[test]
fn empty_build_produces_no_outputs() {
    let outs = build_site(&Vec::new(), &Vec::new(), &b("out")).unwrap();
    assert!(outs.is_empty());
}

#[test]
fn adjacent_placeholders_substitute_in_order() {
    let doc = parse(&b("---\na: 1\nb: 2\n---\nZ"), &b("p.md")).unwrap();
    let store = store_of(&[("default", "{{a}}{{b}}{{content}}")]);
    assert_eq!(render(&doc, &store).unwrap(), b("12Z"));
}

#[test]
fn empty_template_renders_empty_output() {
    let doc = parse(&b("anything"), &b("p.md")).unwrap();
    let store = store_of(&[("default", "")]);
    assert_eq!(render(&doc, &store).unwrap(), b(""));
}
