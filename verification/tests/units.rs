use mdbook_gabc::book::{Book, BookItem, Chapter, Gabc};
use mdbook_gabc::buf::bytes_eq;
use mdbook_gabc::escape::{escape_html, normalize_crlf};
use mdbook_gabc::events::MdEvent;
use mdbook_gabc::extract::{build_wrapper, extract_blocks, GabcError, Replacement};
use mdbook_gabc::rewrite::rewrite;
use mdbook_gabc::transform::transform;

fn fence_start(label: &str, start: usize, end: usize) -> MdEvent {
    MdEvent::FenceStart { label: label.as_bytes().to_vec(), start, end }
}

fn fence_end(label: &str, start: usize, end: usize) -> MdEvent {
    MdEvent::FenceEnd { label: label.as_bytes().to_vec(), start, end }
}

fn text(start: usize, end: usize) -> MdEvent {
    MdEvent::Text { start, end }
}

#[test]
fn escape_html_exact() {
    let out = escape_html(b"a<b>c\"d&e");
    assert_eq!(b"a&lt;b&gt;c&quot;d&amp;e".to_vec(), out);
}

#[test]
fn escape_html_plain_passthrough() {
    let out = escape_html("caf\u{e9} text\n".as_bytes());
    assert_eq!("caf\u{e9} text\n".as_bytes().to_vec(), out);
}

#[test]
fn normalize_crlf_exact() {
    let out = normalize_crlf(b"a\r\nb\rc\nd\r\n");
    assert_eq!(b"a\nb\rc\nd\n".to_vec(), out);
}

#[test]
fn bytes_eq_basic() {
    assert!(bytes_eq(b"abc", b"abc"));
    assert!(!bytes_eq(b"abc", b"abd"));
    assert!(!bytes_eq(b"abc", b"ab"));
}

#[test]
fn build_wrapper_exact() {
    let out = build_wrapper(b"chant-container", b"x<y\r\n");
    assert_eq!(
        b"<pre class=\"chant-container\">x&lt;y\n</pre>\n\n".to_vec(),
        out
    );
}

#[test]
fn extract_collects_labelled_blocks() {
    let content = b"```gabc\nfoo\n```\n";
    let events = vec![
        fence_start("gabc", 0, 16),
        text(8, 12),
        fence_end("gabc", 0, 16),
    ];
    let reps = extract_blocks(content, b"gabc", b"chant-container", &events).unwrap();
    assert_eq!(1, reps.len());
    assert_eq!(0, reps[0].start);
    assert_eq!(16, reps[0].end);
    assert_eq!(
        b"<pre class=\"chant-container\">foo\n</pre>\n\n".to_vec(),
        reps[0].text
    );
}

#[test]
fn extract_ignores_other_labels() {
    let content = b"```python\nfoo\n```\n";
    let events = vec![
        fence_start("python", 0, 18),
        text(10, 14),
        fence_end("python", 0, 18),
    ];
    let reps = extract_blocks(content, b"gabc", b"chant-container", &events).unwrap();
    assert_eq!(0, reps.len());
}

#[test]
fn extract_drops_unterminated_block() {
    // A target block that never closes yields no replacement.
    let content = b"```gabc\nfoo\n";
    let events = vec![fence_start("gabc", 0, 12), text(8, 12)];
    let reps = extract_blocks(content, b"gabc", b"chant-container", &events).unwrap();
    assert_eq!(0, reps.len());
}

#[test]
fn extract_reports_label_mismatch() {
    let content = b"```gabc\nfoo\n```\n";
    let events = vec![
        fence_start("gabc", 0, 16),
        text(8, 12),
        fence_end("other", 0, 16),
    ];
    let err = extract_blocks(content, b"gabc", b"chant-container", &events).unwrap_err();
    assert_eq!(GabcError::FenceLabelMismatch, err);
}

#[test]
fn extract_reports_span_inconsistency() {
    let content = b"some document text";
    // The second block's span reaches back before the first replacement.
    let events = vec![
        fence_start("gabc", 2, 10),
        text(4, 6),
        fence_end("gabc", 2, 10),
        fence_start("gabc", 1, 8),
        text(3, 5),
        fence_end("gabc", 1, 8),
    ];
    let err = extract_blocks(content, b"gabc", b"chant-container", &events).unwrap_err();
    assert_eq!(GabcError::SpanInconsistency, err);
}

#[test]
fn rewrite_splices_back_to_front() {
    let content = b"aaa bbb ccc";
    let reps = vec![
        Replacement { start: 0, end: 3, text: b"X".to_vec() },
        Replacement { start: 8, end: 11, text: b"YY".to_vec() },
    ];
    let out = rewrite(content, &reps);
    assert_eq!(b"\nX bbb \nYY".to_vec(), out);
}

#[test]
fn rewrite_with_no_replacements_is_identity() {
    let content = b"untouched";
    let out = rewrite(content, &Vec::new());
    assert_eq!(content.to_vec(), out);
}

#[test]
fn transform_other_label_instance() {
    // The extractor is generic in label and class; a second instance
    // recognizes a different label.
    let content = "```tune\nnotes < here\n```\n";
    let out = transform(content.as_bytes(), b"tune", b"tune-box").unwrap();
    let out = String::from_utf8(out).unwrap();
    assert!(out.contains("<pre class=\"tune-box\">notes &lt; here\n</pre>"));
}

#[test]
fn preprocessor_name() {
    assert_eq!("gabc", Gabc.name());
}

#[test]
fn preprocessor_supports_only_html() {
    assert!(Gabc.supports_renderer("html"));
    assert!(!Gabc.supports_renderer("pdf"));
    assert!(!Gabc.supports_renderer(""));
}

#[test]
fn chapter_add_gabc() {
    let chapter = Chapter {
        content: "```gabc\nfoo\n```\n".as_bytes().to_vec(),
        sub_items: Vec::new(),
    };
    let out = Gabc::add_gabc(&chapter).unwrap();
    assert_eq!(
        "\n<pre class=\"chant-container\">foo\n</pre>\n\n\n",
        String::from_utf8(out).unwrap()
    );
}

#[test]
fn run_transforms_nested_chapters() {
    let nested = Chapter {
        content: "```gabc\nbar\n```\n".as_bytes().to_vec(),
        sub_items: Vec::new(),
    };
    let top = Chapter {
        content: "# Top\n\n```gabc\nfoo\n```\n".as_bytes().to_vec(),
        sub_items: vec![BookItem::Chapter(nested), BookItem::Other],
    };
    let book = Book {
        sections: vec![BookItem::Other, BookItem::Chapter(top)],
    };
    let out = Gabc.run(book).unwrap();
    assert_eq!(2, out.sections.len());
    assert!(matches!(out.sections[0], BookItem::Other));
    let BookItem::Chapter(ref top2) = out.sections[1] else {
        panic!("expected a chapter");
    };
    let top_text = String::from_utf8(top2.content.clone()).unwrap();
    assert!(top_text.contains("<pre class=\"chant-container\">foo\n</pre>"));
    assert!(top_text.starts_with("# Top\n"));
    assert_eq!(2, top2.sub_items.len());
    let BookItem::Chapter(ref sub2) = top2.sub_items[0] else {
        panic!("expected a chapter");
    };
    let sub_text = String::from_utf8(sub2.content.clone()).unwrap();
    assert!(sub_text.contains("<pre class=\"chant-container\">bar\n</pre>"));
    assert!(matches!(top2.sub_items[1], BookItem::Other));
}

#[test]
fn run_leaves_plain_book_unchanged() {
    let chapter = Chapter {
        content: "plain text, no blocks\n".as_bytes().to_vec(),
        sub_items: Vec::new(),
    };
    let book = Book { sections: vec![BookItem::Chapter(chapter)] };
    let out = Gabc.run(book).unwrap();
    let BookItem::Chapter(ref c) = out.sections[0] else {
        panic!("expected a chapter");
    };
    assert_eq!("plain text, no blocks\n".as_bytes().to_vec(), c.content);
}
