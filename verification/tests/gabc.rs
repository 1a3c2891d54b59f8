use mdbook_gabc::add_gabc;

fn run_gabc(content: &str) -> String {
    String::from_utf8(add_gabc(content.as_bytes()).unwrap()).unwrap()
}

#[test]
fn adds_gabc() {
    let content = r#"# Chapter

```gabc
(f3) EC(ce!fg)CE(f) *(,) ad(fe~)vé(f!gwhf)nit(f) (,)
```

Text
"#;

    let expected = r#"# Chapter


<pre class="chant-container">(f3) EC(ce!fg)CE(f) *(,) ad(fe~)vé(f!gwhf)nit(f) (,)
</pre>



Text
"#;

    assert_eq!(expected, run_gabc(content));
}

#[test]
fn leaves_tables_untouched() {
    let content = r#"# Heading

| Head 1 | Head 2 |
|--------|--------|
| Row 1  | Row 2  |
"#;

    let expected = r#"# Heading

| Head 1 | Head 2 |
|--------|--------|
| Row 1  | Row 2  |
"#;

    assert_eq!(expected, run_gabc(content));
}

#[test]
fn leaves_html_untouched() {
    let content = r#"# Heading

<del>

*foo*

</del>
"#;

    let expected = r#"# Heading

<del>

*foo*

</del>
"#;

    assert_eq!(expected, run_gabc(content));
}

#[test]
fn html_in_list() {
    let content = r#"# Heading

1. paragraph 1
   ```
   code 1
   ```
2. paragraph 2
"#;

    let expected = r#"# Heading

1. paragraph 1
   ```
   code 1
   ```
2. paragraph 2
"#;

    let ret = run_gabc(content);
    assert_eq!(expected, ret);
}

#[test]
fn escape_in_gabc_block() {
    let content = r#"
```gabc
(f3) EC(ce!fg)CE(f) *(,) ad(fe~)vé(f!gwhf)nit(f) (,)
```

hello
"#;

    let expected = r#"

<pre class="chant-container">(f3) EC(ce!fg)CE(f) *(,) ad(fe~)vé(f!gwhf)nit(f) (,)
</pre>



hello
"#;

    assert_eq!(expected, run_gabc(content));
}

#[test]
fn more_backticks() {
    let content = r#"# Chapter

````gabc
(f3) EC(ce!fg)CE(f) *(,) ad(fe~)vé(f!gwhf)nit(f) (,)
````

Text
"#;

    let expected = r#"# Chapter


<pre class="chant-container">(f3) EC(ce!fg)CE(f) *(,) ad(fe~)vé(f!gwhf)nit(f) (,)
</pre>



Text
"#;

    assert_eq!(expected, run_gabc(content));
}

#[test]
fn crlf_line_endings() {
    let content = "# Chapter\r\n\r\n````gabc\r\n\r\n(f3) EC(ce!fg)CE(f) *(,)\r\nad(fe~)vé(f!gwhf)nit(f) (,)\r\n````";
    let expected =
        "# Chapter\r\n\r\n\n<pre class=\"chant-container\">\n(f3) EC(ce!fg)CE(f) *(,)\nad(fe~)vé(f!gwhf)nit(f) (,)\n</pre>\n\n";

    assert_eq!(expected, run_gabc(content));
}

#[test]
fn test_leaves_nongabc_untouched() {
    let content = r#"Chapter\nsample program```python\nprint('output')```\nfinished"#;
    assert_eq!(content, run_gabc(content));
}

#[test]
fn test_multiple_blocks() {
    let content = "```\nsample code\n```\n```gabc\n(f3) ec(f)ce(g)\n```\n";
    let expected =
        "```\nsample code\n```\n\n<pre class=\"chant-container\">(f3) ec(f)ce(g)\n</pre>\n\n\n";
    assert_eq!(expected, run_gabc(content));
}

#[test]
fn simple_block_is_wrapped() {
    let content = "# Chapter\n\n```gabc\nfoo\n```\n\nText\n";
    let expected =
        "# Chapter\n\n\n<pre class=\"chant-container\">foo\n</pre>\n\n\n\nText\n";
    assert_eq!(expected, run_gabc(content));
}

#[test]
fn gabc_block_in_ordered_list() {
    let content = "1. chant item\n   ```gabc\n   (f3) ec(f)\n   ```\n2. plain item\n   ```\n   plain code\n   ```\n";
    let out = run_gabc(content);
    // Only the labelled block becomes a wrapper.
    assert_eq!(1, out.matches("<pre class=\"chant-container\">").count());
    assert!(!out.contains("```gabc"));
    // The plain block and the list structure stay.
    assert!(out.contains("1. chant item"));
    assert!(out.contains("2. plain item"));
    assert!(out.contains("```\n   plain code\n   ```"));
}

#[test]
fn escaping_in_block() {
    let content = "```gabc\na < b > c \" d & e\n```\n";
    let out = run_gabc(content);
    assert!(out.contains(
        "<pre class=\"chant-container\">a &lt; b &gt; c &quot; d &amp; e\n</pre>"
    ));
}

#[test]
fn five_backticks() {
    let content = "`````gabc\nfoo\n`````\n";
    let out = run_gabc(content);
    assert!(out.contains("<pre class=\"chant-container\">foo\n</pre>"));
    assert!(!out.contains("`````"));
}
