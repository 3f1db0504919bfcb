use cmark_syntax::{
    classify, emit, highlight, highlight_block, intercept, language_of, math_supported, render_fenced,
    render_math, write_escaped, Kind, Language, Lexeme, Outcome, Piece, Span,
};

fn span(kind: Kind, start: usize, end: usize) -> Span {
    Span { kind, start, end }
}

fn lexeme(token: Kind, start: usize, end: usize) -> Lexeme<Kind> {
    Lexeme { token, start, end }
}

fn emitted(source: &str, spans: &Vec<Span>) -> String {
    let mut buf = String::new();
    emit(source, spans, &mut buf);
    buf
}

fn unescape(s: &str) -> String {
    s.replace("&lt;", "<")
        .replace("&gt;", ">")
        .replace("&quot;", "\"")
        .replace("&amp;", "&")
}

fn strip_tags(s: &str) -> String {
    let mut out = s.to_string();
    for tag in ["u", "span", "var", "em", "strong", "b", "i"] {
        out = out.replace(&format!("<{}>", tag), "").replace(&format!("</{}>", tag), "");
    }
    out
}

#[test]
fn escapes_the_four_special_characters() {
    let mut s = String::from("x");
    write_escaped(&mut s, "a<b>&\"c");
    assert_eq!(s, "xa&lt;b&gt;&amp;&quot;c");
}

#[test]
fn escaping_leaves_other_text_alone() {
    let mut s = String::new();
    write_escaped(&mut s, "héllo 'wörld' ; =");
    assert_eq!(s, "héllo 'wörld' ; =");
    let mut e = String::new();
    write_escaped(&mut e, "");
    assert_eq!(e, "");
}

#[test]
fn escaping_an_entity_escapes_its_ampersand() {
    let mut s = String::new();
    write_escaped(&mut s, "&lt;");
    assert_eq!(s, "&amp;lt;");
    assert_eq!(unescape(&s), "&lt;");
}

#[test]
fn kinds_map_to_their_tags() {
    assert_eq!(Kind::Plain.tag(), None);
    assert_eq!(Kind::Glyph.tag(), Some("u"));
    assert_eq!(Kind::Literal.tag(), Some("span"));
    assert_eq!(Kind::Identifier.tag(), Some("var"));
    assert_eq!(Kind::SpecialIdentifier.tag(), Some("em"));
    assert_eq!(Kind::StrongIdentifier.tag(), Some("strong"));
    assert_eq!(Kind::Keyword.tag(), Some("b"));
    assert_eq!(Kind::Comment.tag(), Some("i"));
}

#[test]
fn rust_statement_wraps_keyword_in_b() {
    let src = "let x = 1;";
    let spans = vec![
        span(Kind::Keyword, 0, 3),
        span(Kind::Identifier, 4, 5),
        span(Kind::Glyph, 6, 7),
        span(Kind::Literal, 8, 9),
        span(Kind::Glyph, 9, 10),
    ];
    let out = emitted(src, &spans);
    assert_eq!(out, "<b>let</b> <var>x</var> <u>=</u> <span>1</span><u>;</u>");
    assert!(out.contains("<b>let</b>"));
    assert!(!out.contains("&"));
}

#[test]
fn tokens_of_one_kind_share_a_run() {
    let src = "a + b";
    let spans = vec![span(Kind::Identifier, 0, 1), span(Kind::Identifier, 4, 5)];
    assert_eq!(emitted(src, &spans), "<var>a + b</var>");
}

#[test]
fn trivia_before_a_new_run_closes_the_old_one() {
    let src = "fn  main";
    let spans = vec![span(Kind::Keyword, 0, 2), span(Kind::StrongIdentifier, 4, 8)];
    assert_eq!(emitted(src, &spans), "<b>fn</b>  <strong>main</strong>");
}

#[test]
fn plain_tokens_get_no_tags() {
    let src = "a<b";
    let spans = vec![span(Kind::Plain, 0, 1), span(Kind::Plain, 1, 2), span(Kind::Plain, 2, 3)];
    assert_eq!(emitted(src, &spans), "a&lt;b");
}

#[test]
fn text_after_the_last_token_is_not_emitted() {
    let src = "// note\n\n";
    let spans = vec![span(Kind::Comment, 0, 7)];
    assert_eq!(emitted(src, &spans), "<i>// note</i>");
}

#[test]
fn no_tokens_give_no_output() {
    assert_eq!(emitted("  text  ", &vec![]), "");
}

#[test]
fn runs_partition_the_source() {
    let src = "if a < \"b&c\" { x }";
    let spans = vec![
        span(Kind::Keyword, 0, 2),
        span(Kind::Identifier, 3, 4),
        span(Kind::Glyph, 5, 6),
        span(Kind::Literal, 7, 12),
        span(Kind::Glyph, 13, 14),
        span(Kind::Identifier, 15, 16),
        span(Kind::Glyph, 17, 18),
    ];
    let out = emitted(src, &spans);
    assert_eq!(unescape(&strip_tags(&out)), src);
    let markup_free = strip_tags(&out);
    assert!(!markup_free.contains('<'));
    assert!(!markup_free.contains('>'));
    assert!(!markup_free.contains('"'));
}

#[test]
fn tags_are_balanced() {
    let src = "a b c d";
    let spans = vec![
        span(Kind::Keyword, 0, 1),
        span(Kind::Plain, 2, 3),
        span(Kind::Comment, 4, 5),
        span(Kind::Comment, 6, 7),
    ];
    let out = emitted(src, &spans);
    assert_eq!(out, "<b>a</b> b <i>c d</i>");
    for tag in ["u", "span", "var", "em", "strong", "b", "i"] {
        let open = format!("<{}>", tag);
        let close = format!("</{}>", tag);
        assert_eq!(out.matches(&open).count(), out.matches(&close).count());
    }
}

#[test]
fn classify_keeps_spans_and_kinds() {
    let tokens = vec![lexeme(Kind::Keyword, 0, 3), lexeme(Kind::Identifier, 4, 5)];
    let spans = classify(&tokens);
    assert_eq!(spans, vec![span(Kind::Keyword, 0, 3), span(Kind::Identifier, 4, 5)]);
}

#[test]
fn highlighting_twice_gives_the_same_output() {
    let src = "let y = \"q\";";
    let tokens = vec![
        lexeme(Kind::Keyword, 0, 3),
        lexeme(Kind::Identifier, 4, 5),
        lexeme(Kind::Literal, 8, 11),
    ];
    let mut a = String::new();
    let mut b = String::new();
    highlight(src, &tokens, &mut a);
    highlight(src, &tokens, &mut b);
    assert_eq!(a, b);
    assert_eq!(a, "<b>let</b> <var>y</var> = <span>&quot;q&quot;</span>");
}

#[test]
fn highlighted_block_sits_in_its_container() {
    let tokens = vec![lexeme(Kind::Keyword, 0, 2)];
    let html = highlight_block("rs", "fn", &tokens);
    assert_eq!(html, "<pre><code class=\"language-rs\"><b>fn</b></code></pre>");
}

#[test]
fn markup_in_toml_text_is_escaped() {
    let code = "<script>";
    match intercept("toml", &Some(Piece::Text(code.to_string())), &Some(Piece::CodeEnd)) {
        Outcome::Tokenize(lang, text) => {
            assert_eq!(lang, Language::Toml);
            assert_eq!(text, code);
        }
        _ => panic!("toml blocks are tokenized"),
    }
    let tokens = vec![lexeme(Kind::Plain, 0, 8)];
    let html = highlight_block("toml", code, &tokens);
    assert_eq!(html, "<pre><code class=\"language-toml\">&lt;script&gt;</code></pre>");
    assert!(!html.contains("<script>"));
}

#[test]
fn unknown_tag_renders_escaped_text() {
    let code = "a < b && \"c\"\n";
    let expected = "<pre><code class=\"language-text\">a &lt; b &amp;&amp; &quot;c&quot;\n</code></pre>";
    assert_eq!(render_fenced("text", code), expected);
    match intercept("text", &Some(Piece::Text(code.to_string())), &Some(Piece::CodeEnd)) {
        Outcome::Html(h) => assert_eq!(h, expected),
        _ => panic!("unknown tags render as escaped text"),
    }
}

#[test]
fn malformed_block_is_reported() {
    assert!(matches!(intercept("rust", &Some(Piece::Other), &Some(Piece::Other)), Outcome::Unexpected));
    assert!(matches!(intercept("rust", &None, &None), Outcome::Unexpected));
    assert!(matches!(
        intercept("rust", &Some(Piece::CodeEnd), &Some(Piece::Text("x".to_string()))),
        Outcome::Unexpected
    ));
    assert!(matches!(
        intercept("rust", &Some(Piece::Text("x".to_string())), &Some(Piece::Other)),
        Outcome::Unexpected
    ));
}

#[test]
fn tags_select_languages() {
    assert_eq!(language_of("rust"), Language::Rust);
    assert_eq!(language_of("rs"), Language::Rust);
    assert_eq!(language_of("js"), Language::JavaScript);
    assert_eq!(language_of("javascript"), Language::JavaScript);
    assert_eq!(language_of("toml"), Language::Toml);
    assert_eq!(language_of("sh"), Language::Sh);
    assert_eq!(language_of("shell"), Language::Sh);
    assert_eq!(language_of("bash"), Language::Sh);
    assert_eq!(language_of("math"), Language::Math);
    assert_eq!(language_of("mathblock"), Language::MathBlock);
    assert_eq!(language_of("Rust"), Language::Plain);
    assert_eq!(language_of(""), Language::Plain);
    assert_eq!(language_of("rusty"), Language::Plain);
}

#[test]
fn math_converts_to_mathml() {
    let inline = render_math("x", false);
    assert!(inline.starts_with("<math"));
    assert!(inline.contains("display=\"inline\""));
    let block = render_math("x", true);
    assert!(block.contains("display=\"block\""));
    match intercept("mathblock", &Some(Piece::Text("x".to_string())), &Some(Piece::CodeEnd)) {
        Outcome::Html(h) => assert_eq!(h, block),
        _ => panic!("math blocks convert to markup"),
    }
}

#[test]
fn middle_command_is_not_converted() {
    assert!(!math_supported("\\middle"));
    assert!(!math_supported("\\middle x"));
    assert!(!math_supported("a \\middle| b"));
    assert_eq!(render_math("\\middle x", false), "unsupported LaTeX");
    match intercept("math", &Some(Piece::Text("\\middle".to_string())), &Some(Piece::CodeEnd)) {
        Outcome::Html(h) => assert_eq!(h, "unsupported LaTeX"),
        _ => panic!("math blocks convert to markup"),
    }
}

#[test]
fn deep_nesting_is_not_converted() {
    let deep = "\\sqrt".repeat(65) + "x";
    assert!(!math_supported(&deep));
    assert_eq!(render_math(&deep, true), "unsupported LaTeX");
    let braces = "{".repeat(100);
    assert!(!math_supported(&braces));
    let shallow = "\\sqrt".repeat(64) + "x";
    assert!(math_supported(&shallow));
    assert!(render_math(&shallow, false).starts_with("<math"));
}

#[test]
fn ordinary_math_is_supported() {
    assert!(math_supported("x^2 + \\frac{a}{b}"));
    assert!(math_supported(""));
    assert!(math_supported("\\mid x"));
}

#[test]
fn conversion_errors_become_text() {
    let out = render_math("{x", false);
    assert!(!out.starts_with("<math"));
    assert!(!out.is_empty());
}
