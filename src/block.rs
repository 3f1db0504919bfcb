use vstd::prelude::*;

use crate::engine::{classified, highlight, lexemes_wf, rendered, Highlight, Lexeme};
use crate::escape::{escape, write_escaped};

verus! {

/// What a fence's language tag selects.
#[derive(Clone, Copy, PartialEq, Eq, Debug, Structural)]
pub enum Language {
    Rust,
    JavaScript,
    Toml,
    Sh,
    /// Inline math, converted to MathML.
    Math,
    /// Display math, converted to MathML.
    MathBlock,
    /// Any other tag: the code is shown escaped, without highlighting.
    Plain,
}

/// The language that `tag` selects; matching is exact and case-sensitive.
pub open spec fn language_spec(tag: Seq<char>) -> Language {
    if tag == seq!['r', 'u', 's', 't'] || tag == seq!['r', 's'] {
        Language::Rust
    } else if tag == seq!['j', 's'] || tag == seq![
        'j',
        'a',
        'v',
        'a',
        's',
        'c',
        'r',
        'i',
        'p',
        't',
    ] {
        Language::JavaScript
    } else if tag == seq!['t', 'o', 'm', 'l'] {
        Language::Toml
    } else if tag == seq!['s', 'h'] || tag == seq!['s', 'h', 'e', 'l', 'l'] || tag == seq![
        'b',
        'a',
        's',
        'h',
    ] {
        Language::Sh
    } else if tag == seq!['m', 'a', 't', 'h'] {
        Language::Math
    } else if tag == seq!['m', 'a', 't', 'h', 'b', 'l', 'o', 'c', 'k'] {
        Language::MathBlock
    } else {
        Language::Plain
    }
}

/// Whether `a` and `b` hold the same characters.
fn same_text(a: &str, b: &str) -> (r: bool)
    ensures
        r == (a@ == b@),
{
    let n = a.unicode_len();
    let m = b.unicode_len();
    if n != m {
        return false;
    }
    let mut i: usize = 0;
    while i < n
        invariant
            n == a@.len(),
            m == b@.len(),
            n == m,
            i <= n,
            a@.subrange(0, i as int) == b@.subrange(0, i as int),
        decreases n - i,
    {
        if a.get_char(i) != b.get_char(i) {
            assert(a@[i as int] != b@[i as int]);
            return false;
        }
        assert(a@.subrange(0, i + 1) =~= a@.subrange(0, i as int).push(a@[i as int]));
        assert(b@.subrange(0, i + 1) =~= b@.subrange(0, i as int).push(b@[i as int]));
        i = i + 1;
    }
    assert(a@ =~= a@.subrange(0, n as int));
    assert(b@ =~= b@.subrange(0, n as int));
    true
}

/// The language that a fence's tag selects.
pub fn language_of(tag: &str) -> (r: Language)
    ensures
        r == language_spec(tag@),
{
    proof {
        reveal_strlit("rust");
        reveal_strlit("rs");
        reveal_strlit("js");
        reveal_strlit("javascript");
        reveal_strlit("toml");
        reveal_strlit("sh");
        reveal_strlit("shell");
        reveal_strlit("bash");
        reveal_strlit("math");
        reveal_strlit("mathblock");
        assert("rust"@ =~= seq!['r', 'u', 's', 't']);
        assert("rs"@ =~= seq!['r', 's']);
        assert("js"@ =~= seq!['j', 's']);
        assert("javascript"@ =~= seq!['j', 'a', 'v', 'a', 's', 'c', 'r', 'i', 'p', 't']);
        assert("toml"@ =~= seq!['t', 'o', 'm', 'l']);
        assert("sh"@ =~= seq!['s', 'h']);
        assert("shell"@ =~= seq!['s', 'h', 'e', 'l', 'l']);
        assert("bash"@ =~= seq!['b', 'a', 's', 'h']);
        assert("math"@ =~= seq!['m', 'a', 't', 'h']);
        assert("mathblock"@ =~= seq!['m', 'a', 't', 'h', 'b', 'l', 'o', 'c', 'k']);
    }
    if same_text(tag, "rust") || same_text(tag, "rs") {
        Language::Rust
    } else if same_text(tag, "js") || same_text(tag, "javascript") {
        Language::JavaScript
    } else if same_text(tag, "toml") {
        Language::Toml
    } else if same_text(tag, "sh") || same_text(tag, "shell") || same_text(tag, "bash") {
        Language::Sh
    } else if same_text(tag, "math") {
        Language::Math
    } else if same_text(tag, "mathblock") {
        Language::MathBlock
    } else {
        Language::Plain
    }
}

/// The markup that opens the container of a code block tagged `tag`.
pub open spec fn code_open(tag: Seq<char>) -> Seq<char> {
    seq!['<', 'p', 'r', 'e', '>', '<', 'c', 'o', 'd', 'e', ' ', 'c', 'l', 'a', 's', 's', '=', '"']
        + seq!['l', 'a', 'n', 'g', 'u', 'a', 'g', 'e', '-'] + tag + seq!['"', '>']
}

/// The markup that closes the container of a code block.
pub open spec fn code_close() -> Seq<char> {
    seq!['<', '/', 'c', 'o', 'd', 'e', '>', '<', '/', 'p', 'r', 'e', '>']
}

fn open_container(tag: &str) -> (r: String)
    ensures
        r@ == code_open(tag@),
{
    proof {
        reveal_strlit("<pre><code class=\"language-");
        reveal_strlit("\">");
    }
    let mut html = String::new();
    html.append("<pre><code class=\"language-");
    html.append(tag);
    html.append("\">");
    assert(html@ =~= code_open(tag@));
    html
}

fn close_container(html: &mut String)
    ensures
        final(html)@ == old(html)@ + code_close(),
{
    proof {
        reveal_strlit("</code></pre>");
    }
    html.append("</code></pre>");
    assert(html@ =~= old(html)@ + code_close());
}

/// A code block shown without highlighting: its text escaped in the container.
pub fn render_fenced(tag: &str, code: &str) -> (r: String)
    ensures
        r@ == code_open(tag@) + escape(code@) + code_close(),
{
    let mut html = open_container(tag);
    write_escaped(&mut html, code);
    close_container(&mut html);
    html
}

/// A code block highlighted from the tokens of its text.
pub fn highlight_block<T: Highlight>(tag: &str, code: &str, tokens: &Vec<Lexeme<T>>) -> (r: String)
    requires
        lexemes_wf(code@.len(), tokens@),
    ensures
        r@ == code_open(tag@) + rendered(code@, classified(tokens@)) + code_close(),
{
    let mut html = open_container(tag);
    highlight(code, tokens, &mut html);
    close_container(&mut html);
    html
}

/// Whether `c` can open a level of nesting in LaTeX: a command, a group, a
/// sub- or superscript, or an optional argument.
pub open spec fn opens_level(c: char) -> bool {
    c == '\\' || c == '{' || c == '_' || c == '^' || c == '['
}

/// How many characters of `s` can open a level of nesting.
pub open spec fn level_count(s: Seq<char>) -> nat
    decreases s.len(),
{
    if s.len() == 0 {
        0
    } else {
        level_count(s.drop_last()) + if opens_level(s.last()) {
            1nat
        } else {
            0nat
        }
    }
}

/// The command `\middle`.
pub open spec fn middle_command() -> Seq<char> {
    seq!['\\', 'm', 'i', 'd', 'd', 'l', 'e']
}

/// Whether `\middle` occurs in `s` at position `i`.
pub open spec fn middle_at(s: Seq<char>, i: int) -> bool {
    0 <= i && i + 7 <= s.len() && s.subrange(i, i + 7) == middle_command()
}

/// The most characters that open a level of nesting in math that is converted.
pub const MAX_MATH_LEVELS: usize = 64;

/// LaTeX that the converter takes: no `\middle`, on which it stops the
/// program, and few enough nesting characters that its recursion stays shallow.
pub open spec fn math_supported_spec(s: Seq<char>) -> bool {
    &&& forall|i: int| !#[trigger] middle_at(s, i)
    &&& level_count(s) <= MAX_MATH_LEVELS
}

/// Test whether the converter takes `latex`.
pub fn math_supported(latex: &str) -> (r: bool)
    ensures
        r == math_supported_spec(latex@),
{
    let n = latex.unicode_len();
    let mut count: usize = 0;
    let mut i: usize = 0;
    while i < n
        invariant
            n == latex@.len(),
            i <= n,
            count == level_count(latex@.subrange(0, i as int)),
            count <= MAX_MATH_LEVELS,
            forall|j: int| j < i ==> !#[trigger] middle_at(latex@, j),
        decreases n - i,
    {
        proof {
            reveal_strlit("\\middle");
            assert("\\middle"@ =~= middle_command());
        }
        if n - i >= 7 {
            let window = latex.substring_char(i, i + 7);
            if same_text(window, "\\middle") {
                assert(middle_at(latex@, i as int));
                return false;
            }
        }
        assert(!middle_at(latex@, i as int));
        let c = latex.get_char(i);
        assert(latex@.subrange(0, i + 1).drop_last() =~= latex@.subrange(0, i as int));
        if c == '\\' || c == '{' || c == '_' || c == '^' || c == '[' {
            if count == MAX_MATH_LEVELS {
                proof {
                    lemma_level_count_prefix(latex@, i + 1);
                }
                return false;
            }
            count = count + 1;
        }
        i = i + 1;
    }
    proof {
        assert(latex@.subrange(0, n as int) =~= latex@);
        assert forall|j: int| !#[trigger] middle_at(latex@, j) by {
            if j >= n {
                assert(!middle_at(latex@, j));
            }
        }
    }
    true
}

proof fn lemma_level_count_prefix(s: Seq<char>, k: int)
    requires
        0 <= k <= s.len(),
    ensures
        level_count(s.subrange(0, k)) <= level_count(s),
    decreases s.len() - k,
{
    if k < s.len() {
        lemma_level_count_prefix(s, k + 1);
        assert(s.subrange(0, k + 1).drop_last() =~= s.subrange(0, k));
    } else {
        assert(s.subrange(0, k) =~= s);
    }
}

/// What latex2mathml makes of `latex` in inline (`block` false) or display
/// style: the MathML, or the text of the error that it reports.
pub uninterp spec fn mathml_of(latex: Seq<char>, block: bool) -> Result<Seq<char>, Seq<char>>;

/// Relies on latex2mathml::latex_to_mathml, with the error's `Display` text:
/// the outcome depends on the LaTeX text and the style alone. It returns on
/// the LaTeX that `math_supported_spec` admits.
#[verifier::external_body]
fn latex_to_mathml(latex: &str, block: bool) -> (r: Result<String, String>)
    requires
        math_supported_spec(latex@),
    ensures
        match r {
            Ok(m) => mathml_of(latex@, block) == Ok::<Seq<char>, Seq<char>>(m@),
            Err(e) => mathml_of(latex@, block) == Err::<Seq<char>, Seq<char>>(e@),
        },
{
    let style = if block {
        latex2mathml::DisplayStyle::Block
    } else {
        latex2mathml::DisplayStyle::Inline
    };
    match latex2mathml::latex_to_mathml(latex, style) {
        Ok(m) => Ok(m),
        Err(e) => Err(e.to_string()),
    }
}

/// The text shown in place of math that the converter does not take.
pub open spec fn unsupported_math() -> Seq<char> {
    seq!['u', 'n', 's', 'u', 'p', 'p', 'o', 'r', 't', 'e', 'd', ' ', 'L', 'a', 'T', 'e', 'X']
}

/// The markup shown for a math block: the MathML, or else the text of the
/// error, or of the refusal where the converter does not take the text.
pub open spec fn math_markup(latex: Seq<char>, block: bool) -> Seq<char> {
    if !math_supported_spec(latex) {
        unsupported_math()
    } else {
        match mathml_of(latex, block) {
            Ok(m) => m,
            Err(e) => e,
        }
    }
}

/// Convert LaTeX to MathML; on failure the error's text stands in its place.
pub fn render_math(latex: &str, block: bool) -> (r: String)
    ensures
        r@ == math_markup(latex@, block),
{
    if !math_supported(latex) {
        proof {
            reveal_strlit("unsupported LaTeX");
            assert("unsupported LaTeX"@ =~= unsupported_math());
        }
        return String::from_str("unsupported LaTeX");
    }
    match latex_to_mathml(latex, block) {
        Ok(m) => m,
        Err(e) => e,
    }
}

/// An event that follows the start of a fenced code block, as far as the
/// interceptor tells events apart.
#[derive(Clone, Debug)]
pub enum Piece {
    /// A text payload.
    Text(String),
    /// The end of a code block.
    CodeEnd,
    /// Any other event.
    Other,
}

/// What becomes of a fenced code block.
#[derive(Clone, Debug)]
pub enum Outcome {
    /// Raw markup to emit in place of the block.
    Html(String),
    /// The code text, to be tokenized as the language and then highlighted.
    Tokenize(Language, String),
    /// The events after the start were not a text payload and a block end.
    Unexpected,
}

/// The code text of a block whose start is followed by `first` and `second`,
/// where those are a text payload and a block end.
pub open spec fn block_code(first: Option<Piece>, second: Option<Piece>) -> Option<Seq<char>> {
    match (first, second) {
        (Some(Piece::Text(t)), Some(Piece::CodeEnd)) => Some(t@),
        _ => None,
    }
}

/// Decide what a fenced code block tagged `tag` becomes, from the two events
/// that follow its start (`None` where the stream ended).
pub fn intercept(tag: &str, first: &Option<Piece>, second: &Option<Piece>) -> (r: Outcome)
    ensures
        match block_code(*first, *second) {
            None => r is Unexpected,
            Some(code) => match language_spec(tag@) {
                Language::Math => r matches Outcome::Html(h) && h@ == math_markup(code, false),
                Language::MathBlock => r matches Outcome::Html(h) && h@ == math_markup(code, true),
                Language::Plain => r matches Outcome::Html(h) && h@ == code_open(tag@) + escape(
                    code,
                ) + code_close(),
                lang => r matches Outcome::Tokenize(l, c) && l == lang && c@ == code,
            },
        },
{
    let code: &String = match (first, second) {
        (Some(Piece::Text(t)), Some(Piece::CodeEnd)) => t,
        _ => {
            return Outcome::Unexpected;
        },
    };
    let lang = language_of(tag);
    match lang {
        Language::Math => Outcome::Html(render_math(code.as_str(), false)),
        Language::MathBlock => Outcome::Html(render_math(code.as_str(), true)),
        Language::Plain => Outcome::Html(render_fenced(tag, code.as_str())),
        _ => Outcome::Tokenize(lang, code.clone()),
    }
}

} // verus!
