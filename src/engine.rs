use vstd::prelude::*;

use crate::escape::{
    escape, lemma_escape_clean, lemma_escape_concat, lemma_unescape_escape, unescape, write_escaped,
};
use crate::kind::{close_tag, open_tag, push_close, push_open, tag_name, Kind};

verus! {

/// A type of token that can be highlighted.
pub trait Highlight: Sized + Copy {
    /// The kind of `cur`, given the token before it (`None` for the first one).
    spec fn spec_kind(prev: Option<Self>, cur: Self) -> Kind;

    /// Determine the kind of a token from the current and the previous token.
    fn kind(prev: Option<Self>, cur: Self) -> (k: Kind)
        ensures
            k == Self::spec_kind(prev, cur),
    ;
}

/// A token that carries its own kind, as a tokenizer that classifies while it
/// scans hands it over: the previous token does not change it.
impl Highlight for Kind {
    open spec fn spec_kind(prev: Option<Kind>, cur: Kind) -> Kind {
        cur
    }

    fn kind(prev: Option<Kind>, cur: Kind) -> (k: Kind) {
        cur
    }
}

/// A token as the tokenizer hands it over, with its span in characters.
#[derive(Clone, Copy, Debug)]
pub struct Lexeme<T> {
    pub token: T,
    pub start: usize,
    pub end: usize,
}

/// A classified token: its span in characters and the kind it is shown as.
#[derive(Clone, Copy, PartialEq, Eq, Debug, Structural)]
pub struct Span {
    pub kind: Kind,
    pub start: usize,
    pub end: usize,
}

/// One piece of highlighted output: markup, or source text that is escaped.
pub enum Mark {
    Open(Kind),
    Close(Kind),
    Text(Seq<char>),
}

/// The kind of the `i`-th token, classified from it and the token before it.
pub open spec fn window_kind<T: Highlight>(toks: Seq<Lexeme<T>>, i: int) -> Kind {
    if i == 0 {
        T::spec_kind(None, toks[0].token)
    } else {
        T::spec_kind(Some(toks[i - 1].token), toks[i].token)
    }
}

/// The tokens with their kinds: what the engine emits from.
pub open spec fn classified<T: Highlight>(toks: Seq<Lexeme<T>>) -> Seq<Span> {
    Seq::new(
        toks.len(),
        |i: int| Span { kind: window_kind(toks, i), start: toks[i].start, end: toks[i].end },
    )
}

/// Spans lie inside a source of `len` characters, in order, without overlap.
pub open spec fn spans_wf(len: nat, spans: Seq<Span>) -> bool {
    &&& forall|i: int| 0 <= i < spans.len() ==> (#[trigger] spans[i]).start <= spans[i].end && spans[i].end <= len
    &&& forall|i: int, j: int|
        0 <= i < j < spans.len() ==> (#[trigger] spans[i]).end <= (#[trigger] spans[j]).start
}

/// Lexemes lie inside a source of `len` characters, in order, without overlap.
pub open spec fn lexemes_wf<T>(len: nat, toks: Seq<Lexeme<T>>) -> bool {
    &&& forall|i: int| 0 <= i < toks.len() ==> (#[trigger] toks[i]).start <= toks[i].end && toks[i].end <= len
    &&& forall|i: int, j: int|
        0 <= i < j < toks.len() ==> (#[trigger] toks[i]).end <= (#[trigger] toks[j]).start
}

/// One token's step of the engine, from the marks so far, the open kind and
/// the position up to which source was emitted.
pub open spec fn run_step(src: Seq<char>, st: (Seq<Mark>, Kind, int), sp: Span) -> (Seq<Mark>, Kind, int) {
    let (ms, open, last) = st;
    if open != sp.kind {
        (
            ms.push(Mark::Close(open)).push(Mark::Text(src.subrange(last, sp.start as int))).push(
                Mark::Open(sp.kind),
            ).push(Mark::Text(src.subrange(sp.start as int, sp.end as int))),
            sp.kind,
            sp.end as int,
        )
    } else {
        (ms.push(Mark::Text(src.subrange(last, sp.end as int))), open, sp.end as int)
    }
}

/// What the engine has emitted after the first `n` spans: the marks, the kind
/// of the run that is open, and the position up to which source was emitted.
#[verifier::opaque]
pub open spec fn run_state(src: Seq<char>, spans: Seq<Span>, n: nat) -> (Seq<Mark>, Kind, int)
    decreases n,
{
    if n == 0 || n > spans.len() {
        (Seq::empty(), Kind::Plain, 0)
    } else {
        run_step(src, run_state(src, spans, (n - 1) as nat), spans[n - 1])
    }
}

proof fn lemma_run_state_step(src: Seq<char>, spans: Seq<Span>, n: nat)
    requires
        0 < n <= spans.len(),
    ensures
        run_state(src, spans, n) == run_step(src, run_state(src, spans, (n - 1) as nat), spans[n - 1]),
{
    reveal(run_state);
}

proof fn lemma_run_state_zero(src: Seq<char>, spans: Seq<Span>)
    ensures
        run_state(src, spans, 0) == (Seq::<Mark>::empty(), Kind::Plain, 0int),
{
    reveal(run_state);
}

/// All the marks emitted for `spans` over `src`, the last run closed.
pub open spec fn run_marks(src: Seq<char>, spans: Seq<Span>) -> Seq<Mark> {
    let (ms, open, _) = run_state(src, spans, spans.len());
    ms.push(Mark::Close(open))
}

/// The characters that a mark stands for in the output.
pub open spec fn mark_chars(m: Mark) -> Seq<char> {
    match m {
        Mark::Open(k) => open_tag(k),
        Mark::Close(k) => close_tag(k),
        Mark::Text(t) => escape(t),
    }
}

/// The output that a sequence of marks stands for.
#[verifier::opaque]
pub open spec fn flatten(ms: Seq<Mark>) -> Seq<char>
    decreases ms.len(),
{
    if ms.len() == 0 {
        Seq::empty()
    } else {
        flatten(ms.drop_last()) + mark_chars(ms.last())
    }
}

/// The highlighted HTML for `spans` over `src`.
pub open spec fn rendered(src: Seq<char>, spans: Seq<Span>) -> Seq<char> {
    flatten(run_marks(src, spans))
}

proof fn lemma_flatten_push(ms: Seq<Mark>, m: Mark)
    ensures
        flatten(ms.push(m)) == flatten(ms) + mark_chars(m),
{
    reveal(flatten);
    assert(ms.push(m).drop_last() =~= ms);
}

proof fn lemma_flatten_step(src: Seq<char>, st: (Seq<Mark>, Kind, int), sp: Span)
    ensures
        flatten(run_step(src, st, sp).0) == flatten(st.0) + (if st.1 != sp.kind {
            close_tag(st.1) + escape(src.subrange(st.2, sp.start as int)) + open_tag(sp.kind)
                + escape(src.subrange(sp.start as int, sp.end as int))
        } else {
            escape(src.subrange(st.2, sp.end as int))
        }),
{
    let (ms, open, last) = st;
    if open != sp.kind {
        let m1 = ms.push(Mark::Close(open));
        let m2 = m1.push(Mark::Text(src.subrange(last, sp.start as int)));
        let m3 = m2.push(Mark::Open(sp.kind));
        let m4 = m3.push(Mark::Text(src.subrange(sp.start as int, sp.end as int)));
        lemma_flatten_push(ms, Mark::Close(open));
        lemma_flatten_push(m1, Mark::Text(src.subrange(last, sp.start as int)));
        lemma_flatten_push(m2, Mark::Open(sp.kind));
        lemma_flatten_push(m3, Mark::Text(src.subrange(sp.start as int, sp.end as int)));
        assert(flatten(m4) =~= flatten(ms) + (close_tag(open) + escape(src.subrange(last, sp.start as int))
            + open_tag(sp.kind) + escape(src.subrange(sp.start as int, sp.end as int))));
    } else {
        lemma_flatten_push(ms, Mark::Text(src.subrange(last, sp.end as int)));
    }
}

/// Emit the highlighted HTML for the classified tokens `spans` over `source`.
///
/// Text between two tokens goes out with the later one: inside its run when
/// the kind does not change, else between the two runs. Text after the last
/// token is not emitted.
#[verifier::rlimit(40)]
pub fn emit(source: &str, spans: &Vec<Span>, buf: &mut String)
    requires
        spans_wf(source@.len(), spans@),
    ensures
        final(buf)@ == old(buf)@ + rendered(source@, spans@),
{
    let mut open = Kind::Plain;
    let mut last: usize = 0;
    let mut i: usize = 0;
    proof {
        lemma_run_state_zero(source@, spans@);
        reveal(flatten);
    }
    while i < spans.len()
        invariant
            spans_wf(source@.len(), spans@),
            i <= spans@.len(),
            run_state(source@, spans@, i as nat).1 == open,
            run_state(source@, spans@, i as nat).2 == last as int,
            last <= source@.len(),
            i > 0 ==> last == spans@[i - 1].end,
            i == 0 ==> last == 0,
            buf@ == old(buf)@ + flatten(run_state(source@, spans@, i as nat).0),
        decreases spans.len() - i,
    {
        let sp = spans[i];
        let ghost st = run_state(source@, spans@, i as nat);
        let ghost before = buf@;
        proof {
            lemma_run_state_step(source@, spans@, (i + 1) as nat);
            lemma_flatten_step(source@, st, sp);
        }
        if open != sp.kind {
            push_close(buf, open);
            write_escaped(buf, source.substring_char(last, sp.start));
            push_open(buf, sp.kind);
            write_escaped(buf, source.substring_char(sp.start, sp.end));
            assert(buf@ =~= before + (close_tag(open) + escape(source@.subrange(last as int, sp.start as int))
                + open_tag(sp.kind) + escape(source@.subrange(sp.start as int, sp.end as int))));
            open = sp.kind;
        } else {
            write_escaped(buf, source.substring_char(last, sp.end));
        }
        last = sp.end;
        i = i + 1;
    }
    push_close(buf, open);
    proof {
        lemma_flatten_push(run_state(source@, spans@, spans@.len()).0, Mark::Close(open));
        assert(buf@ =~= old(buf)@ + rendered(source@, spans@));
    }
}

/// Classifying keeps the spans: tokens in order give spans in order, so the
/// laws on emitted spans hold of what `highlight` emits.
pub proof fn lemma_classified_wf<T: Highlight>(len: nat, toks: Seq<Lexeme<T>>)
    requires
        lexemes_wf(len, toks),
    ensures
        spans_wf(len, classified(toks)),
{
    let spans = classified(toks);
    assert forall|i: int| 0 <= i < spans.len() implies (#[trigger] spans[i]).start <= spans[i].end
        && spans[i].end <= len by {
        assert(toks[i].start <= toks[i].end <= len);
    }
    assert forall|i: int, j: int| 0 <= i < j < spans.len() implies (#[trigger] spans[i]).end <= (
    #[trigger] spans[j]).start by {
        assert(toks[i].end <= toks[j].start);
    }
}

/// Classify each token from itself and the token before it.
pub fn classify<T: Highlight>(tokens: &Vec<Lexeme<T>>) -> (r: Vec<Span>)
    ensures
        r@ == classified(tokens@),
{
    let mut r: Vec<Span> = Vec::new();
    let mut window: [Option<T>; 2] = [None, None];
    let mut i: usize = 0;
    while i < tokens.len()
        invariant
            i <= tokens@.len(),
            r@ =~= classified(tokens@).subrange(0, i as int),
            i == 0 ==> window[1] is None && window[0] is None,
            i > 0 ==> window[1] == Some(tokens@[i - 1].token),
        decreases tokens.len() - i,
    {
        let cur = tokens[i].token;
        if window[1].is_some() {
            window[0] = window[1];
        }
        window[1] = Some(cur);
        let k = T::kind(window[0], cur);
        r.push(Span { kind: k, start: tokens[i].start, end: tokens[i].end });
        assert(r@[i as int] == classified(tokens@)[i as int]);
        i = i + 1;
    }
    r
}

/// Highlight the tokens of `source`, placing the output into `buf`.
pub fn highlight<T: Highlight>(source: &str, tokens: &Vec<Lexeme<T>>, buf: &mut String)
    requires
        lexemes_wf(source@.len(), tokens@),
    ensures
        final(buf)@ == old(buf)@ + rendered(source@, classified(tokens@)),
{
    let spans = classify(tokens);
    proof {
        lemma_classified_wf(source@.len(), tokens@);
    }
    emit(source, &spans, buf);
}

/// The source text that a mark carries.
pub open spec fn mark_text(m: Mark) -> Seq<char> {
    match m {
        Mark::Text(t) => t,
        _ => Seq::empty(),
    }
}

/// The source text that the marks carry, in order, markup left out.
#[verifier::opaque]
pub open spec fn texts(ms: Seq<Mark>) -> Seq<char>
    decreases ms.len(),
{
    if ms.len() == 0 {
        Seq::empty()
    } else {
        texts(ms.drop_last()) + mark_text(ms.last())
    }
}

/// The tag left open after `m`, from the one open before it (`Some(None)`:
/// none), or `None` where a tag opens inside another or closes one that is
/// not open.
pub open spec fn open_step(st: Option<Option<Kind>>, m: Mark) -> Option<Option<Kind>> {
    match st {
        None => None,
        Some(cur) => match m {
            Mark::Text(_) => Some(cur),
            Mark::Open(k) => if tag_name(k) is None {
                Some(cur)
            } else if cur is None {
                Some(Some(k))
            } else {
                None
            },
            Mark::Close(k) => if tag_name(k) is None {
                Some(cur)
            } else if cur == Some(k) {
                Some(None)
            } else {
                None
            },
        },
    }
}

/// The tag left open after the marks, as `open_step` tracks it.
#[verifier::opaque]
pub open spec fn open_after(ms: Seq<Mark>) -> Option<Option<Kind>>
    decreases ms.len(),
{
    if ms.len() == 0 {
        Some(None)
    } else {
        open_step(open_after(ms.drop_last()), ms.last())
    }
}

/// Every tag that the marks open is closed, before any other opens.
pub open spec fn balanced(ms: Seq<Mark>) -> bool {
    open_after(ms) == Some(None::<Kind>)
}

/// The position up to which the spans reach: the end of the last one.
pub open spec fn covered(spans: Seq<Span>) -> int {
    if spans.len() == 0 {
        0
    } else {
        spans.last().end as int
    }
}

/// The tag that is open while a run of `k` is.
pub open spec fn open_of(k: Kind) -> Option<Kind> {
    if tag_name(k) is None {
        None
    } else {
        Some(k)
    }
}

proof fn lemma_push_mark(ms: Seq<Mark>, m: Mark)
    ensures
        texts(ms.push(m)) == texts(ms) + mark_text(m),
        open_after(ms.push(m)) == open_step(open_after(ms), m),
{
    reveal(texts);
    reveal(open_after);
    assert(ms.push(m).drop_last() =~= ms);
}

proof fn lemma_run_state(src: Seq<char>, spans: Seq<Span>, n: nat)
    requires
        spans_wf(src.len(), spans),
        n <= spans.len(),
    ensures
        ({
            let (ms, open, last) = run_state(src, spans, n);
            &&& last == (if n == 0 { 0 } else { spans[n - 1].end as int })
            &&& 0 <= last <= src.len()
            &&& texts(ms) == src.subrange(0, last)
            &&& open_after(ms) == Some(open_of(open))
        }),
    decreases n,
{
    if n == 0 {
        lemma_run_state_zero(src, spans);
        reveal(texts);
        reveal(open_after);
        assert(src.subrange(0, 0) =~= Seq::<char>::empty());
    } else {
        lemma_run_state_step(src, spans, n);
        lemma_run_state(src, spans, (n - 1) as nat);
        let (ms, open, last) = run_state(src, spans, (n - 1) as nat);
        let sp = spans[n - 1];
        assert(sp.start <= sp.end <= src.len());
        if n > 1 {
            assert(spans[n - 2].end <= spans[n - 1].start);
        }
        if open != sp.kind {
            let m1 = ms.push(Mark::Close(open));
            let m2 = m1.push(Mark::Text(src.subrange(last, sp.start as int)));
            let m3 = m2.push(Mark::Open(sp.kind));
            let m4 = m3.push(Mark::Text(src.subrange(sp.start as int, sp.end as int)));
            lemma_push_mark(ms, Mark::Close(open));
            lemma_push_mark(m1, Mark::Text(src.subrange(last, sp.start as int)));
            lemma_push_mark(m2, Mark::Open(sp.kind));
            lemma_push_mark(m3, Mark::Text(src.subrange(sp.start as int, sp.end as int)));
            assert(texts(m4) =~= src.subrange(0, sp.end as int));
        } else {
            let m1 = ms.push(Mark::Text(src.subrange(last, sp.end as int)));
            lemma_push_mark(ms, Mark::Text(src.subrange(last, sp.end as int)));
            assert(texts(m1) =~= src.subrange(0, sp.end as int));
        }
    }
}

/// The runs partition the source: the text that the marks carry, in order,
/// is the source from its start to the end of the last token.
pub proof fn lemma_partition(src: Seq<char>, spans: Seq<Span>)
    requires
        spans_wf(src.len(), spans),
    ensures
        texts(run_marks(src, spans)) == src.subrange(0, covered(spans)),
{
    lemma_run_state(src, spans, spans.len());
    let (ms, open, _) = run_state(src, spans, spans.len());
    lemma_push_mark(ms, Mark::Close(open));
    assert(texts(run_marks(src, spans)) =~= texts(ms));
    if spans.len() > 0 {
        assert(spans.last() == spans[spans.len() - 1]);
    }
}

/// The output is well nested: every tag that opens is closed, and no tag
/// opens while another is open.
pub proof fn lemma_balanced(src: Seq<char>, spans: Seq<Span>)
    requires
        spans_wf(src.len(), spans),
    ensures
        balanced(run_marks(src, spans)),
{
    lemma_run_state(src, spans, spans.len());
    let (ms, open, _) = run_state(src, spans, spans.len());
    lemma_push_mark(ms, Mark::Close(open));
}

/// A token's kind is decided by that token and the one before it alone: two
/// token sequences that agree there classify it alike.
pub proof fn lemma_window_locality<T: Highlight>(
    a: Seq<Lexeme<T>>,
    b: Seq<Lexeme<T>>,
    i: int,
    j: int,
)
    requires
        0 <= i < a.len(),
        0 <= j < b.len(),
        a[i].token == b[j].token,
        (i == 0 && j == 0) || (i > 0 && j > 0 && a[i - 1].token == b[j - 1].token),
    ensures
        classified(a)[i].kind == classified(b)[j].kind,
{
}

/// The output characters that are not markup: each text mark as escaped.
#[verifier::opaque]
pub open spec fn text_chars(ms: Seq<Mark>) -> Seq<char>
    decreases ms.len(),
{
    if ms.len() == 0 {
        Seq::empty()
    } else {
        text_chars(ms.drop_last()) + escape(mark_text(ms.last()))
    }
}

proof fn lemma_text_chars(ms: Seq<Mark>)
    ensures
        text_chars(ms) == escape(texts(ms)),
    decreases ms.len(),
{
    reveal(text_chars);
    reveal(texts);
    if ms.len() == 0 {
        reveal(escape);
    } else {
        lemma_text_chars(ms.drop_last());
        lemma_escape_concat(texts(ms.drop_last()), mark_text(ms.last()));
    }
}

/// Outside its markup the output is the covered source, escaped: it holds no
/// raw `<`, `>` or `"`, and decoding the four entities gives the source back.
pub proof fn lemma_escaped_output(src: Seq<char>, spans: Seq<Span>)
    requires
        spans_wf(src.len(), spans),
    ensures
        text_chars(run_marks(src, spans)) == escape(src.subrange(0, covered(spans))),
        unescape(text_chars(run_marks(src, spans))) == src.subrange(0, covered(spans)),
        forall|i: int|
            0 <= i < text_chars(run_marks(src, spans)).len() ==> #[trigger] text_chars(
                run_marks(src, spans),
            )[i] != '<' && text_chars(run_marks(src, spans))[i] != '>' && text_chars(
                run_marks(src, spans),
            )[i] != '"',
{
    let covered_src = src.subrange(0, covered(spans));
    lemma_partition(src, spans);
    lemma_text_chars(run_marks(src, spans));
    lemma_unescape_escape(covered_src);
    lemma_escape_clean(covered_src);
}

} // verus!
