use vstd::prelude::*;

verus! {

/// Possible kind of a token in the highlighted syntax.
#[derive(Clone, Copy, PartialEq, Eq, Debug, Structural)]
pub enum Kind {
    /// Not contained in any tags.
    Plain,
    /// Rendered among `u` tags.
    Glyph,
    /// Rendered among `span` tags.
    Literal,
    /// Rendered among `var` tags.
    Identifier,
    /// Rendered among `em` tags.
    SpecialIdentifier,
    /// Rendered among `strong` tags.
    StrongIdentifier,
    /// Rendered among `b` tags.
    Keyword,
    /// Rendered among `i` tags.
    Comment,
}

/// The name of the inline tag that wraps a run of the given kind.
pub open spec fn tag_name(k: Kind) -> Option<Seq<char>> {
    match k {
        Kind::Plain => None,
        Kind::Glyph => Some(seq!['u']),
        Kind::Literal => Some(seq!['s', 'p', 'a', 'n']),
        Kind::Identifier => Some(seq!['v', 'a', 'r']),
        Kind::SpecialIdentifier => Some(seq!['e', 'm']),
        Kind::StrongIdentifier => Some(seq!['s', 't', 'r', 'o', 'n', 'g']),
        Kind::Keyword => Some(seq!['b']),
        Kind::Comment => Some(seq!['i']),
    }
}

/// The markup that opens a run of the given kind (nothing for `Kind::Plain`).
pub open spec fn open_tag(k: Kind) -> Seq<char> {
    match tag_name(k) {
        Some(t) => seq!['<'] + t + seq!['>'],
        None => Seq::empty(),
    }
}

/// The markup that closes a run of the given kind (nothing for `Kind::Plain`).
pub open spec fn close_tag(k: Kind) -> Seq<char> {
    match tag_name(k) {
        Some(t) => seq!['<', '/'] + t + seq!['>'],
        None => Seq::empty(),
    }
}

impl Kind {
    /// The tag name of this kind, if runs of it are wrapped at all.
    pub fn tag(self) -> (r: Option<&'static str>)
        ensures
            match tag_name(self) {
                Some(t) => r is Some && r->0@ == t,
                None => r is None,
            },
    {
        match self {
            Kind::Plain => None,
            Kind::Glyph => {
                proof { reveal_strlit("u"); }
                Some("u")
            },
            Kind::Literal => {
                proof { reveal_strlit("span"); }
                Some("span")
            },
            Kind::Identifier => {
                proof { reveal_strlit("var"); }
                Some("var")
            },
            Kind::SpecialIdentifier => {
                proof { reveal_strlit("em"); }
                Some("em")
            },
            Kind::StrongIdentifier => {
                proof { reveal_strlit("strong"); }
                Some("strong")
            },
            Kind::Keyword => {
                proof { reveal_strlit("b"); }
                Some("b")
            },
            Kind::Comment => {
                proof { reveal_strlit("i"); }
                Some("i")
            },
        }
    }
}

/// Appends the opening markup of `k` to `buf`.
pub fn push_open(buf: &mut String, k: Kind)
    ensures
        final(buf)@ == old(buf)@ + open_tag(k),
{
    if let Some(t) = k.tag() {
        proof { reveal_strlit("<"); reveal_strlit(">"); }
        buf.append("<");
        buf.append(t);
        buf.append(">");
        assert(buf@ =~= old(buf)@ + open_tag(k));
    } else {
        assert(buf@ =~= old(buf)@ + open_tag(k));
    }
}

/// Appends the closing markup of `k` to `buf`.
pub fn push_close(buf: &mut String, k: Kind)
    ensures
        final(buf)@ == old(buf)@ + close_tag(k),
{
    if let Some(t) = k.tag() {
        proof { reveal_strlit("</"); reveal_strlit(">"); }
        buf.append("</");
        buf.append(t);
        buf.append(">");
        assert(buf@ =~= old(buf)@ + close_tag(k));
    } else {
        assert(buf@ =~= old(buf)@ + close_tag(k));
    }
}

} // verus!
