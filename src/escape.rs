use vstd::prelude::*;

verus! {

/// Whether `c` is one of the four characters that HTML text must not hold raw.
pub open spec fn is_special(c: char) -> bool {
    c == '<' || c == '>' || c == '&' || c == '"'
}

/// The HTML text that stands for the single character `c`.
pub open spec fn escape_char(c: char) -> Seq<char> {
    if c == '<' {
        seq!['&', 'l', 't', ';']
    } else if c == '>' {
        seq!['&', 'g', 't', ';']
    } else if c == '&' {
        seq!['&', 'a', 'm', 'p', ';']
    } else if c == '"' {
        seq!['&', 'q', 'u', 'o', 't', ';']
    } else {
        seq![c]
    }
}

/// `s` with each of the four special characters replaced by its entity.
#[verifier::opaque]
pub open spec fn escape(s: Seq<char>) -> Seq<char>
    decreases s.len(),
{
    if s.len() == 0 {
        Seq::empty()
    } else {
        escape(s.drop_last()) + escape_char(s.last())
    }
}

/// Write `part` into `s`, escaping the special HTML characters.
pub fn write_escaped(s: &mut String, part: &str)
    ensures
        final(s)@ == old(s)@ + escape(part@),
{
    let n = part.unicode_len();
    let mut i: usize = 0;
    proof {
        reveal(escape);
        assert(part@.subrange(0, 0) =~= Seq::<char>::empty());
    }
    while i < n
        invariant
            n == part@.len(),
            i <= n,
            s@ == old(s)@ + escape(part@.subrange(0, i as int)),
        decreases n - i,
    {
        let c = part.get_char(i);
        proof {
            reveal_strlit("&lt;");
            reveal_strlit("&gt;");
            reveal_strlit("&amp;");
            reveal_strlit("&quot;");
        }
        if c == '<' {
            s.append("&lt;");
        } else if c == '>' {
            s.append("&gt;");
        } else if c == '&' {
            s.append("&amp;");
        } else if c == '"' {
            s.append("&quot;");
        } else {
            s.append(part.substring_char(i, i + 1));
        }
        proof {
            let pre = part@.subrange(0, i as int);
            let post = part@.subrange(0, i + 1);
            assert(post.drop_last() =~= pre);
            assert(post.last() == c);
            reveal(escape);
            assert(s@ =~= old(s)@ + escape(post));
        }
        i = i + 1;
    }
    proof {
        assert(part@.subrange(0, n as int) =~= part@);
    }
}

/// `s` with the four entities decoded, read from the front.
pub open spec fn unescape(s: Seq<char>) -> Seq<char>
    decreases s.len(),
{
    if s.len() == 0 {
        Seq::empty()
    } else if s.len() >= 4 && s.subrange(0, 4) == seq!['&', 'l', 't', ';'] {
        seq!['<'] + unescape(s.subrange(4, s.len() as int))
    } else if s.len() >= 4 && s.subrange(0, 4) == seq!['&', 'g', 't', ';'] {
        seq!['>'] + unescape(s.subrange(4, s.len() as int))
    } else if s.len() >= 5 && s.subrange(0, 5) == seq!['&', 'a', 'm', 'p', ';'] {
        seq!['&'] + unescape(s.subrange(5, s.len() as int))
    } else if s.len() >= 6 && s.subrange(0, 6) == seq!['&', 'q', 'u', 'o', 't', ';'] {
        seq!['"'] + unescape(s.subrange(6, s.len() as int))
    } else {
        seq![s[0]] + unescape(s.drop_first())
    }
}

/// Escaping distributes over concatenation.
pub proof fn lemma_escape_concat(a: Seq<char>, b: Seq<char>)
    ensures
        escape(a + b) == escape(a) + escape(b),
    decreases b.len(),
{
    reveal(escape);
    if b.len() == 0 {
        assert(a + b =~= a);
        assert(escape(a) + escape(b) =~= escape(a));
    } else {
        lemma_escape_concat(a, b.drop_last());
        assert((a + b).drop_last() =~= a + b.drop_last());
        assert((a + b).last() == b.last());
        assert(escape(a + b) =~= escape(a) + escape(b));
    }
}

proof fn lemma_escape_front(s: Seq<char>)
    requires
        s.len() > 0,
    ensures
        escape(s) == escape_char(s[0]) + escape(s.drop_first()),
{
    reveal(escape);
    lemma_escape_concat(seq![s[0]], s.drop_first());
    assert(seq![s[0]] + s.drop_first() =~= s);
    assert(seq![s[0]].drop_last() =~= Seq::<char>::empty());
    assert(escape(Seq::<char>::empty()) == Seq::<char>::empty());
    assert(seq![s[0]].last() == s[0]);
    assert(escape(seq![s[0]]) =~= escape_char(s[0]));
}

proof fn lemma_unescape_prefix(c: char, rest: Seq<char>)
    ensures
        unescape(escape_char(c) + escape(rest)) == seq![c] + unescape(escape(rest)),
{
    let e = escape_char(c);
    let t = e + escape(rest);
    assert(t.subrange(e.len() as int, t.len() as int) =~= escape(rest));
    if c == '<' || c == '>' {
        assert(t.subrange(0, 4) =~= e);
    } else if c == '&' {
        assert(t.subrange(0, 5) =~= e);
        assert(t.subrange(0, 4) != seq!['&', 'l', 't', ';']) by {
            assert(t.subrange(0, 4)[1] == 'a');
        }
        assert(t.subrange(0, 4) != seq!['&', 'g', 't', ';']) by {
            assert(t.subrange(0, 4)[1] == 'a');
        }
    } else if c == '"' {
        assert(t.subrange(0, 6) =~= e);
        assert(t.subrange(0, 4) != seq!['&', 'l', 't', ';']) by {
            assert(t.subrange(0, 4)[1] == 'q');
        }
        assert(t.subrange(0, 4) != seq!['&', 'g', 't', ';']) by {
            assert(t.subrange(0, 4)[1] == 'q');
        }
        assert(t.subrange(0, 5) != seq!['&', 'a', 'm', 'p', ';']) by {
            assert(t.subrange(0, 5)[1] == 'q');
        }
    } else {
        assert(t[0] == c);
        if t.len() >= 4 {
            assert(t.subrange(0, 4)[0] == c);
        }
        if t.len() >= 5 {
            assert(t.subrange(0, 5)[0] == c);
        }
        if t.len() >= 6 {
            assert(t.subrange(0, 6)[0] == c);
        }
        assert(t.drop_first() =~= escape(rest));
    }
}

/// Decoding the four entities recovers what was escaped.
pub proof fn lemma_unescape_escape(s: Seq<char>)
    ensures
        unescape(escape(s)) == s,
    decreases s.len(),
{
    if s.len() == 0 {
        reveal(escape);
    } else {
        lemma_escape_front(s);
        lemma_unescape_escape(s.drop_first());
        lemma_unescape_prefix(s[0], s.drop_first());
        assert(seq![s[0]] + s.drop_first() =~= s);
    }
}

/// Escaped text holds no raw `<`, `>` or `"`, and each `&` in it starts one
/// of the four entities.
pub proof fn lemma_escape_clean(s: Seq<char>)
    ensures
        forall|i: int|
            0 <= i < escape(s).len() ==> #[trigger] escape(s)[i] != '<' && escape(s)[i] != '>'
                && escape(s)[i] != '"',
        forall|i: int|
            0 <= i < escape(s).len() && #[trigger] escape(s)[i] == '&' ==> {
                let t = escape(s).subrange(i, escape(s).len() as int);
                ||| (t.len() >= 4 && t.subrange(0, 4) == seq!['&', 'l', 't', ';'])
                ||| (t.len() >= 4 && t.subrange(0, 4) == seq!['&', 'g', 't', ';'])
                ||| (t.len() >= 5 && t.subrange(0, 5) == seq!['&', 'a', 'm', 'p', ';'])
                ||| (t.len() >= 6 && t.subrange(0, 6) == seq!['&', 'q', 'u', 'o', 't', ';'])
            },
    decreases s.len(),
{
    reveal(escape);
    if s.len() > 0 {
        let p = s.drop_last();
        lemma_escape_clean(p);
        let e = escape_char(s.last());
        let out = escape(s);
        assert(out == escape(p) + e);
        assert forall|i: int| 0 <= i < out.len() implies #[trigger] out[i] != '<' && out[i] != '>'
            && out[i] != '"' by {
            if i < escape(p).len() {
                assert(out[i] == escape(p)[i]);
            } else {
                assert(out[i] == e[i - escape(p).len()]);
            }
        }
        assert forall|i: int| 0 <= i < out.len() && #[trigger] out[i] == '&' implies {
            let t = out.subrange(i, out.len() as int);
            ||| (t.len() >= 4 && t.subrange(0, 4) == seq!['&', 'l', 't', ';'])
            ||| (t.len() >= 4 && t.subrange(0, 4) == seq!['&', 'g', 't', ';'])
            ||| (t.len() >= 5 && t.subrange(0, 5) == seq!['&', 'a', 'm', 'p', ';'])
            ||| (t.len() >= 6 && t.subrange(0, 6) == seq!['&', 'q', 'u', 'o', 't', ';'])
        } by {
            let n = escape(p).len() as int;
            let t = out.subrange(i, out.len() as int);
            if i < n {
                assert(escape(p)[i] == '&');
                let tp = escape(p).subrange(i, n);
                if tp.len() >= 4 && tp.subrange(0, 4) == seq!['&', 'l', 't', ';'] {
                    assert(t.subrange(0, 4) =~= tp.subrange(0, 4));
                } else if tp.len() >= 4 && tp.subrange(0, 4) == seq!['&', 'g', 't', ';'] {
                    assert(t.subrange(0, 4) =~= tp.subrange(0, 4));
                } else if tp.len() >= 5 && tp.subrange(0, 5) == seq!['&', 'a', 'm', 'p', ';'] {
                    assert(t.subrange(0, 5) =~= tp.subrange(0, 5));
                } else {
                    assert(t.subrange(0, 6) =~= tp.subrange(0, 6));
                }
            } else {
                assert(out[i] == e[i - n]);
                assert(i == n);
                assert(t =~= e);
                assert(t.subrange(0, t.len() as int) =~= t);
            }
        }
    }
}

} // verus!
