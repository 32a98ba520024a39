//! Appending tokens to an output sequence, each step stated over values.
use vstd::prelude::*;
use crate::tokens::{extend_toks, group, ident, lemma_toks_view_push, punct, toks_view, Delim, STok, Tok};

verus! {

/// `::`, as two joined colons.
pub open spec fn path_sep() -> Seq<STok> {
    seq![STok::Punct(':', true), STok::Punct(':', false)]
}

/// A lone punctuation character.
pub open spec fn sp(c: char) -> STok {
    STok::Punct(c, false)
}

/// Appends one token.
pub fn push_tok(out: &mut Vec<Tok>, t: Tok)
    ensures
        toks_view(final(out)@) == toks_view(old(out)@).push(t@),
{
    let ghost before = out@;
    out.push(t);
    proof {
        lemma_toks_view_push(before, t);
    }
}

/// Appends the identifier `s`.
pub fn push_ident(out: &mut Vec<Tok>, s: &str)
    ensures
        toks_view(final(out)@) == toks_view(old(out)@).push(STok::Ident(s@)),
{
    push_tok(out, ident(s));
}

/// Appends a lone punctuation character.
pub fn push_punct(out: &mut Vec<Tok>, c: char)
    ensures
        toks_view(final(out)@) == toks_view(old(out)@).push(sp(c)),
{
    push_tok(out, punct(c, false));
}

/// Appends `::`.
pub fn push_path_sep(out: &mut Vec<Tok>)
    ensures
        toks_view(final(out)@) == toks_view(old(out)@) + path_sep(),
{
    let ghost before = toks_view(out@);
    push_tok(out, punct(':', true));
    push_tok(out, punct(':', false));
    proof {
        assert(before.push(STok::Punct(':', true)).push(STok::Punct(':', false)) =~= before
            + path_sep());
    }
}

/// Appends copies of all of `src`.
pub fn push_all(out: &mut Vec<Tok>, src: &Vec<Tok>)
    ensures
        toks_view(final(out)@) == toks_view(old(out)@) + toks_view(src@),
{
    proof {
        crate::tokens::lemma_toks_view(src@);
        assert(toks_view(src@).subrange(0, src@.len() as int) == toks_view(src@));
    }
    extend_toks(out, src, 0, src.len());
}

/// Appends a group delimited by `d` around `inner`.
pub fn push_group(out: &mut Vec<Tok>, d: Delim, inner: Vec<Tok>)
    ensures
        toks_view(final(out)@) == toks_view(old(out)@).push(STok::Group(d, toks_view(inner@))),
{
    push_tok(out, group(d, inner));
}

} // verus!
