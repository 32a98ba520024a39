//! Token trees as plain values, and the operations the derives need on them.
use vstd::prelude::*;
use vstd::string::StringExecFns;

verus! {

/// The delimiter of a token group.
#[derive(Clone, Copy, PartialEq, Eq, Debug, Structural)]
pub enum Delim {
    Paren,
    Bracket,
    Brace,
    Invisible,
}

/// One token tree: an identifier, a punctuation character (with whether it is
/// joined to the next one), a literal as written, or a delimited group.
pub enum Tok {
    Ident(String),
    Punct(char, bool),
    Lit(String),
    Group(Delim, Vec<Tok>),
}

/// The mathematical value of a token tree.
pub enum STok {
    Ident(Seq<char>),
    Punct(char, bool),
    Lit(Seq<char>),
    Group(Delim, Seq<STok>),
}

/// The value of one token tree.
pub open spec fn tok_view(t: Tok) -> STok
    decreases t,
{
    match t {
        Tok::Ident(s) => STok::Ident(s@),
        Tok::Punct(c, j) => STok::Punct(c, j),
        Tok::Lit(s) => STok::Lit(s@),
        Tok::Group(d, v) => {
            proof {
                broadcast use vstd::std_specs::vec::axiom_vec_decreases_to_view;
                assert(decreases_to!(v => v@));
            }
            STok::Group(d, toks_view(v@))
        },
    }
}

/// The value of a sequence of token trees, element by element.
pub open spec fn toks_view(s: Seq<Tok>) -> Seq<STok>
    decreases s,
{
    if s.len() == 0 {
        Seq::empty()
    } else {
        toks_view(s.subrange(0, s.len() - 1)).push(tok_view(s[s.len() - 1]))
    }
}

impl View for Tok {
    type V = STok;

    open spec fn view(&self) -> STok {
        tok_view(*self)
    }
}

/// `toks_view` maps each element by `tok_view`.
pub proof fn lemma_toks_view(s: Seq<Tok>)
    ensures
        toks_view(s).len() == s.len(),
        forall|i: int| 0 <= i < s.len() ==> #[trigger] toks_view(s)[i] == tok_view(s[i]),
    decreases s.len(),
{
    if s.len() > 0 {
        lemma_toks_view(s.subrange(0, s.len() - 1));
    }
}

/// `toks_view` of a pushed sequence.
pub proof fn lemma_toks_view_push(s: Seq<Tok>, t: Tok)
    ensures
        toks_view(s.push(t)) == toks_view(s).push(tok_view(t)),
{
    assert(s.push(t).subrange(0, s.len() as int) == s);
}

/// A copy of a token tree with the same value.
pub fn clone_tok(t: &Tok) -> (r: Tok)
    ensures
        r@ == t@,
    decreases t,
{
    match t {
        Tok::Ident(s) => Tok::Ident(s.clone()),
        Tok::Punct(c, j) => Tok::Punct(*c, *j),
        Tok::Lit(s) => Tok::Lit(s.clone()),
        Tok::Group(d, v) => {
            let mut out: Vec<Tok> = Vec::new();
            let mut i: usize = 0;
            while i < v.len()
                invariant
                    i <= v.len(),
                    *t == Tok::Group(*d, *v),
                    toks_view(out@) == toks_view(v@.subrange(0, i as int)),
                decreases v.len() - i,
            {
                proof {
                    broadcast use vstd::std_specs::vec::axiom_vec_index_decreases;

                    assert(decreases_to!(*t => (*t)->Group_1));
                    assert(decreases_to!(*v => v[i as int]));
                }
                let c = clone_tok(&v[i]);
                let ghost before = out@;
                out.push(c);
                proof {
                    lemma_toks_view_push(before, c);
                    assert(v@.subrange(0, i + 1).subrange(0, i as int) == v@.subrange(0, i as int));
                }
                i = i + 1;
            }
            proof {
                assert(v@.subrange(0, v@.len() as int) == v@);
            }
            Tok::Group(*d, out)
        },
    }
}

/// Appends copies of `src[lo..hi]` to `out`.
pub fn extend_toks(out: &mut Vec<Tok>, src: &Vec<Tok>, lo: usize, hi: usize)
    requires
        lo <= hi <= src.len(),
    ensures
        toks_view(final(out)@) == toks_view(old(out)@) + toks_view(src@).subrange(lo as int, hi as int),
{
    let ghost start = out@;
    let mut i: usize = lo;
    proof {
        lemma_toks_view(src@);
        assert(toks_view(start) + toks_view(src@).subrange(lo as int, lo as int) == toks_view(start));
    }
    while i < hi
        invariant
            lo <= i <= hi <= src.len(),
            toks_view(src@).len() == src@.len(),
            forall|k: int| 0 <= k < src@.len() ==> #[trigger] toks_view(src@)[k] == tok_view(src@[k]),
            toks_view(out@) == toks_view(start) + toks_view(src@).subrange(lo as int, i as int),
        decreases hi - i,
    {
        let c = clone_tok(&src[i]);
        let ghost before = out@;
        out.push(c);
        proof {
            lemma_toks_view_push(before, c);
            assert(toks_view(start) + toks_view(src@).subrange(lo as int, i + 1) =~= (toks_view(start)
                + toks_view(src@).subrange(lo as int, i as int)).push(tok_view(src@[i as int])));
        }
        i = i + 1;
    }
}

/// A copy of `src[lo..hi]`.
pub fn copy_toks(src: &Vec<Tok>, lo: usize, hi: usize) -> (r: Vec<Tok>)
    requires
        lo <= hi <= src.len(),
    ensures
        toks_view(r@) == toks_view(src@).subrange(lo as int, hi as int),
{
    let mut r: Vec<Tok> = Vec::new();
    proof {
        assert(toks_view(r@) =~= Seq::<STok>::empty());
    }
    extend_toks(&mut r, src, lo, hi);
    proof {
        assert(Seq::<STok>::empty() + toks_view(src@).subrange(lo as int, hi as int) =~= toks_view(
            src@,
        ).subrange(lo as int, hi as int));
    }
    r
}

/// An identifier token.
pub fn ident(s: &str) -> (t: Tok)
    ensures
        t@ == STok::Ident(s@),
{
    Tok::Ident(String::from_str(s))
}

/// A punctuation token; `joint` says it is glued to the next one.
pub fn punct(c: char, joint: bool) -> (t: Tok)
    ensures
        t@ == STok::Punct(c, joint),
{
    Tok::Punct(c, joint)
}

/// A group token around `inner`.
pub fn group(d: Delim, inner: Vec<Tok>) -> (t: Tok)
    ensures
        t@ == STok::Group(d, toks_view(inner@)),
{
    Tok::Group(d, inner)
}

/// Whether `t` is the identifier `s`.
pub fn is_ident(t: &Tok, s: &str) -> (r: bool)
    ensures
        r == (t@ == STok::Ident(s@)),
{
    match t {
        Tok::Ident(x) => {
            let y = String::from_str(s);
            *x == y
        },
        _ => false,
    }
}

/// Whether `t` is the punctuation character `c`, joined or not.
pub open spec fn is_punct_spec(t: STok, c: char) -> bool {
    t matches STok::Punct(x, _) && x == c
}

/// Whether `t` is the punctuation character `c`, joined or not.
pub fn is_punct(t: &Tok, c: char) -> (r: bool)
    ensures
        r == is_punct_spec(t@, c),
{
    match t {
        Tok::Punct(x, _) => *x == c,
        _ => false,
    }
}

/// A token tree with every punctuation character taken as not joined. How a
/// `>` or `,` is spaced from what follows it depends on that next token, so
/// two occurrences of one type compare equal only this way.
pub open spec fn unspaced(t: STok) -> STok
    decreases t,
{
    match t {
        STok::Punct(c, _) => STok::Punct(c, false),
        STok::Group(d, s) => STok::Group(d, unspaced_seq(s)),
        _ => t,
    }
}

/// `unspaced`, element by element.
pub open spec fn unspaced_seq(s: Seq<STok>) -> Seq<STok>
    decreases s,
{
    if s.len() == 0 {
        Seq::empty()
    } else {
        unspaced_seq(s.subrange(0, s.len() - 1)).push(unspaced(s[s.len() - 1]))
    }
}

/// `unspaced_seq` maps each element by `unspaced`.
pub proof fn lemma_unspaced_seq(s: Seq<STok>)
    ensures
        unspaced_seq(s).len() == s.len(),
        forall|i: int| 0 <= i < s.len() ==> #[trigger] unspaced_seq(s)[i] == unspaced(s[i]),
    decreases s.len(),
{
    if s.len() > 0 {
        lemma_unspaced_seq(s.subrange(0, s.len() - 1));
    }
}

/// Whether two token trees are the same up to the spacing of punctuation.
pub fn tok_eq(a: &Tok, b: &Tok) -> (r: bool)
    ensures
        r == (unspaced(a@) == unspaced(b@)),
    decreases a,
{
    match (a, b) {
        (Tok::Ident(x), Tok::Ident(y)) => *x == *y,
        (Tok::Lit(x), Tok::Lit(y)) => *x == *y,
        (Tok::Punct(c, _), Tok::Punct(d, _)) => *c == *d,
        (Tok::Group(d, v), Tok::Group(e, w)) => {
            proof {
                lemma_toks_view(v@);
                lemma_toks_view(w@);
                lemma_unspaced_seq(toks_view(v@));
                lemma_unspaced_seq(toks_view(w@));
            }
            if *d != *e || v.len() != w.len() {
                return false;
            }
            let ghost uv = unspaced_seq(toks_view(v@));
            let ghost uw = unspaced_seq(toks_view(w@));
            let mut i: usize = 0;
            while i < v.len()
                invariant
                    i <= v.len() == w.len(),
                    *a == Tok::Group(*d, *v),
                    *b == Tok::Group(*e, *w),
                    *d == *e,
                    uv == unspaced_seq(toks_view(v@)),
                    uw == unspaced_seq(toks_view(w@)),
                    uv.len() == v.len(),
                    uw.len() == w.len(),
                    forall|k: int| 0 <= k < v@.len() ==> #[trigger] uv[k] == unspaced(tok_view(v@[k])),
                    forall|k: int| 0 <= k < w@.len() ==> #[trigger] uw[k] == unspaced(tok_view(w@[k])),
                    forall|k: int| 0 <= k < i ==> uv[k] == uw[k],
                decreases v.len() - i,
            {
                proof {
                    broadcast use vstd::std_specs::vec::axiom_vec_index_decreases;

                    assert(decreases_to!(*a => (*a)->Group_1));
                    assert(decreases_to!(*v => v[i as int]));
                }
                if !tok_eq(&v[i], &w[i]) {
                    proof {
                        assert(uv[i as int] != uw[i as int]);
                    }
                    return false;
                }
                i = i + 1;
            }
            proof {
                assert(uv =~= uw);
            }
            true
        },
        _ => false,
    }
}

/// Whether `a[alo..ahi]` and `b[blo..bhi]` are the same up to the spacing of
/// punctuation.
pub fn toks_eq(a: &Vec<Tok>, alo: usize, ahi: usize, b: &Vec<Tok>, blo: usize, bhi: usize) -> (r: bool)
    requires
        alo <= ahi <= a.len(),
        blo <= bhi <= b.len(),
    ensures
        r == (unspaced_seq(toks_view(a@).subrange(alo as int, ahi as int)) == unspaced_seq(
            toks_view(b@).subrange(blo as int, bhi as int),
        )),
{
    let ghost sa = toks_view(a@).subrange(alo as int, ahi as int);
    let ghost sb = toks_view(b@).subrange(blo as int, bhi as int);
    proof {
        lemma_toks_view(a@);
        lemma_toks_view(b@);
        lemma_unspaced_seq(sa);
        lemma_unspaced_seq(sb);
    }
    if ahi - alo != bhi - blo {
        return false;
    }
    let n = ahi - alo;
    let ghost ua = unspaced_seq(sa);
    let ghost ub = unspaced_seq(sb);
    let mut i: usize = 0;
    while i < n
        invariant
            i <= n == ahi - alo == bhi - blo,
            alo <= ahi <= a.len(),
            blo <= bhi <= b.len(),
            sa == toks_view(a@).subrange(alo as int, ahi as int),
            sb == toks_view(b@).subrange(blo as int, bhi as int),
            toks_view(a@).len() == a.len(),
            toks_view(b@).len() == b.len(),
            forall|k: int| 0 <= k < a@.len() ==> #[trigger] toks_view(a@)[k] == tok_view(a@[k]),
            forall|k: int| 0 <= k < b@.len() ==> #[trigger] toks_view(b@)[k] == tok_view(b@[k]),
            ua == unspaced_seq(sa),
            ub == unspaced_seq(sb),
            ua.len() == n,
            ub.len() == n,
            forall|k: int| 0 <= k < n ==> #[trigger] ua[k] == unspaced(sa[k]),
            forall|k: int| 0 <= k < n ==> #[trigger] ub[k] == unspaced(sb[k]),
            forall|k: int| 0 <= k < i ==> #[trigger] ua[k] == ub[k],
        decreases n - i,
    {
        if !tok_eq(&a[alo + i], &b[blo + i]) {
            proof {
                assert(sa[i as int] == tok_view(a@[alo + i]));
                assert(sb[i as int] == tok_view(b@[blo + i]));
                assert(ua[i as int] != ub[i as int]);
            }
            return false;
        }
        proof {
            assert(sa[i as int] == tok_view(a@[alo + i]));
            assert(sb[i as int] == tok_view(b@[blo + i]));
        }
        i = i + 1;
    }
    proof {
        assert(ua =~= ub);
    }
    true
}

} // verus!
