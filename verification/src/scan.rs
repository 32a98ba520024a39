//! Scanning token sequences at the top level of angle-bracket nesting.
//!
//! Groups are single token trees, so commas inside `(..)`, `[..]` and `{..}`
//! are never seen here; commas inside `<..>` are skipped by counting angle
//! brackets, where the `>` of an arrow `->` does not count.
use vstd::prelude::*;
use crate::model::segs_of;
use crate::tokens::{copy_toks, is_punct, is_punct_spec, lemma_toks_view, tok_view, toks_view, STok, Tok};

verus! {

/// Whether `s[k]` closes an angle bracket: a `>` not glued after a `-`.
pub open spec fn closes_angle_at(s: Seq<STok>, k: int) -> bool {
    is_punct_spec(s[k], '>') && !(k > 0 && s[k - 1] == STok::Punct('-', true))
}

/// The angle-bracket depth after the tokens of `s`: each `<` opens one level
/// and each `>` that closes an angle bracket leaves one.
pub open spec fn angle_depth(s: Seq<STok>) -> int
    decreases s.len(),
{
    if s.len() == 0 {
        0
    } else {
        let k = s.len() - 1;
        let d = angle_depth(s.subrange(0, k));
        if is_punct_spec(s[k], '<') {
            d + 1
        } else if closes_angle_at(s, k) {
            d - 1
        } else {
            d
        }
    }
}

/// What a top-level search stops at.
#[derive(Clone, Copy, PartialEq, Eq, Debug, Structural)]
pub enum Stop {
    /// A `,`.
    Comma,
    /// A `=`.
    Eq,
    /// A `>` that closes an angle bracket.
    CloseAngle,
}

/// Whether the search for `stop` stops at `s[k]`.
pub open spec fn stops_at(s: Seq<STok>, k: int, stop: Stop) -> bool {
    match stop {
        Stop::Comma => is_punct_spec(s[k], ','),
        Stop::Eq => is_punct_spec(s[k], '='),
        Stop::CloseAngle => closes_angle_at(s, k),
    }
}

/// The first index at or after `k` where `s` is at angle depth zero and the
/// token there is `stop`.
pub open spec fn first_top(s: Seq<STok>, k: int, stop: Stop) -> Option<int>
    decreases s.len() - k,
{
    if k < 0 || k >= s.len() {
        None
    } else if angle_depth(s.subrange(0, k)) == 0 && stops_at(s, k, stop) {
        Some(k)
    } else {
        first_top(s, k + 1, stop)
    }
}

/// A found index lies in the range searched and is a stop at depth zero.
pub proof fn lemma_first_top(s: Seq<STok>, k: int, stop: Stop)
    ensures
        first_top(s, k, stop) matches Some(j) ==> k <= j < s.len() && angle_depth(s.subrange(0, j))
            == 0 && stops_at(s, j, stop),
    decreases s.len() - k,
{
    if k >= 0 && k < s.len() && !(angle_depth(s.subrange(0, k)) == 0 && stops_at(s, k, stop)) {
        lemma_first_top(s, k + 1, stop);
    }
}

/// The pieces of `s` between its top-level commas; a trailing comma ends the
/// last piece instead of starting an empty one.
pub open spec fn split_commas(s: Seq<STok>) -> Seq<Seq<STok>>
    decreases s.len(),
{
    match first_top(s, 0, Stop::Comma) {
        None => if s.len() == 0 {
            Seq::empty()
        } else {
            seq![s]
        },
        Some(k) => {
            proof {
                lemma_first_top(s, 0, Stop::Comma);
            }
            seq![s.subrange(0, k)] + split_commas(s.subrange(k + 1, s.len() as int))
        },
    }
}

/// `Option<usize>` as `Option<int>`.
pub open spec fn opt_int(r: Option<usize>) -> Option<int> {
    match r {
        Some(k) => Some(k as int),
        None => None,
    }
}

/// The first index of `v` where it is at angle depth zero and the token there
/// is `stop`.
pub fn find_top(v: &Vec<Tok>, stop: Stop) -> (r: Option<usize>)
    ensures
        opt_int(r) == first_top(toks_view(v@), 0, stop),
{
    let ghost s = toks_view(v@);
    proof {
        lemma_toks_view(v@);
    }
    let mut k: usize = 0;
    let mut d: i128 = 0;
    while k < v.len()
        invariant
            k <= v.len(),
            s == toks_view(v@),
            s.len() == v@.len(),
            forall|i: int| 0 <= i < v@.len() ==> #[trigger] s[i] == tok_view(v@[i]),
            d == angle_depth(s.subrange(0, k as int)),
            -(k as int) <= d <= k,
            first_top(s, 0, stop) == first_top(s, k as int, stop),
        decreases v.len() - k,
    {
        let ghost kk = k as int;
        let is_gt = is_punct(&v[k], '>');
        let after_arrow = k > 0 && match &v[k - 1] {
            Tok::Punct(c, j) => *c == '-' && *j,
            _ => false,
        };
        let closes = is_gt && !after_arrow;
        proof {
            assert(closes == closes_angle_at(s, kk));
        }
        if d == 0 {
            let hit = match stop {
                Stop::Comma => is_punct(&v[k], ','),
                Stop::Eq => is_punct(&v[k], '='),
                Stop::CloseAngle => closes,
            };
            if hit {
                return Some(k);
            }
        }
        let opens = is_punct(&v[k], '<');
        proof {
            assert(s.subrange(0, kk + 1).subrange(0, kk) == s.subrange(0, kk));
            assert(closes_angle_at(s.subrange(0, kk + 1), kk) == closes_angle_at(s, kk));
        }
        if opens {
            d = d + 1;
        } else if closes {
            d = d - 1;
        }
        k = k + 1;
    }
    None
}

/// The pieces of `v` between its top-level commas, as `split_commas` says.
pub fn split_top_commas(v: &Vec<Tok>) -> (r: Vec<Vec<Tok>>)
    ensures
        segs_of(r@) == split_commas(toks_view(v@)),
{
    let mut out: Vec<Vec<Tok>> = Vec::new();
    let mut rest = copy_toks(v, 0, v.len());
    proof {
        lemma_toks_view(v@);
        assert(toks_view(v@).subrange(0, v@.len() as int) == toks_view(v@));
        assert(segs_of(out@) =~= Seq::<Seq<STok>>::empty());
    }
    loop
        invariant
            segs_of(out@) + split_commas(toks_view(rest@)) == split_commas(toks_view(v@)),
        decreases rest.len(),
    {
        proof {
            lemma_toks_view(rest@);
            lemma_first_top(toks_view(rest@), 0, Stop::Comma);
        }
        match find_top(&rest, Stop::Comma) {
            None => {
                if rest.len() > 0 {
                    let ghost before = out@;
                    out.push(rest);
                    proof {
                        assert(segs_of(out@) =~= segs_of(before).push(toks_view(rest@)));
                    }
                } else {
                    proof {
                        assert(segs_of(out@) + Seq::<Seq<STok>>::empty() =~= segs_of(out@));
                    }
                }
                return out;
            },
            Some(k) => {
                let piece = copy_toks(&rest, 0, k);
                let next = copy_toks(&rest, k + 1, rest.len());
                let ghost before = out@;
                let ghost rs = toks_view(rest@);
                out.push(piece);
                proof {
                    assert(segs_of(out@) =~= segs_of(before).push(toks_view(piece@)));
                    assert(split_commas(rs) == seq![rs.subrange(0, k as int)] + split_commas(
                        rs.subrange(k + 1, rs.len() as int),
                    ));
                    assert(segs_of(out@) + split_commas(toks_view(next@)) =~= segs_of(before)
                        + split_commas(rs));
                    lemma_toks_view(next@);
                    assert(next@.len() < rest@.len());
                }
                rest = next;
            },
        }
    }
}

} // verus!
