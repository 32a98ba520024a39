//! Reading a struct declaration out of the token trees a derive receives.
use vstd::prelude::*;
use crate::model::{
    fields_of, params_of, segs_of, DeriveError, FieldDef, GenericParam, ParamKind,
    SError, SField, SParam, SStruct, Shape, StructDef,
};
use crate::scan::{find_top, first_top, lemma_first_top, split_commas, split_top_commas, Stop};
use crate::tokens::{copy_toks, is_ident, is_punct, is_punct_spec, lemma_toks_view, tok_view, toks_view, Delim, STok, Tok};

verus! {

/// The tokens inside a group; nothing for any other token.
pub open spec fn group_inner(t: STok) -> Seq<STok> {
    match t {
        STok::Group(_, x) => x,
        _ => Seq::empty(),
    }
}

/// Whether `t` is a group delimited by `d`.
pub open spec fn is_group(t: STok, d: Delim) -> bool {
    t matches STok::Group(x, _) && x == d
}

/// The text of an identifier; nothing for any other token.
pub open spec fn ident_text(t: STok) -> Seq<char> {
    match t {
        STok::Ident(x) => x,
        _ => Seq::empty(),
    }
}

/// Whether an attribute `#[..]` starts at `s[i]`.
pub open spec fn is_attr_at(s: Seq<STok>, i: int) -> bool {
    0 <= i && i + 1 < s.len() && is_punct_spec(s[i], '#') && is_group(s[i + 1], Delim::Bracket)
}

/// The index just past the attributes that start at `s[i]`.
pub open spec fn attrs_end(s: Seq<STok>, i: int) -> int
    decreases s.len() - i,
{
    if is_attr_at(s, i) {
        attrs_end(s, i + 2)
    } else {
        i
    }
}

/// The contents of the attributes that start at `s[i]`, in order.
pub open spec fn attr_bodies(s: Seq<STok>, i: int) -> Seq<Seq<STok>>
    decreases s.len() - i,
{
    if is_attr_at(s, i) {
        seq![group_inner(s[i + 1])] + attr_bodies(s, i + 2)
    } else {
        Seq::empty()
    }
}

/// Whether the parentheses after `pub` restrict the visibility:
/// `(crate)`, `(self)`, `(super)` or `(in path)`.
pub open spec fn is_restricted_vis(inner: Seq<STok>) -> bool {
    ||| inner == seq![STok::Ident("crate"@)]
    ||| inner == seq![STok::Ident("self"@)]
    ||| inner == seq![STok::Ident("super"@)]
    ||| inner.len() >= 1 && inner[0] == STok::Ident("in"@)
}

/// The index just past a visibility that starts at `s[i]`, or `i` where none does.
pub open spec fn vis_end(s: Seq<STok>, i: int) -> int {
    if 0 <= i < s.len() && s[i] == STok::Ident("pub"@) {
        if i + 1 < s.len() && is_group(s[i + 1], Delim::Paren) && is_restricted_vis(group_inner(s[i + 1])) {
            i + 2
        } else {
            i + 1
        }
    } else {
        i
    }
}

/// One field from the tokens between two top-level commas of a struct body:
/// attributes, visibility, then `name: Type` (named) or `Type` (tuple).
pub open spec fn parse_field(seg: Seq<STok>, named: bool) -> Option<SField> {
    let v = vis_end(seg, attrs_end(seg, 0));
    if named {
        if v + 2 < seg.len() && seg[v] is Ident && is_punct_spec(seg[v + 1], ':') {
            Some(
                SField {
                    name: Some(ident_text(seg[v])),
                    ty: seg.subrange(v + 2, seg.len() as int),
                    attrs: attr_bodies(seg, 0),
                },
            )
        } else {
            None
        }
    } else {
        if v < seg.len() {
            Some(SField { name: None, ty: seg.subrange(v, seg.len() as int), attrs: attr_bodies(seg, 0) })
        } else {
            None
        }
    }
}

/// The fields read from `segs[i..]`, or nothing if one of them is not a field.
pub open spec fn parse_fields(segs: Seq<Seq<STok>>, i: int, named: bool) -> Option<Seq<SField>>
    decreases segs.len() - i,
{
    if i < 0 || i >= segs.len() {
        Some(Seq::empty())
    } else {
        match parse_field(segs[i], named) {
            None => None,
            Some(f) => match parse_fields(segs, i + 1, named) {
                None => None,
                Some(rest) => Some(seq![f] + rest),
            },
        }
    }
}

/// The part of a generic parameter before its default, if it has one.
pub open spec fn without_default(seg: Seq<STok>) -> Seq<STok> {
    match first_top(seg, 0, Stop::Eq) {
        Some(k) => seg.subrange(0, k),
        None => seg,
    }
}

/// One generic parameter: `'a ..`, `const N ..` or `T ..`.
pub open spec fn parse_param(seg: Seq<STok>) -> Option<SParam> {
    let decl = without_default(seg);
    if seg.len() >= 2 && is_punct_spec(seg[0], '\'') && seg[1] is Ident {
        Some(SParam { kind: ParamKind::Lifetime, decl, arg: seg.subrange(0, 2) })
    } else if seg.len() >= 2 && seg[0] == STok::Ident("const"@) && seg[1] is Ident {
        Some(SParam { kind: ParamKind::Const, decl, arg: seq![seg[1]] })
    } else if seg.len() >= 1 && seg[0] is Ident && seg[0] != STok::Ident("const"@) {
        Some(SParam { kind: ParamKind::Type, decl, arg: seq![seg[0]] })
    } else {
        None
    }
}

/// The generic parameters read from `segs[i..]`, or nothing if one is not a parameter.
pub open spec fn parse_params(segs: Seq<Seq<STok>>, i: int) -> Option<Seq<SParam>>
    decreases segs.len() - i,
{
    if i < 0 || i >= segs.len() {
        Some(Seq::empty())
    } else {
        match parse_param(segs[i]) {
            None => None,
            Some(p) => match parse_params(segs, i + 1) {
                None => None,
                Some(rest) => Some(seq![p] + rest),
            },
        }
    }
}

/// The predicates of a `where` clause that is all of `m`; nothing for an
/// empty `m`, and no clause if `m` does not start with `where`.
pub open spec fn where_of(m: Seq<STok>) -> Option<Seq<STok>> {
    if m.len() == 0 {
        Some(Seq::empty())
    } else if m[0] == STok::Ident("where"@) {
        Some(m.subrange(1, m.len() as int))
    } else {
        None
    }
}

/// The struct declared by `r`, the tokens after its name and generics.
pub open spec fn parse_body(name: Seq<char>, params: Seq<SParam>, r: Seq<STok>) -> Result<SStruct, SError> {
    let n = r.len() as int;
    if n >= 1 && is_group(r[0], Delim::Paren) {
        let inner = group_inner(r[0]);
        if n >= 2 && is_punct_spec(r[n - 1], ';') {
            match (where_of(r.subrange(1, n - 1)), parse_fields(split_commas(inner), 0, false)) {
                (Some(w), Some(fs)) => Ok(
                    SStruct { name, params, where_body: w, shape: Shape::Tuple, fields: fs },
                ),
                _ => Err(SError::Malformed),
            }
        } else {
            Err(SError::Malformed)
        }
    } else if n >= 1 && is_group(r[n - 1], Delim::Brace) {
        let inner = group_inner(r[n - 1]);
        match (where_of(r.subrange(0, n - 1)), parse_fields(split_commas(inner), 0, true)) {
            (Some(w), Some(fs)) => Ok(
                SStruct { name, params, where_body: w, shape: Shape::Named, fields: fs },
            ),
            _ => Err(SError::Malformed),
        }
    } else if n >= 1 && is_punct_spec(r[n - 1], ';') {
        match where_of(r.subrange(0, n - 1)) {
            Some(w) => Ok(
                SStruct { name, params, where_body: w, shape: Shape::Unit, fields: Seq::empty() },
            ),
            None => Err(SError::Malformed),
        }
    } else {
        Err(SError::Malformed)
    }
}

/// The index of the item keyword: past the item's attributes and visibility.
pub open spec fn keyword_at(s: Seq<STok>) -> int {
    vis_end(s, attrs_end(s, 0))
}

/// The struct declared by the derive input `s`.
///
/// An `enum` or `union` is refused as not a struct; any other input that is
/// not attributes, visibility, `struct Name`, optional generics and a body is
/// refused as malformed.
pub open spec fn parse_struct(s: Seq<STok>) -> Result<SStruct, SError> {
    let i = keyword_at(s);
    let n = s.len() as int;
    if i >= n {
        Err(SError::Malformed)
    } else if s[i] == STok::Ident("enum"@) || s[i] == STok::Ident("union"@) {
        Err(SError::NotAStruct)
    } else if s[i] != STok::Ident("struct"@) || i + 1 >= n || !(s[i + 1] is Ident) {
        Err(SError::Malformed)
    } else {
        let name = ident_text(s[i + 1]);
        let g = i + 2;
        if g < n && is_punct_spec(s[g], '<') {
            let after = s.subrange(g + 1, n);
            match first_top(after, 0, Stop::CloseAngle) {
                None => Err(SError::Malformed),
                Some(k) => match parse_params(split_commas(after.subrange(0, k)), 0) {
                    None => Err(SError::Malformed),
                    Some(params) => parse_body(name, params, s.subrange(g + 1 + k + 1, n)),
                },
            }
        } else {
            parse_body(name, Seq::empty(), s.subrange(g, n))
        }
    }
}

/// The value of a parse result.
pub open spec fn struct_result(r: Result<StructDef, DeriveError>) -> Result<SStruct, SError> {
    match r {
        Ok(d) => Ok(d@),
        Err(e) => Err(e@),
    }
}

/// Whether an attribute `#[..]` starts at `v[i]`.
pub fn attr_at(v: &Vec<Tok>, i: usize) -> (r: bool)
    ensures
        r == is_attr_at(toks_view(v@), i as int),
{
    proof {
        lemma_toks_view(v@);
    }
    if i < v.len() && i + 1 < v.len() && is_punct(&v[i], '#') {
        match &v[i + 1] {
            Tok::Group(Delim::Bracket, _) => true,
            _ => false,
        }
    } else {
        false
    }
}

/// The attributes that start at `v[i]`: where they end, and their contents.
pub fn take_attrs(v: &Vec<Tok>, i: usize) -> (r: (usize, Vec<Vec<Tok>>))
    requires
        i <= v.len(),
    ensures
        r.0 == attrs_end(toks_view(v@), i as int),
        segs_of(r.1@) == attr_bodies(toks_view(v@), i as int),
        i <= r.0 <= v.len(),
{
    let ghost s = toks_view(v@);
    proof {
        lemma_toks_view(v@);
    }
    let mut out: Vec<Vec<Tok>> = Vec::new();
    let mut j = i;
    proof {
        assert(segs_of(out@) + attr_bodies(s, j as int) =~= attr_bodies(s, i as int));
    }
    while attr_at(v, j)
        invariant
            i <= j <= v.len(),
            s == toks_view(v@),
            s.len() == v@.len(),
            forall|k: int| 0 <= k < v@.len() ==> #[trigger] s[k] == tok_view(v@[k]),
            attrs_end(s, i as int) == attrs_end(s, j as int),
            segs_of(out@) + attr_bodies(s, j as int) == attr_bodies(s, i as int),
        decreases v.len() - j,
    {
        let body = match &v[j + 1] {
            Tok::Group(_, inner) => copy_toks(inner, 0, inner.len()),
            _ => Vec::new(),
        };
        proof {
            let t = v@[j + 1];
            if let Tok::Group(_, inner) = t {
                lemma_toks_view(inner@);
                assert(toks_view(inner@).subrange(0, inner@.len() as int) == toks_view(inner@));
            }
            assert(toks_view(body@) == group_inner(s[j + 1]));
        }
        let ghost before = out@;
        out.push(body);
        proof {
            assert(segs_of(out@) =~= segs_of(before).push(group_inner(s[j + 1])));
            assert(segs_of(out@) + attr_bodies(s, j + 2) =~= segs_of(before) + attr_bodies(
                s,
                j as int,
            ));
        }
        j = j + 2;
    }
    proof {
        assert(!is_attr_at(s, j as int));
        assert(segs_of(out@) + Seq::<Seq<STok>>::empty() =~= segs_of(out@));
    }
    (j, out)
}

/// The index just past a visibility that starts at `v[i]`.
pub fn skip_vis(v: &Vec<Tok>, i: usize) -> (r: usize)
    requires
        i <= v.len(),
    ensures
        r == vis_end(toks_view(v@), i as int),
        i <= r <= v.len(),
{
    proof {
        lemma_toks_view(v@);
    }
    if i < v.len() && is_ident(&v[i], "pub") {
        proof {
            reveal_strlit("pub");
        }
        if i + 1 < v.len() {
            match &v[i + 1] {
                Tok::Group(Delim::Paren, inner) => {
                    proof {
                        lemma_toks_view(inner@);
                        reveal_strlit("crate");
                        reveal_strlit("self");
                        reveal_strlit("super");
                        reveal_strlit("in");
                    }
                    let restricted = (inner.len() == 1 && (is_ident(&inner[0], "crate") || is_ident(
                        &inner[0],
                        "self",
                    ) || is_ident(&inner[0], "super"))) || (inner.len() >= 1 && is_ident(
                        &inner[0],
                        "in",
                    ));
                    proof {
                        let iv = toks_view(inner@);
                        if inner.len() == 1 {
                            assert(iv == seq![iv[0]]);
                        }
                        assert(restricted == is_restricted_vis(iv));
                    }
                    if restricted {
                        return i + 2;
                    }
                },
                _ => {},
            }
        }
        return i + 1;
    }
    proof {
        reveal_strlit("pub");
    }
    i
}

/// The value of an optional field.
pub open spec fn opt_field(r: Option<FieldDef>) -> Option<SField> {
    match r {
        Some(f) => Some(f@),
        None => None,
    }
}

/// A copy of the text of identifier `t`.
pub fn ident_string(t: &Tok) -> (r: String)
    ensures
        r@ == ident_text(t@),
{
    match t {
        Tok::Ident(x) => x.clone(),
        _ => String::new(),
    }
}

/// One field from the tokens of `seg`, as `parse_field` says.
pub fn read_field(seg: &Vec<Tok>, named: bool) -> (r: Option<FieldDef>)
    ensures
        opt_field(r) == parse_field(toks_view(seg@), named),
{
    let ghost s = toks_view(seg@);
    proof {
        lemma_toks_view(seg@);
    }
    let (a, attrs) = take_attrs(seg, 0);
    let v = skip_vis(seg, a);
    let n = seg.len();
    if named {
        if v < n && n - v > 2 && match &seg[v] {
            Tok::Ident(_) => true,
            _ => false,
        } && is_punct(&seg[v + 1], ':') {
            let name = ident_string(&seg[v]);
            let ty = copy_toks(seg, v + 2, n);
            let f = FieldDef { name: Some(name), ty, attrs };
            proof {
                assert(f@ == parse_field(s, named).unwrap());
            }
            Some(f)
        } else {
            None
        }
    } else {
        if v < n {
            let ty = copy_toks(seg, v, n);
            let f = FieldDef { name: None, ty, attrs };
            proof {
                assert(f@ == parse_field(s, named).unwrap());
            }
            Some(f)
        } else {
            None
        }
    }
}

/// The fields read from each of `segs`, as `parse_fields` says.
pub fn read_fields(segs: &Vec<Vec<Tok>>, named: bool) -> (r: Option<Vec<FieldDef>>)
    ensures
        match r {
            Some(fs) => parse_fields(segs_of(segs@), 0, named) == Some(fields_of(fs@)),
            None => parse_fields(segs_of(segs@), 0, named) is None,
        },
{
    let ghost ss = segs_of(segs@);
    let mut out: Vec<FieldDef> = Vec::new();
    let mut i: usize = 0;
    proof {
        assert(fields_of(out@) =~= Seq::<SField>::empty());
    }
    while i < segs.len()
        invariant
            i <= segs.len(),
            ss == segs_of(segs@),
            ss.len() == segs@.len(),
            parse_fields(ss, 0, named) == match parse_fields(ss, i as int, named) {
                None => None,
                Some(rest) => Some(fields_of(out@) + rest),
            },
        decreases segs.len() - i,
    {
        match read_field(&segs[i], named) {
            None => {
                return None;
            },
            Some(f) => {
                let ghost before = out@;
                out.push(f);
                proof {
                    assert(fields_of(out@) =~= fields_of(before).push(f@));
                    match parse_fields(ss, i + 1, named) {
                        None => {},
                        Some(rest) => {
                            assert(fields_of(before) + (seq![f@] + rest) =~= fields_of(out@) + rest);
                        },
                    }
                }
                i = i + 1;
            },
        }
    }
    proof {
        assert(fields_of(out@) + Seq::<SField>::empty() =~= fields_of(out@));
    }
    Some(out)
}

/// The value of an optional generic parameter.
pub open spec fn opt_param(r: Option<GenericParam>) -> Option<SParam> {
    match r {
        Some(p) => Some(p@),
        None => None,
    }
}

/// One generic parameter from the tokens of `seg`, as `parse_param` says.
pub fn read_param(seg: &Vec<Tok>) -> (r: Option<GenericParam>)
    ensures
        opt_param(r) == parse_param(toks_view(seg@)),
{
    let ghost s = toks_view(seg@);
    proof {
        lemma_toks_view(seg@);
        lemma_first_top(s, 0, Stop::Eq);
        reveal_strlit("const");
    }
    let n = seg.len();
    let decl = match find_top(seg, Stop::Eq) {
        Some(k) => copy_toks(seg, 0, k),
        None => copy_toks(seg, 0, n),
    };
    proof {
        assert(s.subrange(0, n as int) == s);
        assert(toks_view(decl@) == without_default(s));
    }
    let second_is_ident = n >= 2 && match &seg[1] {
        Tok::Ident(_) => true,
        _ => false,
    };
    let first_is_ident = n >= 1 && match &seg[0] {
        Tok::Ident(_) => true,
        _ => false,
    };
    if n >= 2 && is_punct(&seg[0], '\'') && second_is_ident {
        let arg = copy_toks(seg, 0, 2);
        Some(GenericParam { kind: ParamKind::Lifetime, decl, arg })
    } else if n >= 2 && is_ident(&seg[0], "const") && second_is_ident {
        let arg = copy_toks(seg, 1, 2);
        proof {
            assert(s.subrange(1, 2) =~= seq![s[1]]);
        }
        Some(GenericParam { kind: ParamKind::Const, decl, arg })
    } else if first_is_ident && !is_ident(&seg[0], "const") {
        let arg = copy_toks(seg, 0, 1);
        proof {
            assert(s.subrange(0, 1) =~= seq![s[0]]);
        }
        Some(GenericParam { kind: ParamKind::Type, decl, arg })
    } else {
        None
    }
}

/// The generic parameters read from each of `segs`, as `parse_params` says.
pub fn read_params(segs: &Vec<Vec<Tok>>) -> (r: Option<Vec<GenericParam>>)
    ensures
        match r {
            Some(ps) => parse_params(segs_of(segs@), 0) == Some(params_of(ps@)),
            None => parse_params(segs_of(segs@), 0) is None,
        },
{
    let ghost ss = segs_of(segs@);
    let mut out: Vec<GenericParam> = Vec::new();
    let mut i: usize = 0;
    proof {
        assert(params_of(out@) =~= Seq::<SParam>::empty());
    }
    while i < segs.len()
        invariant
            i <= segs.len(),
            ss == segs_of(segs@),
            ss.len() == segs@.len(),
            parse_params(ss, 0) == match parse_params(ss, i as int) {
                None => None,
                Some(rest) => Some(params_of(out@) + rest),
            },
        decreases segs.len() - i,
    {
        match read_param(&segs[i]) {
            None => {
                return None;
            },
            Some(p) => {
                let ghost before = out@;
                out.push(p);
                proof {
                    assert(params_of(out@) =~= params_of(before).push(p@));
                    match parse_params(ss, i + 1) {
                        None => {},
                        Some(rest) => {
                            assert(params_of(before) + (seq![p@] + rest) =~= params_of(out@) + rest);
                        },
                    }
                }
                i = i + 1;
            },
        }
    }
    proof {
        assert(params_of(out@) + Seq::<SParam>::empty() =~= params_of(out@));
    }
    Some(out)
}

/// The predicates of the `where` clause that is all of `v[lo..hi]`, as `where_of` says.
pub fn read_where(v: &Vec<Tok>, lo: usize, hi: usize) -> (r: Option<Vec<Tok>>)
    requires
        lo <= hi <= v.len(),
    ensures
        match r {
            Some(w) => where_of(toks_view(v@).subrange(lo as int, hi as int)) == Some(toks_view(w@)),
            None => where_of(toks_view(v@).subrange(lo as int, hi as int)) is None,
        },
{
    proof {
        lemma_toks_view(v@);
        reveal_strlit("where");
    }
    let ghost m = toks_view(v@).subrange(lo as int, hi as int);
    if lo == hi {
        let w: Vec<Tok> = Vec::new();
        proof {
            assert(toks_view(w@) =~= Seq::<STok>::empty());
        }
        Some(w)
    } else if is_ident(&v[lo], "where") {
        let w = copy_toks(v, lo + 1, hi);
        proof {
            assert(m.subrange(1, m.len() as int) =~= toks_view(v@).subrange(lo + 1, hi as int));
        }
        Some(w)
    } else {
        None
    }
}

/// The struct declared by `v[lo..]`, the tokens after its name and generics,
/// as `parse_body` says.
pub fn read_body(name: String, params: Vec<GenericParam>, v: &Vec<Tok>, lo: usize) -> (r: Result<
    StructDef,
    DeriveError,
>)
    requires
        lo <= v.len(),
    ensures
        struct_result(r) == parse_body(name@, params_of(params@), toks_view(v@).subrange(
            lo as int,
            v.len() as int,
        )),
{
    let ghost rr = toks_view(v@).subrange(lo as int, v.len() as int);
    proof {
        lemma_toks_view(v@);
    }
    let n = v.len();
    let first_paren = lo < n && match &v[lo] {
        Tok::Group(Delim::Paren, _) => true,
        _ => false,
    };
    let last_brace = lo < n && match &v[n - 1] {
        Tok::Group(Delim::Brace, _) => true,
        _ => false,
    };
    let last_semi = lo < n && is_punct(&v[n - 1], ';');
    if first_paren {
        if n - lo >= 2 && last_semi {
            proof {
                assert(rr.subrange(1, rr.len() - 1) =~= toks_view(v@).subrange(lo + 1, n - 1));
            }
            let w = read_where(v, lo + 1, n - 1);
            let segs = match &v[lo] {
                Tok::Group(_, inner) => split_top_commas(inner),
                _ => Vec::new(),
            };
            let fs = read_fields(&segs, false);
            match (w, fs) {
                (Some(w), Some(fs)) => Ok(
                    StructDef { name, params, where_body: w, shape: Shape::Tuple, fields: fs },
                ),
                _ => Err(DeriveError::Malformed),
            }
        } else {
            Err(DeriveError::Malformed)
        }
    } else if last_brace {
        proof {
            assert(rr.subrange(0, rr.len() - 1) =~= toks_view(v@).subrange(lo as int, n - 1));
        }
        let w = read_where(v, lo, n - 1);
        let segs = match &v[n - 1] {
            Tok::Group(_, inner) => split_top_commas(inner),
            _ => Vec::new(),
        };
        let fs = read_fields(&segs, true);
        match (w, fs) {
            (Some(w), Some(fs)) => Ok(
                StructDef { name, params, where_body: w, shape: Shape::Named, fields: fs },
            ),
            _ => Err(DeriveError::Malformed),
        }
    } else if last_semi {
        proof {
            assert(rr.subrange(0, rr.len() - 1) =~= toks_view(v@).subrange(lo as int, n - 1));
        }
        let w = read_where(v, lo, n - 1);
        match w {
            Some(w) => {
                let fields: Vec<FieldDef> = Vec::new();
                proof {
                    assert(fields_of(fields@) =~= Seq::<SField>::empty());
                }
                Ok(StructDef { name, params, where_body: w, shape: Shape::Unit, fields })
            },
            None => Err(DeriveError::Malformed),
        }
    } else {
        Err(DeriveError::Malformed)
    }
}

/// The struct declared by the derive input `v`, as `parse_struct` says.
pub fn read_struct(v: &Vec<Tok>) -> (r: Result<StructDef, DeriveError>)
    ensures
        struct_result(r) == parse_struct(toks_view(v@)),
{
    let ghost s = toks_view(v@);
    proof {
        lemma_toks_view(v@);
        reveal_strlit("enum");
        reveal_strlit("union");
        reveal_strlit("struct");
    }
    let (a, _) = take_attrs(v, 0);
    let i = skip_vis(v, a);
    let n = v.len();
    if i >= n {
        return Err(DeriveError::Malformed);
    }
    if is_ident(&v[i], "enum") || is_ident(&v[i], "union") {
        return Err(DeriveError::NotAStruct);
    }
    if !is_ident(&v[i], "struct") || i + 1 >= n {
        return Err(DeriveError::Malformed);
    }
    let name_is_ident = match &v[i + 1] {
        Tok::Ident(_) => true,
        _ => false,
    };
    if !name_is_ident {
        return Err(DeriveError::Malformed);
    }
    let name = ident_string(&v[i + 1]);
    let g = i + 2;
    if g < n && is_punct(&v[g], '<') {
        let after = copy_toks(v, g + 1, n);
        let ghost av = toks_view(after@);
        proof {
            lemma_toks_view(after@);
            lemma_first_top(av, 0, Stop::CloseAngle);
        }
        match find_top(&after, Stop::CloseAngle) {
            None => Err(DeriveError::Malformed),
            Some(k) => {
                let region = copy_toks(&after, 0, k);
                let segs = split_top_commas(&region);
                match read_params(&segs) {
                    None => Err(DeriveError::Malformed),
                    Some(params) => {
                        proof {
                            assert(av.subrange(0, k as int) == toks_view(region@));
                            assert(s.subrange(g + 1 + k + 1, n as int) =~= toks_view(v@).subrange(
                                (g + k + 2) as int,
                                n as int,
                            ));
                        }
                        read_body(name, params, v, g + k + 2)
                    },
                }
            },
        }
    } else {
        let params: Vec<GenericParam> = Vec::new();
        proof {
            assert(params_of(params@) =~= Seq::<SParam>::empty());
        }
        read_body(name, params, v, g)
    }
}

} // verus!
