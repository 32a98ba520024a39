//! Reading back what is written: a struct declaration written out in the
//! plain form is read by the derive as exactly that struct.
use vstd::prelude::*;
use crate::attrs::SInit;
use crate::derive::{field_inits, wire_derivation};
use crate::emit::sp;
use crate::expand::{name_text, wire_impl};
use crate::model::{SError, SField, SParam, SStruct, Shape};
use crate::parse::{
    attr_bodies, attrs_end, is_attr_at, keyword_at, parse_body, parse_field, parse_fields,
    parse_param, parse_params, parse_struct, where_of,
};
use crate::scan::{angle_depth, closes_angle_at, first_top, split_commas, Stop};
use crate::tokens::{is_punct_spec, Delim, STok};

verus! {

/// Whether `a` ends with a `-` glued to what follows, which would make a
/// following `>` part of an arrow.
pub open spec fn ends_in_joint_minus(a: Seq<STok>) -> bool {
    a.len() > 0 && a[a.len() - 1] == STok::Punct('-', true)
}

/// Past the end of `a`, whether a token closes an angle bracket depends on
/// `b` alone, unless `a` ends in a joined `-`.
proof fn lemma_closes_angle_concat(a: Seq<STok>, b: Seq<STok>, k: int)
    requires
        !ends_in_joint_minus(a),
        0 <= k < b.len(),
    ensures
        closes_angle_at(a + b, a.len() + k) == closes_angle_at(b, k),
{
    let s = a + b;
    assert(s[a.len() + k] == b[k]);
    if k > 0 {
        assert(s[a.len() + k - 1] == b[k - 1]);
    }
}

/// The angle depth of `a + b` is that of `a` plus that of `b`, unless `a`
/// ends in a joined `-`.
proof fn lemma_angle_depth_concat(a: Seq<STok>, b: Seq<STok>)
    requires
        !ends_in_joint_minus(a),
    ensures
        angle_depth(a + b) == angle_depth(a) + angle_depth(b),
    decreases b.len(),
{
    if b.len() == 0 {
        assert(a + b =~= a);
    } else {
        let m = b.len() - 1;
        let s = a + b;
        lemma_angle_depth_concat(a, b.subrange(0, m));
        assert(s.subrange(0, s.len() - 1) =~= a + b.subrange(0, m));
        assert(s[s.len() - 1] == b[m]);
        lemma_closes_angle_concat(a, b, m);
    }
}

/// Before the end of `a`, whether a token closes an angle bracket depends on
/// `a` alone.
proof fn lemma_closes_angle_prefix(a: Seq<STok>, b: Seq<STok>, k: int)
    requires
        0 <= k < a.len(),
    ensures
        closes_angle_at(a + b, k) == closes_angle_at(a, k),
{
    let s = a + b;
    assert(s[k] == a[k]);
    if k > 0 {
        assert(s[k - 1] == a[k - 1]);
    }
}

/// A comma leaves the angle depth as it is.
proof fn lemma_angle_depth_comma(a: Seq<STok>)
    ensures
        angle_depth(a + seq![sp(',')]) == angle_depth(a),
{
    let s = a + seq![sp(',')];
    assert(s.subrange(0, s.len() - 1) =~= a);
}

/// A piece written between commas: not empty, its angle brackets balanced,
/// and no comma nor closing angle bracket outside them.
pub open spec fn plain_piece(p: Seq<STok>) -> bool {
    &&& p.len() > 0
    &&& angle_depth(p) == 0
    &&& forall|k: int|
        0 <= k < p.len() && angle_depth(#[trigger] p.subrange(0, k)) == 0 ==> !is_punct_spec(p[k], ',')
            && !closes_angle_at(p, k)
}

/// Every piece of `segs` is plain.
pub open spec fn all_plain(segs: Seq<Seq<STok>>) -> bool {
    forall|i: int| 0 <= i < segs.len() ==> plain_piece(#[trigger] segs[i])
}

/// The pieces of `segs`, each followed by a comma.
pub open spec fn join_commas(segs: Seq<Seq<STok>>) -> Seq<STok>
    decreases segs.len(),
{
    if segs.len() == 0 {
        Seq::empty()
    } else {
        segs[0] + seq![sp(',')] + join_commas(segs.subrange(1, segs.len() as int))
    }
}

/// In `p, rest` the first comma at depth zero is the one after `p`.
proof fn lemma_first_comma(p: Seq<STok>, r: Seq<STok>, k: int)
    requires
        plain_piece(p),
        0 <= k <= p.len(),
    ensures
        first_top(p + seq![sp(',')] + r, k, Stop::Comma) == Some(p.len() as int),
    decreases p.len() - k,
{
    let s = p + seq![sp(',')] + r;
    assert(s.subrange(0, k) =~= p.subrange(0, k));
    if k == p.len() {
        assert(p.subrange(0, k) =~= p);
        assert(s[k] == sp(','));
    } else {
        assert(s[k] == p[k]);
        lemma_first_comma(p, r, k + 1);
    }
}

/// Splitting joined plain pieces at their commas gives the pieces back.
pub proof fn lemma_split_join(segs: Seq<Seq<STok>>)
    requires
        all_plain(segs),
    ensures
        split_commas(join_commas(segs)) == segs,
    decreases segs.len(),
{
    if segs.len() > 0 {
        let p = segs[0];
        let tail = segs.subrange(1, segs.len() as int);
        let j2 = join_commas(tail);
        let s = join_commas(segs);
        assert(plain_piece(segs[0]));
        assert(s == p + seq![sp(',')] + j2);
        lemma_first_comma(p, j2, 0);
        assert(s.subrange(0, p.len() as int) =~= p);
        assert(s.subrange(p.len() as int + 1, s.len() as int) =~= j2);
        assert(all_plain(tail)) by {
            assert forall|i: int| 0 <= i < tail.len() implies plain_piece(#[trigger] tail[i]) by {
                assert(tail[i] == segs[i + 1]);
            }
        }
        lemma_split_join(tail);
        assert(seq![p] + tail =~= segs);
    } else {
        assert(join_commas(segs) =~= Seq::<STok>::empty());
        assert(segs =~= Seq::<Seq<STok>>::empty());
    }
}

/// Joined plain pieces are balanced, with no closing angle bracket at depth zero.
pub proof fn lemma_join_balanced(segs: Seq<Seq<STok>>)
    requires
        all_plain(segs),
    ensures
        angle_depth(join_commas(segs)) == 0,
        forall|k: int|
            0 <= k < join_commas(segs).len() && angle_depth(#[trigger] join_commas(segs).subrange(0, k))
                == 0 ==> !closes_angle_at(join_commas(segs), k),
    decreases segs.len(),
{
    let j = join_commas(segs);
    if segs.len() > 0 {
        let p = segs[0];
        let tail = segs.subrange(1, segs.len() as int);
        let j2 = join_commas(tail);
        let a = p + seq![sp(',')];
        assert(plain_piece(segs[0]));
        assert(j =~= a + j2);
        assert(all_plain(tail)) by {
            assert forall|i: int| 0 <= i < tail.len() implies plain_piece(#[trigger] tail[i]) by {
                assert(tail[i] == segs[i + 1]);
            }
        }
        lemma_join_balanced(tail);
        lemma_angle_depth_comma(p);
        assert(!ends_in_joint_minus(a)) by {
            assert(a[a.len() - 1] == sp(','));
        }
        lemma_angle_depth_concat(a, j2);
        assert forall|k: int|
            0 <= k < j.len() && angle_depth(#[trigger] j.subrange(0, k)) == 0 implies !closes_angle_at(j, k) by {
            if k < p.len() {
                assert(j =~= p + (seq![sp(',')] + j2));
                lemma_closes_angle_prefix(p, seq![sp(',')] + j2, k);
                assert(j.subrange(0, k) =~= p.subrange(0, k));
            } else if k == p.len() {
                assert(j[k] == sp(','));
            } else {
                let k2 = k - a.len();
                lemma_closes_angle_concat(a, j2, k2);
                assert(j.subrange(0, k) =~= a + j2.subrange(0, k2));
                lemma_angle_depth_concat(a, j2.subrange(0, k2));
            }
        }
    } else {
        assert(j =~= Seq::<STok>::empty());
    }
}

/// In `joined > rest` the first closing angle bracket at depth zero is the
/// one after the joined pieces.
pub proof fn lemma_first_close(segs: Seq<Seq<STok>>, r: Seq<STok>, k: int)
    requires
        all_plain(segs),
        0 <= k <= join_commas(segs).len(),
    ensures
        first_top(join_commas(segs) + seq![sp('>')] + r, k, Stop::CloseAngle) == Some(
            join_commas(segs).len() as int,
        ),
    decreases join_commas(segs).len() - k,
{
    let j = join_commas(segs);
    let s = j + seq![sp('>')] + r;
    lemma_join_balanced(segs);
    assert(s.subrange(0, k) =~= j.subrange(0, k));
    if k == j.len() {
        assert(j.subrange(0, k) =~= j);
        assert(s[k] == sp('>'));
        if k > 0 {
            lemma_join_ends_in_comma(segs);
            assert(s[k - 1] == j[k - 1]);
        }
    } else {
        assert(s =~= j + (seq![sp('>')] + r));
        lemma_closes_angle_prefix(j, seq![sp('>')] + r, k);
        lemma_first_close(segs, r, k + 1);
    }
}

/// Joined pieces end in a comma, if there are any.
proof fn lemma_join_ends_in_comma(segs: Seq<Seq<STok>>)
    requires
        segs.len() > 0,
    ensures
        join_commas(segs)[join_commas(segs).len() - 1] == sp(','),
    decreases segs.len(),
{
    let tail = segs.subrange(1, segs.len() as int);
    if tail.len() > 0 {
        lemma_join_ends_in_comma(tail);
    } else {
        assert(join_commas(tail) =~= Seq::<STok>::empty());
    }
}

/// A token that neither opens nor closes an angle bracket nor is a comma.
pub open spec fn quiet(t: STok) -> bool {
    !is_punct_spec(t, '<') && !is_punct_spec(t, '>') && !is_punct_spec(t, ',')
}

/// Quiet tokens leave the angle depth at zero.
proof fn lemma_quiet_depth(a: Seq<STok>)
    requires
        forall|k: int| 0 <= k < a.len() ==> quiet(#[trigger] a[k]),
    ensures
        angle_depth(a) == 0,
    decreases a.len(),
{
    if a.len() > 0 {
        let b = a.subrange(0, a.len() - 1);
        assert forall|k: int| 0 <= k < b.len() implies quiet(#[trigger] b[k]) by {
            assert(b[k] == a[k]);
        }
        lemma_quiet_depth(b);
        assert(quiet(a[a.len() - 1]));
    }
}

/// Quiet tokens before a plain piece leave it plain.
proof fn lemma_plain_after_quiet(pre: Seq<STok>, p: Seq<STok>)
    requires
        forall|k: int| 0 <= k < pre.len() ==> quiet(#[trigger] pre[k]),
        !ends_in_joint_minus(pre),
        plain_piece(p),
    ensures
        plain_piece(pre + p),
{
    let s = pre + p;
    lemma_quiet_depth(pre);
    lemma_angle_depth_concat(pre, p);
    assert forall|k: int|
        0 <= k < s.len() && angle_depth(#[trigger] s.subrange(0, k)) == 0 implies !is_punct_spec(s[k], ',')
        && !closes_angle_at(s, k) by {
        if k < pre.len() {
            assert(s[k] == pre[k]);
            assert(quiet(pre[k]));
        } else {
            let k2 = k - pre.len();
            assert(s.subrange(0, k) =~= pre + p.subrange(0, k2));
            lemma_angle_depth_concat(pre, p.subrange(0, k2));
            lemma_closes_angle_concat(pre, p, k2);
            assert(s[k] == p[k2]);
        }
    }
}

/// Attribute contents written as `#[contents]` each.
pub open spec fn write_attrs(attrs: Seq<Seq<STok>>) -> Seq<STok>
    decreases attrs.len(),
{
    if attrs.len() == 0 {
        Seq::empty()
    } else {
        seq![sp('#'), STok::Group(Delim::Bracket, attrs[0])] + write_attrs(
            attrs.subrange(1, attrs.len() as int),
        )
    }
}

/// Written attributes alternate `#` and bracketed groups.
pub proof fn lemma_write_attrs(attrs: Seq<Seq<STok>>)
    ensures
        write_attrs(attrs).len() == 2 * attrs.len(),
        forall|i: int|
            0 <= i < attrs.len() ==> write_attrs(attrs)[2 * i] == sp('#') && #[trigger] write_attrs(
                attrs,
            )[2 * i + 1] == STok::Group(Delim::Bracket, attrs[i]),
    decreases attrs.len(),
{
    if attrs.len() > 0 {
        let tail = attrs.subrange(1, attrs.len() as int);
        lemma_write_attrs(tail);
        let w = write_attrs(attrs);
        assert forall|i: int| 0 <= i < attrs.len() implies w[2 * i] == sp('#') && #[trigger] w[2 * i
            + 1] == STok::Group(Delim::Bracket, attrs[i]) by {
            if i > 0 {
                assert(tail[i - 1] == attrs[i]);
                assert(w[2 * i] == write_attrs(tail)[2 * (i - 1)]);
                assert(w[2 * i + 1] == write_attrs(tail)[2 * (i - 1) + 1]);
            }
        }
    }
}

/// A field written as attributes, then `name:` where it is named, then its type.
pub open spec fn write_field(f: SField, named: bool) -> Seq<STok> {
    write_attrs(f.attrs) + (if named {
        seq![STok::Ident(name_text(f.name)), sp(':')]
    } else {
        Seq::empty()
    }) + f.ty
}

/// Whether a field can be written plainly and read back: a plain type; a
/// name other than `pub` where named, none and a type that starts neither
/// like an attribute nor with `pub` where not.
pub open spec fn well_written_field(f: SField, named: bool) -> bool {
    &&& plain_piece(f.ty)
    &&& if named {
        f.name is Some && name_text(f.name) != "pub"@
    } else {
        f.name is None && !is_attr_at(f.ty, 0) && f.ty[0] != STok::Ident("pub"@)
    }
}

/// The attributes written at the start of `seg` are read back as they are.
pub proof fn lemma_read_attrs(attrs: Seq<Seq<STok>>, rest: Seq<STok>, i: int)
    requires
        0 <= i <= attrs.len(),
        !is_attr_at(rest, 0),
    ensures
        attrs_end(write_attrs(attrs) + rest, 2 * i) == 2 * attrs.len(),
        attr_bodies(write_attrs(attrs) + rest, 2 * i) == attrs.subrange(i, attrs.len() as int),
    decreases attrs.len() - i,
{
    let seg = write_attrs(attrs) + rest;
    let m = attrs.len() as int;
    lemma_write_attrs(attrs);
    if i == m {
        if rest.len() > 0 {
            assert(seg[2 * m] == rest[0]);
        }
        if rest.len() > 1 {
            assert(seg[2 * m + 1] == rest[1]);
        }
        assert(!is_attr_at(seg, 2 * m));
        assert(attrs.subrange(i, m) =~= Seq::<Seq<STok>>::empty());
    } else {
        assert(seg[2 * i] == sp('#'));
        assert(seg[2 * i + 1] == STok::Group(Delim::Bracket, attrs[i]));
        assert(is_attr_at(seg, 2 * i));
        lemma_read_attrs(attrs, rest, i + 1);
        assert(attrs.subrange(i, m) =~= seq![attrs[i]] + attrs.subrange(i + 1, m));
    }
}

/// A well-written field is plain as written.
proof fn lemma_written_field_plain(f: SField, named: bool)
    requires
        well_written_field(f, named),
    ensures
        plain_piece(write_field(f, named)),
{
    let mid: Seq<STok> = if named {
        seq![STok::Ident(name_text(f.name)), sp(':')]
    } else {
        Seq::empty()
    };
    let pre = write_attrs(f.attrs) + mid;
    lemma_write_attrs(f.attrs);
    assert forall|k: int| 0 <= k < pre.len() implies quiet(#[trigger] pre[k]) by {
        if k < write_attrs(f.attrs).len() {
            let i = k / 2;
            assert(k == 2 * i || k == 2 * i + 1);
            assert(0 <= i < f.attrs.len());
            assert(write_attrs(f.attrs)[2 * i + 1] == STok::Group(Delim::Bracket, f.attrs[i]));
            assert(pre[k] == write_attrs(f.attrs)[k]);
        } else {
            assert(pre[k] == mid[k - write_attrs(f.attrs).len()]);
        }
    }
    if pre.len() > 0 {
        let last = pre.len() - 1;
        if mid.len() > 0 {
            assert(pre[last] == sp(':'));
        } else {
            let i = f.attrs.len() - 1;
            assert(last == 2 * i + 1);
            assert(pre[last] == write_attrs(f.attrs)[2 * i + 1]);
        }
    }
    lemma_plain_after_quiet(pre, f.ty);
    assert(write_field(f, named) == pre + f.ty);
}

/// A well-written field is read back as it is.
proof fn lemma_read_field(f: SField, named: bool)
    requires
        well_written_field(f, named),
    ensures
        parse_field(write_field(f, named), named) == Some(f),
{
    let m = f.attrs.len() as int;
    let mid: Seq<STok> = if named {
        seq![STok::Ident(name_text(f.name)), sp(':')]
    } else {
        Seq::empty()
    };
    let rest = mid + f.ty;
    let seg = write_field(f, named);
    assert(seg =~= write_attrs(f.attrs) + rest);
    lemma_write_attrs(f.attrs);
    if named {
        assert(rest[0] == STok::Ident(name_text(f.name)));
    } else {
        assert(rest =~= f.ty);
    }
    lemma_read_attrs(f.attrs, rest, 0);
    assert(f.attrs.subrange(0, m) =~= f.attrs);
    assert(seg[2 * m] == rest[0]);
    if named {
        assert(seg[2 * m + 1] == sp(':'));
        assert(seg.subrange(2 * m + 2, seg.len() as int) =~= f.ty);
        assert(Some(name_text(f.name)) == f.name);
    } else {
        assert(seg.subrange(2 * m, seg.len() as int) =~= f.ty);
    }
}

/// The written pieces of fields `fs`.
pub open spec fn field_pieces(fs: Seq<SField>, named: bool) -> Seq<Seq<STok>> {
    Seq::new(fs.len(), |i: int| write_field(fs[i], named))
}

/// Well-written fields are read back as they are, from any index on.
proof fn lemma_read_fields(fs: Seq<SField>, named: bool, i: int)
    requires
        0 <= i <= fs.len(),
        forall|k: int| 0 <= k < fs.len() ==> well_written_field(#[trigger] fs[k], named),
    ensures
        parse_fields(field_pieces(fs, named), i, named) == Some(fs.subrange(i, fs.len() as int)),
    decreases fs.len() - i,
{
    let pieces = field_pieces(fs, named);
    if i == fs.len() {
        assert(fs.subrange(i, fs.len() as int) =~= Seq::<SField>::empty());
    } else {
        assert(pieces[i] == write_field(fs[i], named));
        assert(well_written_field(fs[i], named));
        lemma_read_field(fs[i], named);
        lemma_read_fields(fs, named, i + 1);
        assert(fs.subrange(i, fs.len() as int) =~= seq![fs[i]] + fs.subrange(i + 1, fs.len() as int));
    }
}

/// Whether a generic parameter can be written plainly and read back: its
/// declaration is plain and names it.
pub open spec fn well_written_param(p: SParam) -> bool {
    plain_piece(p.decl) && parse_param(p.decl) == Some(p)
}

/// The declarations of parameters `ps`.
pub open spec fn param_pieces(ps: Seq<SParam>) -> Seq<Seq<STok>> {
    Seq::new(ps.len(), |i: int| ps[i].decl)
}

/// Well-written parameters are read back as they are, from any index on.
proof fn lemma_read_params(ps: Seq<SParam>, i: int)
    requires
        0 <= i <= ps.len(),
        forall|k: int| 0 <= k < ps.len() ==> well_written_param(#[trigger] ps[k]),
    ensures
        parse_params(param_pieces(ps), i) == Some(ps.subrange(i, ps.len() as int)),
    decreases ps.len() - i,
{
    if i == ps.len() {
        assert(ps.subrange(i, ps.len() as int) =~= Seq::<SParam>::empty());
    } else {
        assert(well_written_param(ps[i]));
        lemma_read_params(ps, i + 1);
        assert(ps.subrange(i, ps.len() as int) =~= seq![ps[i]] + ps.subrange(i + 1, ps.len() as int));
    }
}

/// A `where` clause of predicates `w`, or nothing for none.
pub open spec fn write_where(w: Seq<STok>) -> Seq<STok> {
    if w.len() == 0 {
        Seq::empty()
    } else {
        seq![STok::Ident("where"@)] + w
    }
}

/// The generic parameters `<decls,>`, or nothing for none.
pub open spec fn write_generics(ps: Seq<SParam>) -> Seq<STok> {
    if ps.len() == 0 {
        Seq::empty()
    } else {
        seq![sp('<')] + join_commas(param_pieces(ps)) + seq![sp('>')]
    }
}

/// The body of a struct: `where .. { fields, }`, `(fields,) where .. ;` or `where .. ;`.
pub open spec fn write_body(d: SStruct) -> Seq<STok> {
    match d.shape {
        Shape::Named => write_where(d.where_body) + seq![
            STok::Group(Delim::Brace, join_commas(field_pieces(d.fields, true))),
        ],
        Shape::Tuple => seq![STok::Group(Delim::Paren, join_commas(field_pieces(d.fields, false)))]
            + write_where(d.where_body) + seq![sp(';')],
        Shape::Unit => write_where(d.where_body) + seq![sp(';')],
    }
}

/// The declaration `struct Name<params> body` of struct `d`, written plainly.
pub open spec fn write_struct(d: SStruct) -> Seq<STok> {
    seq![STok::Ident("struct"@), STok::Ident(d.name)] + write_generics(d.params) + write_body(d)
}

/// Whether struct `d` can be written plainly and read back: well-written
/// parameters and fields, and no fields for a unit struct.
pub open spec fn well_written(d: SStruct) -> bool {
    &&& forall|k: int| 0 <= k < d.params.len() ==> well_written_param(#[trigger] d.params[k])
    &&& forall|k: int|
        0 <= k < d.fields.len() ==> well_written_field(#[trigger] d.fields[k], d.shape == Shape::Named)
    &&& d.shape == Shape::Unit ==> d.fields.len() == 0
}

/// The written fields of a well-written struct split back into their pieces
/// and are read back as they are.
proof fn lemma_read_written_fields(fs: Seq<SField>, named: bool)
    requires
        forall|k: int| 0 <= k < fs.len() ==> well_written_field(#[trigger] fs[k], named),
    ensures
        parse_fields(split_commas(join_commas(field_pieces(fs, named))), 0, named) == Some(fs),
{
    let pieces = field_pieces(fs, named);
    assert(all_plain(pieces)) by {
        assert forall|i: int| 0 <= i < pieces.len() implies plain_piece(#[trigger] pieces[i]) by {
            lemma_written_field_plain(fs[i], named);
        }
    }
    lemma_split_join(pieces);
    lemma_read_fields(fs, named, 0);
    assert(fs.subrange(0, fs.len() as int) =~= fs);
}

/// The `where` clause written for `w` is read back as `w`.
proof fn lemma_read_where(w: Seq<STok>)
    ensures
        where_of(write_where(w)) == Some(w),
{
    if w.len() > 0 {
        let ww = write_where(w);
        assert(ww.subrange(1, ww.len() as int) =~= w);
    } else {
        assert(write_where(w) =~= Seq::<STok>::empty());
    }
}

/// The written body of a well-written struct is read back as that struct.
proof fn lemma_read_body(d: SStruct)
    requires
        well_written(d),
    ensures
        parse_body(d.name, d.params, write_body(d)) == Ok::<SStruct, SError>(d),
{
    let r = write_body(d);
    let n = r.len() as int;
    lemma_read_where(d.where_body);
    match d.shape {
        Shape::Named => {
            lemma_read_written_fields(d.fields, true);
            assert(r.subrange(0, n - 1) =~= write_where(d.where_body));
            assert(r[n - 1] == STok::Group(Delim::Brace, join_commas(field_pieces(d.fields, true))));
            if d.where_body.len() > 0 {
                assert(r[0] == STok::Ident("where"@));
            }
        },
        Shape::Tuple => {
            lemma_read_written_fields(d.fields, false);
            assert(r.subrange(1, n - 1) =~= write_where(d.where_body));
            assert(r[n - 1] == sp(';'));
        },
        Shape::Unit => {
            assert(r.subrange(0, n - 1) =~= write_where(d.where_body));
            assert(r[n - 1] == sp(';'));
            if d.where_body.len() > 0 {
                assert(r[0] == STok::Ident("where"@));
            }
            assert(d.fields =~= Seq::<SField>::empty());
        },
    }
}

/// The derive reads back what is written: a well-written struct, written
/// plainly, is read as exactly that struct, with its parameters, `where`
/// clause, fields and their attributes as they were written.
pub proof fn law_reads_back_what_is_written(d: SStruct)
    requires
        well_written(d),
    ensures
        parse_struct(write_struct(d)) == Ok::<SStruct, SError>(d),
{
    let s = write_struct(d);
    let n = s.len() as int;
    let body = write_body(d);
    assert(s[0] == STok::Ident("struct"@));
    assert(s[1] == STok::Ident(d.name));
    assert(!is_attr_at(s, 0));
    assert(attrs_end(s, 0) == 0);
    reveal_strlit("struct");
    reveal_strlit("pub");
    assert("struct"@.len() == 6);
    assert("pub"@.len() == 3);
    assert("struct"@ != "pub"@);
    reveal_strlit("enum");
    reveal_strlit("union");
    assert("enum"@.len() == 4);
    assert("union"@.len() == 5);
    assert(s[0] != STok::Ident("enum"@) && s[0] != STok::Ident("union"@));
    assert(s[0] != STok::Ident("pub"@));
    assert(keyword_at(s) == 0);
    lemma_read_body(d);
    if d.params.len() > 0 {
        let pieces = param_pieces(d.params);
        let j = join_commas(pieces);
        assert(all_plain(pieces)) by {
            assert forall|i: int| 0 <= i < pieces.len() implies plain_piece(#[trigger] pieces[i]) by {
                assert(well_written_param(d.params[i]));
            }
        }
        let after = s.subrange(3, n);
        assert(after =~= j + seq![sp('>')] + body);
        assert(s[2] == sp('<'));
        lemma_first_close(pieces, body, 0);
        assert(after.subrange(0, j.len() as int) =~= j);
        lemma_split_join(pieces);
        lemma_read_params(d.params, 0);
        assert(d.params.subrange(0, d.params.len() as int) =~= d.params);
        assert(s.subrange(3 + j.len() as int + 1, n) =~= body);
        assert(first_top(after, 0, Stop::CloseAngle) == Some(j.len() as int));
        assert(split_commas(after.subrange(0, j.len() as int)) == pieces);
        assert(parse_params(pieces, 0) == Some(d.params));
        assert(crate::parse::ident_text(s[1]) == d.name);
        assert(parse_struct(s) == parse_body(d.name, d.params, body));
    } else {
        assert(s.subrange(2, n) =~= body);
        assert(s[2] == body[0]);
        match d.shape {
            Shape::Named => {
                if d.where_body.len() > 0 {
                    assert(body[0] == STok::Ident("where"@));
                } else {
                    assert(body[0] == STok::Group(Delim::Brace, join_commas(field_pieces(d.fields, true))));
                }
            },
            Shape::Tuple => {
                assert(body[0] == STok::Group(Delim::Paren, join_commas(field_pieces(d.fields, false))));
            },
            Shape::Unit => {
                if d.where_body.len() > 0 {
                    assert(body[0] == STok::Ident("where"@));
                } else {
                    assert(body[0] == sp(';'));
                }
            },
        }
        assert(!is_punct_spec(s[2], '<'));
        assert(d.params =~= Seq::<SParam>::empty());
        assert(crate::parse::ident_text(s[1]) == d.name);
        assert(parse_struct(s) == parse_body(d.name, d.params, body));
    }
}

/// What is written is what is wired: a well-written struct whose field
/// attributes are accepted gets the `Wire` impl of exactly that struct.
pub proof fn law_written_struct_is_wired(d: SStruct, inits: Seq<SInit>)
    requires
        well_written(d),
        field_inits(d.fields, 0) == Ok::<Seq<SInit>, SError>(inits),
    ensures
        wire_derivation(write_struct(d)) == Ok::<Seq<STok>, SError>(wire_impl(d, inits)),
{
    law_reads_back_what_is_written(d);
}

} // verus!
