//! How a field's attributes, a declaration's visibility, a generic
//! parameter's name and a struct's shape decide what the derives write.
use vstd::prelude::*;
use crate::attrs::{attr_args, context_skip, field_init, wire_option, SInit};
use crate::derive::{context_derivation, context_skips, field_inits, wire_derivation};
use crate::emit::{path_sep, sp};
use crate::expand::{entry, name_text};
use crate::model::{ParamKind, SError, SField, SParam, Shape};
use crate::parse::{attrs_end, group_inner, is_attr_at, is_group, keyword_at, parse_field, parse_param, parse_struct, vis_end};
use crate::readback::{lemma_read_attrs, write_attrs};
use crate::tokens::{is_punct_spec, Delim, STok};

verus! {

/// Whether attribute contents `a` are not an attribute named `ns`: they do
/// not start with the identifier `ns` (a doc comment, `allow(..)`, ...).
pub open spec fn not_named(a: Seq<STok>, ns: Seq<char>) -> bool {
    a.len() == 0 || a[0] != STok::Ident(ns)
}

/// `wire(opt..)` as attribute contents.
pub open spec fn wire_attr(opt: Seq<STok>) -> Seq<STok> {
    seq![STok::Ident("wire"@), STok::Group(Delim::Paren, opt)]
}

/// Past an inserted attribute, the rule read is the one read from the same
/// attributes without it.
proof fn lemma_field_init_shift(attrs: Seq<Seq<STok>>, k: int, a: Seq<STok>, j: int, found: Option<SInit>)
    requires
        0 <= k <= j <= attrs.len(),
    ensures
        field_init(attrs.insert(k, a), j + 1, found) == field_init(attrs, j, found),
    decreases attrs.len() - j,
{
    let ins = attrs.insert(k, a);
    if j < attrs.len() {
        assert(ins[j + 1] == attrs[j]);
        match attr_args(attrs[j], "wire"@) {
            None => lemma_field_init_shift(attrs, k, a, j + 1, found),
            Some(Err(_)) => {},
            Some(Ok(c)) => match wire_option(c) {
                Err(_) => {},
                Ok(o) => if found is None {
                    lemma_field_init_shift(attrs, k, a, j + 1, Some(o));
                },
            },
        }
    }
}

/// Inserting an attribute that is not `wire(..)` changes no rule read from `i` on.
proof fn lemma_field_init_insert(attrs: Seq<Seq<STok>>, k: int, a: Seq<STok>, i: int, found: Option<SInit>)
    requires
        0 <= i <= k <= attrs.len(),
        not_named(a, "wire"@),
    ensures
        field_init(attrs.insert(k, a), i, found) == field_init(attrs, i, found),
    decreases k - i,
{
    let ins = attrs.insert(k, a);
    if i == k {
        assert(ins[k] == a);
        lemma_field_init_shift(attrs, k, a, k, found);
    } else {
        assert(ins[i] == attrs[i]);
        match attr_args(attrs[i], "wire"@) {
            None => lemma_field_init_insert(attrs, k, a, i + 1, found),
            Some(Err(_)) => {},
            Some(Ok(c)) => match wire_option(c) {
                Err(_) => {},
                Ok(o) => if found is None {
                    lemma_field_init_insert(attrs, k, a, i + 1, Some(o));
                },
            },
        }
    }
}

/// Attributes other than `wire(..)` do not affect a field's rule: inserting
/// one anywhere in a field's attribute list reads the same rule, or the same
/// refusal.
pub proof fn law_other_attributes_keep_wire_rule(attrs: Seq<Seq<STok>>, k: int, a: Seq<STok>)
    requires
        0 <= k <= attrs.len(),
        not_named(a, "wire"@),
    ensures
        field_init(attrs.insert(k, a), 0, None) == field_init(attrs, 0, None),
{
    lemma_field_init_insert(attrs, k, a, 0, None);
}

/// Attributes that are not `wire(..)` are passed over.
proof fn lemma_field_init_skips_others(attrs: Seq<Seq<STok>>, i: int, k: int, found: Option<SInit>)
    requires
        0 <= i <= k <= attrs.len(),
        forall|m: int| i <= m < k ==> not_named(#[trigger] attrs[m], "wire"@),
    ensures
        field_init(attrs, i, found) == field_init(attrs, k, found),
    decreases k - i,
{
    if i < k {
        assert(not_named(attrs[i], "wire"@));
        lemma_field_init_skips_others(attrs, i + 1, k, found);
    }
}

/// A field whose only `wire` attribute is `attrs[k]` gets the rule that
/// attribute names, whatever other attributes come before or after it:
/// `wire(skip)` gives `Default::default()`, `wire(with = p)` gives `p(__ctx)`
/// and `wire(default = e)` gives `e`. Without any `wire` attribute a field is wired.
pub proof fn law_one_wire_attribute_decides(attrs: Seq<Seq<STok>>, k: int, p: Seq<STok>, eq: bool)
    requires
        0 <= k <= attrs.len(),
        forall|m: int| 0 <= m < attrs.len() && m != k ==> not_named(#[trigger] attrs[m], "wire"@),
        p.len() > 0,
    ensures
        k == attrs.len() ==> field_init(attrs, 0, None) == Ok::<SInit, SError>(SInit::Wired),
        k < attrs.len() && attrs[k] == wire_attr(seq![STok::Ident("skip"@)]) ==> field_init(attrs, 0, None)
            == Ok::<SInit, SError>(SInit::Skip),
        k < attrs.len() && attrs[k] == wire_attr(seq![STok::Ident("with"@), STok::Punct('=', eq)] + p)
            ==> field_init(attrs, 0, None) == Ok::<SInit, SError>(SInit::With(p)),
        k < attrs.len() && attrs[k] == wire_attr(seq![STok::Ident("default"@), STok::Punct('=', eq)] + p)
            ==> field_init(attrs, 0, None) == Ok::<SInit, SError>(SInit::Default(p)),
{
    reveal_strlit("skip");
    reveal_strlit("with");
    reveal_strlit("default");
    reveal_strlit("wire");
    lemma_field_init_skips_others(attrs, 0, k, None);
    if k < attrs.len() {
        let n = attrs.len() as int;
        let a = attrs[k];
        lemma_field_init_skips_others(attrs, k + 1, n, None);
        lemma_field_init_skips_others(attrs, k + 1, n, Some(SInit::Skip));
        lemma_field_init_skips_others(attrs, k + 1, n, Some(SInit::With(p)));
        lemma_field_init_skips_others(attrs, k + 1, n, Some(SInit::Default(p)));
        let cw = seq![STok::Ident("with"@), STok::Punct('=', eq)] + p;
        let cd = seq![STok::Ident("default"@), STok::Punct('=', eq)] + p;
        assert(cw[0] == STok::Ident("with"@) && cw[1] == STok::Punct('=', eq));
        assert(cd[0] == STok::Ident("default"@) && cd[1] == STok::Punct('=', eq));
        assert(cw.subrange(2, cw.len() as int) =~= p);
        assert(cd.subrange(2, cd.len() as int) =~= p);
        assert("default"@ != "with"@) by {
            assert("default"@.len() != "with"@.len());
        }
        assert(cw != seq![STok::Ident("skip"@)]) by {
            assert(cw.len() != 1);
        }
        assert(cd != seq![STok::Ident("skip"@)]) by {
            assert(cd.len() != 1);
        }
        assert(wire_option(seq![STok::Ident("skip"@)]) == Ok::<SInit, SError>(SInit::Skip));
        assert(wire_option(cw) == Ok::<SInit, SError>(SInit::With(p)));
        assert(wire_option(cd) == Ok::<SInit, SError>(SInit::Default(p)));
    } else {
        assert(field_init(attrs, k, None) == Ok::<SInit, SError>(SInit::Wired));
    }
}

/// Attributes other than `wire(..)` on one field leave the rules of all
/// fields, and so the derived impl, unchanged.
pub proof fn law_other_attributes_keep_field_rules(fs: Seq<SField>, j: int, k: int, a: Seq<STok>, i: int)
    requires
        0 <= j < fs.len(),
        0 <= k <= fs[j].attrs.len(),
        0 <= i <= fs.len(),
        not_named(a, "wire"@),
    ensures
        field_inits(fs.update(j, SField { attrs: fs[j].attrs.insert(k, a), ..fs[j] }), i) == field_inits(
            fs,
            i,
        ),
    decreases fs.len() - i,
{
    let fs2 = fs.update(j, SField { attrs: fs[j].attrs.insert(k, a), ..fs[j] });
    if i < fs.len() {
        law_other_attributes_keep_field_rules(fs, j, k, a, i + 1);
        if i == j {
            law_other_attributes_keep_wire_rule(fs[j].attrs, k, a);
        }
        assert(field_init(fs2[i].attrs, 0, None) == field_init(fs[i].attrs, 0, None));
    }
}

/// Past an inserted attribute, the skip flag read is the one read from the
/// same attributes without it.
proof fn lemma_context_skip_shift(attrs: Seq<Seq<STok>>, k: int, a: Seq<STok>, j: int, found: bool)
    requires
        0 <= k <= j <= attrs.len(),
    ensures
        context_skip(attrs.insert(k, a), j + 1, found) == context_skip(attrs, j, found),
    decreases attrs.len() - j,
{
    let ins = attrs.insert(k, a);
    if j < attrs.len() {
        assert(ins[j + 1] == attrs[j]);
        match attr_args(attrs[j], "context"@) {
            None => lemma_context_skip_shift(attrs, k, a, j + 1, found),
            Some(Err(_)) => {},
            Some(Ok(_)) => if !found {
                lemma_context_skip_shift(attrs, k, a, j + 1, true);
            },
        }
    }
}

/// Inserting an attribute that is not `context(..)` changes no flag read from `i` on.
proof fn lemma_context_skip_insert(attrs: Seq<Seq<STok>>, k: int, a: Seq<STok>, i: int, found: bool)
    requires
        0 <= i <= k <= attrs.len(),
        not_named(a, "context"@),
    ensures
        context_skip(attrs.insert(k, a), i, found) == context_skip(attrs, i, found),
    decreases k - i,
{
    let ins = attrs.insert(k, a);
    if i == k {
        assert(ins[k] == a);
        lemma_context_skip_shift(attrs, k, a, k, found);
    } else {
        assert(ins[i] == attrs[i]);
        match attr_args(attrs[i], "context"@) {
            None => lemma_context_skip_insert(attrs, k, a, i + 1, found),
            Some(Err(_)) => {},
            Some(Ok(_)) => if !found {
                lemma_context_skip_insert(attrs, k, a, i + 1, true);
            },
        }
    }
}

/// Attributes other than `context(..)` do not affect whether a context field
/// is skipped: inserting one anywhere reads the same flag, or the same refusal.
pub proof fn law_other_attributes_keep_context_skip(attrs: Seq<Seq<STok>>, k: int, a: Seq<STok>)
    requires
        0 <= k <= attrs.len(),
        not_named(a, "context"@),
    ensures
        context_skip(attrs.insert(k, a), 0, false) == context_skip(attrs, 0, false),
{
    lemma_context_skip_insert(attrs, k, a, 0, false);
}

/// Attributes that are not `context(..)` are passed over.
proof fn lemma_context_skip_skips_others(attrs: Seq<Seq<STok>>, i: int, k: int, found: bool)
    requires
        0 <= i <= k <= attrs.len(),
        forall|m: int| i <= m < k ==> not_named(#[trigger] attrs[m], "context"@),
    ensures
        context_skip(attrs, i, found) == context_skip(attrs, k, found),
    decreases k - i,
{
    if i < k {
        assert(not_named(attrs[i], "context"@));
        lemma_context_skip_skips_others(attrs, i + 1, k, found);
    }
}

/// A context field whose only `context` attribute is `context(skip)` is
/// skipped, whatever other attributes precede or follow it; one without any
/// `context` attribute is not.
pub proof fn law_context_skip_decides(attrs: Seq<Seq<STok>>, k: int)
    requires
        0 <= k <= attrs.len(),
        forall|m: int| 0 <= m < attrs.len() && m != k ==> not_named(#[trigger] attrs[m], "context"@),
    ensures
        k == attrs.len() ==> context_skip(attrs, 0, false) == Ok::<bool, SError>(false),
        k < attrs.len() && attrs[k] == seq![
            STok::Ident("context"@),
            STok::Group(Delim::Paren, seq![STok::Ident("skip"@)]),
        ] ==> context_skip(attrs, 0, false) == Ok::<bool, SError>(true),
{
    lemma_context_skip_skips_others(attrs, 0, k, false);
    if k < attrs.len() {
        lemma_context_skip_skips_others(attrs, k + 1, attrs.len() as int, true);
    }
}

/// Attributes other than `context(..)` on one field leave the skip flags of
/// all fields, and so the derived leaf impls, unchanged.
pub proof fn law_other_attributes_keep_context_skips(fs: Seq<SField>, j: int, k: int, a: Seq<STok>, i: int)
    requires
        0 <= j < fs.len(),
        0 <= k <= fs[j].attrs.len(),
        0 <= i <= fs.len(),
        not_named(a, "context"@),
    ensures
        context_skips(fs.update(j, SField { attrs: fs[j].attrs.insert(k, a), ..fs[j] }), i) == context_skips(
            fs,
            i,
        ),
    decreases fs.len() - i,
{
    let fs2 = fs.update(j, SField { attrs: fs[j].attrs.insert(k, a), ..fs[j] });
    if i < fs.len() {
        law_other_attributes_keep_context_skips(fs, j, k, a, i + 1);
        if i == j {
            law_other_attributes_keep_context_skip(fs[j].attrs, k, a);
        }
        assert(context_skip(fs2[i].attrs, 0, false) == context_skip(fs[i].attrs, 0, false));
    }
}

/// The visibilities Rust writes before an item or a field: `pub`,
/// `pub(crate)`, `pub(self)`, `pub(super)` and `pub(in path)`.
pub open spec fn is_visibility(v: Seq<STok>) -> bool {
    let p = STok::Ident("pub"@);
    ||| v == seq![p]
    ||| v == seq![p, STok::Group(Delim::Paren, seq![STok::Ident("crate"@)])]
    ||| v == seq![p, STok::Group(Delim::Paren, seq![STok::Ident("self"@)])]
    ||| v == seq![p, STok::Group(Delim::Paren, seq![STok::Ident("super"@)])]
    ||| exists|path: Seq<STok>|
        v == seq![p, STok::Group(Delim::Paren, seq![STok::Ident("in"@)] + path)]
}

/// A visibility is read as one, however the tokens after it start, as long as
/// they do not start with a parenthesised group.
proof fn lemma_vis_end(v: Seq<STok>, rest: Seq<STok>, i: int)
    requires
        is_visibility(v),
        rest.len() >= 1,
        !is_group(rest[0], Delim::Paren),
        i == 0,
    ensures
        vis_end(v + rest, i) == v.len(),
{
    let t = v + rest;
    assert(t[0] == v[0]);
    if v.len() == 1 {
        assert(t[1] == rest[0]);
    } else {
        assert(t[1] == v[1]);
        if exists|path: Seq<STok>| v == seq![STok::Ident("pub"@), STok::Group(Delim::Paren, seq![STok::Ident("in"@)] + path)] {
            let path = choose|path: Seq<STok>|
                v == seq![STok::Ident("pub"@), STok::Group(Delim::Paren, seq![STok::Ident("in"@)] + path)];
            let inner = seq![STok::Ident("in"@)] + path;
            assert(group_inner(t[1]) == inner);
            assert(inner[0] == STok::Ident("in"@));
        }
    }
}

/// Two sequences that agree from `ks` and `kt` on agree from `ks + d` and `kt + d` on.
proof fn lemma_tails_equal(s: Seq<STok>, t: Seq<STok>, ks: int, kt: int, d: int)
    requires
        0 <= ks <= s.len(),
        0 <= kt <= t.len(),
        s.subrange(ks, s.len() as int) == t.subrange(kt, t.len() as int),
        0 <= d <= s.len() - ks,
    ensures
        s.subrange(ks + d, s.len() as int) == t.subrange(kt + d, t.len() as int),
{
    let u = s.subrange(ks, s.len() as int);
    assert(u.len() == t.subrange(kt, t.len() as int).len());
    let a = s.subrange(ks + d, s.len() as int);
    let b = t.subrange(kt + d, t.len() as int);
    assert forall|y: int| 0 <= y < s.len() - ks - d implies #[trigger] a[y] == b[y] by {
        assert(s[ks + d + y] == u[d + y]);
        assert(t[kt + d + y] == t.subrange(kt, t.len() as int)[d + y]);
    }
    assert(s.subrange(ks + d, s.len() as int) =~= t.subrange(kt + d, t.len() as int));
}

/// The derive of a struct depends only on what follows its attributes and
/// visibility.
proof fn lemma_parse_struct_from_keyword(s: Seq<STok>, t: Seq<STok>)
    requires
        0 <= keyword_at(s) <= s.len(),
        0 <= keyword_at(t) <= t.len(),
        s.subrange(keyword_at(s), s.len() as int) == t.subrange(keyword_at(t), t.len() as int),
    ensures
        parse_struct(s) == parse_struct(t),
{
    let ks = keyword_at(s);
    let kt = keyword_at(t);
    let n = s.len() as int;
    let m = t.len() as int;
    let u = s.subrange(ks, n);
    assert(n - ks == m - kt) by {
        assert(u.len() == t.subrange(kt, m).len());
    }
    assert forall|x: int| 0 <= x < n - ks implies #[trigger] s[ks + x] == t[kt + x] by {
        assert(s[ks + x] == u[x]);
        assert(t[kt + x] == t.subrange(kt, m)[x]);
    }
    if ks + 2 <= n {
        lemma_tails_equal(s, t, ks, kt, 2);
    }
    if ks + 3 <= n {
        let after = s.subrange(ks + 3, n);
        lemma_tails_equal(s, t, ks, kt, 3);
        if let Some(k) = crate::scan::first_top(after, 0, crate::scan::Stop::CloseAngle) {
            crate::scan::lemma_first_top(after, 0, crate::scan::Stop::CloseAngle);
            lemma_tails_equal(s, t, ks, kt, 2 + 1 + k + 1);
        }
    }
    if ks + 1 < n {
        assert(s[ks + 1] == t[kt + 1]);
    }
    if ks + 2 < n {
        assert(s[ks + 2] == t[kt + 2]);
    }
    if ks < n {
        assert(s[ks] == u[0]);
        assert(t[kt] == t.subrange(kt, m)[0]);
    }
}

/// Visibility does not change the derives' results: a visibility written
/// before a struct declaration gives what the declaration alone gives.
pub proof fn law_visibility_keeps_derive(v: Seq<STok>, s: Seq<STok>)
    requires
        is_visibility(v),
        s.len() >= 1,
        s[0] == STok::Ident("struct"@),
    ensures
        wire_derivation(v + s) == wire_derivation(s),
        context_derivation(v + s) == context_derivation(s),
{
    reveal_strlit("struct");
    reveal_strlit("pub");
    assert("struct"@ != "pub"@) by {
        assert("struct"@.len() != "pub"@.len());
    }
    let t = v + s;
    assert(t[0] == STok::Ident("pub"@)) by {
        assert(t[0] == v[0]);
    }
    assert(!is_attr_at(t, 0));
    assert(attrs_end(t, 0) == 0);
    lemma_vis_end(v, s, 0);
    assert(keyword_at(t) == v.len());
    assert(!is_attr_at(s, 0));
    assert(attrs_end(s, 0) == 0);
    assert(keyword_at(s) == 0);
    assert(t.subrange(v.len() as int, t.len() as int) =~= s.subrange(0, s.len() as int));
    lemma_parse_struct_from_keyword(t, s);
}

/// Visibility does not change how a field is read: a visibility written
/// after a field's attributes and before its name (or its type, in a tuple
/// struct) gives the field read without it.
pub proof fn law_visibility_keeps_field(attrs: Seq<Seq<STok>>, v: Seq<STok>, rest: Seq<STok>, named: bool)
    requires
        is_visibility(v),
        rest.len() >= 1,
        rest[0] is Ident,
        rest[0] != STok::Ident("pub"@),
    ensures
        parse_field(write_attrs(attrs) + (v + rest), named) == parse_field(write_attrs(attrs) + rest, named),
{
    let w = write_attrs(attrs);
    let m = attrs.len() as int;
    let t = w + (v + rest);
    let s = w + rest;
    crate::readback::lemma_write_attrs(attrs);
    assert((v + rest)[0] == STok::Ident("pub"@)) by {
        assert((v + rest)[0] == v[0]);
    }
    lemma_read_attrs(attrs, v + rest, 0);
    lemma_read_attrs(attrs, rest, 0);
    lemma_vis_end(v, rest, 0);
    let vl = v.len() as int;
    assert(t[2 * m] == v[0]);
    if vl == 2 {
        assert(t[2 * m + 1] == v[1]);
    } else {
        assert(t[2 * m + 1] == rest[0]);
    }
    assert(vis_end(t, 2 * m) == 2 * m + vl);
    assert(s[2 * m] == rest[0]);
    assert(vis_end(s, 2 * m) == 2 * m);
    assert(t.subrange(2 * m + vl, t.len() as int) =~= s.subrange(2 * m, s.len() as int));
    assert(t[2 * m + vl] == s[2 * m]);
    if rest.len() > 1 {
        assert(t[2 * m + vl + 1] == s[2 * m + 1]);
    }
    if rest.len() > 2 {
        assert(t.subrange(2 * m + vl + 2, t.len() as int) =~= s.subrange(2 * m + 2, s.len() as int));
    }
}

/// A generic parameter is named by its name alone, whatever its bounds and
/// default: `'x ..` by the two tokens `'x`, `const N ..` by `N`, `T ..` by
/// `T`; and more tokens after its name never change that.
pub proof fn law_param_named_by_name(seg: Seq<STok>, more: Seq<STok>)
    ensures
        seg.len() >= 2 && is_punct_spec(seg[0], '\'') && seg[1] is Ident ==> (parse_param(seg + more)
            is Some && parse_param(seg + more).unwrap().kind == ParamKind::Lifetime && parse_param(
            seg + more,
        ).unwrap().arg == seq![seg[0], seg[1]]),
        seg.len() >= 2 && seg[0] == STok::Ident("const"@) && seg[1] is Ident ==> (parse_param(
            seg + more,
        ) is Some && parse_param(seg + more).unwrap().kind == ParamKind::Const && parse_param(
            seg + more,
        ).unwrap().arg == seq![seg[1]]),
        seg.len() >= 1 && seg[0] is Ident && seg[0] != STok::Ident("const"@) ==> (parse_param(
            seg + more,
        ) is Some && parse_param(seg + more).unwrap().kind == ParamKind::Type && parse_param(
            seg + more,
        ).unwrap().arg == seq![seg[0]]),
{
    let t = seg + more;
    if seg.len() >= 1 {
        assert(t[0] == seg[0]);
    }
    if seg.len() >= 2 {
        assert(t[1] == seg[1]);
        assert(t.subrange(0, 2) =~= seq![seg[0], seg[1]]);
    }
}

/// The `name:` a named struct writes before each field, and nothing for the others.
pub open spec fn name_prefix(f: SField, shape: Shape) -> Seq<STok> {
    if shape == Shape::Named {
        seq![STok::Ident(name_text(f.name)), sp(':')]
    } else {
        Seq::empty()
    }
}

/// A field's entry depends on the struct's shape only by the `name:` prefix;
/// in every shape, a wired field is built by its own `Wire` impl, a `skip`
/// field by `Default::default()`, a `with = p` field by `p(__ctx)` and a
/// `default = e` field by `e`.
pub proof fn law_entry_by_rule(f: SField, init: SInit, shape: Shape)
    ensures
        entry(f, init, shape) == name_prefix(f, shape) + entry(f, init, Shape::Tuple),
        init == SInit::Wired ==> entry(f, init, shape) == name_prefix(f, shape) + seq![sp('<')] + f.ty
            + seq![STok::Ident("as"@), STok::Ident("hewn"@)] + path_sep() + seq![
            STok::Ident("Wire"@),
            sp('<'),
            STok::Ident("__Ctx"@),
            sp('>'),
            sp('>'),
        ] + path_sep() + seq![
            STok::Ident("wire"@),
            STok::Group(Delim::Paren, seq![STok::Ident("__ctx"@)]),
            sp(','),
        ],
        init == SInit::Skip ==> entry(f, init, shape) == name_prefix(f, shape) + path_sep() + seq![
            STok::Ident("core"@),
        ] + path_sep() + seq![STok::Ident("default"@)] + path_sep() + seq![STok::Ident("Default"@)]
            + path_sep() + seq![
            STok::Ident("default"@),
            STok::Group(Delim::Paren, Seq::empty()),
            sp(','),
        ],
        init matches SInit::With(p) ==> entry(f, init, shape) == name_prefix(f, shape) + p + seq![
            STok::Group(Delim::Paren, seq![STok::Ident("__ctx"@)]),
            sp(','),
        ],
        init matches SInit::Default(e) ==> entry(f, init, shape) == name_prefix(f, shape) + e + seq![
            sp(','),
        ],
{
    let pre = name_prefix(f, shape);
    assert(entry(f, init, shape) =~= pre + entry(f, init, Shape::Tuple));
    match init {
        SInit::Wired => {
            assert(entry(f, init, shape) =~= pre + seq![sp('<')] + f.ty + seq![
                STok::Ident("as"@),
                STok::Ident("hewn"@),
            ] + path_sep() + seq![
                STok::Ident("Wire"@),
                sp('<'),
                STok::Ident("__Ctx"@),
                sp('>'),
                sp('>'),
            ] + path_sep() + seq![
                STok::Ident("wire"@),
                STok::Group(Delim::Paren, seq![STok::Ident("__ctx"@)]),
                sp(','),
            ]);
        },
        SInit::Skip => {
            assert(entry(f, init, shape) =~= pre + path_sep() + seq![STok::Ident("core"@)] + path_sep()
                + seq![STok::Ident("default"@)] + path_sep() + seq![STok::Ident("Default"@)]
                + path_sep() + seq![
                STok::Ident("default"@),
                STok::Group(Delim::Paren, Seq::empty()),
                sp(','),
            ]);
        },
        SInit::With(p) => {
            assert(entry(f, init, shape) =~= pre + p + seq![
                STok::Group(Delim::Paren, seq![STok::Ident("__ctx"@)]),
                sp(','),
            ]);
        },
        SInit::Default(e) => {
            assert(entry(f, init, shape) =~= pre + e + seq![sp(',')]);
        },
    }
}

} // verus!
