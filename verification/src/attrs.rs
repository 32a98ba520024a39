//! The field attributes the derives read: `#[wire(..)]` and `#[context(..)]`.
use vstd::prelude::*;
use crate::model::{segs_of, DeriveError, SError};
use crate::parse::{group_inner, is_group};
use crate::tokens::{copy_toks, is_ident, is_punct, is_punct_spec, lemma_toks_view, toks_view, Delim, STok, Tok};

verus! {

/// How the derived `Wire` impl builds one field.
pub enum FieldInit {
    /// `<Ty as hewn::Wire<__Ctx>>::wire(__ctx)`, with a `Ty: hewn::Wire<__Ctx>` bound.
    Wired,
    /// `#[wire(skip)]`: `::core::default::Default::default()`, no bound.
    Skip,
    /// `#[wire(with = path)]`: `path(__ctx)`, no bound.
    With(Vec<Tok>),
    /// `#[wire(default = expr)]`: `expr`, no bound.
    Default(Vec<Tok>),
}

/// The value of a field's construction rule.
pub enum SInit {
    Wired,
    Skip,
    With(Seq<STok>),
    Default(Seq<STok>),
}

impl View for FieldInit {
    type V = SInit;

    open spec fn view(&self) -> SInit {
        match self {
            FieldInit::Wired => SInit::Wired,
            FieldInit::Skip => SInit::Skip,
            FieldInit::With(p) => SInit::With(toks_view(p@)),
            FieldInit::Default(e) => SInit::Default(toks_view(e@)),
        }
    }
}

/// The arguments of attribute contents `body` when its name is `ns`:
/// nothing if the attribute is another one, the tokens inside the parentheses
/// of `ns(..)`, and an error for any other form of `ns`.
pub open spec fn attr_args(body: Seq<STok>, ns: Seq<char>) -> Option<Result<Seq<STok>, SError>> {
    if body.len() >= 1 && body[0] == STok::Ident(ns) {
        if body.len() == 2 && is_group(body[1], Delim::Paren) {
            Some(Ok(group_inner(body[1])))
        } else {
            Some(Err(SError::BadAttribute))
        }
    } else {
        None
    }
}

/// The rule named by the arguments of `wire(..)`.
pub open spec fn wire_option(c: Seq<STok>) -> Result<SInit, SError> {
    if c == seq![STok::Ident("skip"@)] {
        Ok(SInit::Skip)
    } else if c.len() >= 3 && c[0] == STok::Ident("with"@) && is_punct_spec(c[1], '=') {
        Ok(SInit::With(c.subrange(2, c.len() as int)))
    } else if c.len() >= 3 && c[0] == STok::Ident("default"@) && is_punct_spec(c[1], '=') {
        Ok(SInit::Default(c.subrange(2, c.len() as int)))
    } else {
        Err(SError::UnknownOption)
    }
}

/// The rule for a field whose attribute contents are `attrs[i..]`, where
/// `found` is the rule of a `wire` attribute met before `i`, if any.
/// A field takes at most one `wire` attribute; without one it is wired.
pub open spec fn field_init(attrs: Seq<Seq<STok>>, i: int, found: Option<SInit>) -> Result<SInit, SError>
    decreases attrs.len() - i,
{
    if i < 0 || i >= attrs.len() {
        match found {
            Some(o) => Ok(o),
            None => Ok(SInit::Wired),
        }
    } else {
        match attr_args(attrs[i], "wire"@) {
            None => field_init(attrs, i + 1, found),
            Some(Err(e)) => Err(e),
            Some(Ok(c)) => match wire_option(c) {
                Err(e) => Err(e),
                Ok(o) => if found is Some {
                    Err(SError::ConflictingOptions)
                } else {
                    field_init(attrs, i + 1, Some(o))
                },
            },
        }
    }
}

/// Whether a context field whose attribute contents are `attrs[i..]` is
/// skipped, where `found` says a `context` attribute was met before `i`.
/// The one option is `context(skip)`; a field takes at most one.
pub open spec fn context_skip(attrs: Seq<Seq<STok>>, i: int, found: bool) -> Result<bool, SError>
    decreases attrs.len() - i,
{
    if i < 0 || i >= attrs.len() {
        Ok(found)
    } else {
        match attr_args(attrs[i], "context"@) {
            None => context_skip(attrs, i + 1, found),
            Some(Err(e)) => Err(e),
            Some(Ok(c)) => if c != seq![STok::Ident("skip"@)] {
                Err(SError::UnknownOption)
            } else if found {
                Err(SError::ConflictingOptions)
            } else {
                context_skip(attrs, i + 1, true)
            },
        }
    }
}

/// The value of a result that holds a rule.
pub open spec fn init_result(r: Result<FieldInit, DeriveError>) -> Result<SInit, SError> {
    match r {
        Ok(o) => Ok(o@),
        Err(e) => Err(e@),
    }
}

/// The value of a result that holds a flag.
pub open spec fn flag_result(r: Result<bool, DeriveError>) -> Result<bool, SError> {
    match r {
        Ok(b) => Ok(b),
        Err(e) => Err(e@),
    }
}

/// The value of what `read_attr_args` returns.
pub open spec fn args_result(r: Option<Result<Vec<Tok>, DeriveError>>) -> Option<Result<Seq<STok>, SError>> {
    match r {
        None => None,
        Some(Ok(v)) => Some(Ok(toks_view(v@))),
        Some(Err(e)) => Some(Err(e@)),
    }
}

/// The arguments of attribute contents `body` named `ns`, as `attr_args` says.
pub fn read_attr_args(body: &Vec<Tok>, ns: &str) -> (r: Option<Result<Vec<Tok>, DeriveError>>)
    ensures
        args_result(r) == attr_args(toks_view(body@), ns@),
{
    proof {
        lemma_toks_view(body@);
    }
    let n = body.len();
    if n >= 1 && is_ident(&body[0], ns) {
        if n == 2 {
            match &body[1] {
                Tok::Group(Delim::Paren, inner) => {
                    let c = copy_toks(inner, 0, inner.len());
                    proof {
                        lemma_toks_view(inner@);
                        assert(toks_view(inner@).subrange(0, inner@.len() as int) == toks_view(
                            inner@,
                        ));
                    }
                    return Some(Ok(c));
                },
                _ => {},
            }
        }
        Some(Err(DeriveError::BadAttribute))
    } else {
        None
    }
}

/// The rule named by the arguments `c` of `wire(..)`, as `wire_option` says.
pub fn read_wire_option(c: &Vec<Tok>) -> (r: Result<FieldInit, DeriveError>)
    ensures
        init_result(r) == wire_option(toks_view(c@)),
{
    let ghost s = toks_view(c@);
    proof {
        lemma_toks_view(c@);
        reveal_strlit("skip");
        reveal_strlit("with");
        reveal_strlit("default");
    }
    let n = c.len();
    if n == 1 && is_ident(&c[0], "skip") {
        proof {
            assert(s =~= seq![STok::Ident("skip"@)]);
        }
        return Ok(FieldInit::Skip);
    }
    proof {
        if s == seq![STok::Ident("skip"@)] {
            assert(s[0] == STok::Ident("skip"@));
        }
    }
    if n >= 3 && is_ident(&c[0], "with") && is_punct(&c[1], '=') {
        return Ok(FieldInit::With(copy_toks(c, 2, n)));
    }
    if n >= 3 && is_ident(&c[0], "default") && is_punct(&c[1], '=') {
        return Ok(FieldInit::Default(copy_toks(c, 2, n)));
    }
    Err(DeriveError::UnknownOption)
}

/// The rule for a field with attribute contents `attrs`, as `field_init` says.
pub fn read_field_init(attrs: &Vec<Vec<Tok>>) -> (r: Result<FieldInit, DeriveError>)
    ensures
        init_result(r) == field_init(segs_of(attrs@), 0, None),
{
    let ghost ss = segs_of(attrs@);
    let mut found: Option<FieldInit> = None;
    let mut i: usize = 0;
    while i < attrs.len()
        invariant
            i <= attrs.len(),
            ss == segs_of(attrs@),
            ss.len() == attrs@.len(),
            field_init(ss, 0, None) == field_init(
                ss,
                i as int,
                match found {
                    Some(o) => Some(o@),
                    None => None,
                },
            ),
        decreases attrs.len() - i,
    {
        match read_attr_args(&attrs[i], "wire") {
            None => {},
            Some(Err(e)) => {
                return Err(e);
            },
            Some(Ok(c)) => {
                match read_wire_option(&c) {
                    Err(e) => {
                        return Err(e);
                    },
                    Ok(o) => {
                        if found.is_some() {
                            return Err(DeriveError::ConflictingOptions);
                        }
                        found = Some(o);
                    },
                }
            },
        }
        i = i + 1;
    }
    match found {
        Some(o) => Ok(o),
        None => Ok(FieldInit::Wired),
    }
}

/// Whether a context field with attribute contents `attrs` is skipped, as
/// `context_skip` says.
pub fn read_context_skip(attrs: &Vec<Vec<Tok>>) -> (r: Result<bool, DeriveError>)
    ensures
        flag_result(r) == context_skip(segs_of(attrs@), 0, false),
{
    let ghost ss = segs_of(attrs@);
    proof {
        reveal_strlit("skip");
    }
    let mut found = false;
    let mut i: usize = 0;
    while i < attrs.len()
        invariant
            i <= attrs.len(),
            ss == segs_of(attrs@),
            ss.len() == attrs@.len(),
            context_skip(ss, 0, false) == context_skip(ss, i as int, found),
        decreases attrs.len() - i,
    {
        match read_attr_args(&attrs[i], "context") {
            None => {},
            Some(Err(e)) => {
                return Err(e);
            },
            Some(Ok(c)) => {
                proof {
                    lemma_toks_view(c@);
                }
                let is_skip = c.len() == 1 && is_ident(&c[0], "skip");
                proof {
                    let cv = toks_view(c@);
                    if c.len() == 1 {
                        assert(cv =~= seq![cv[0]]);
                    }
                    if cv == seq![STok::Ident("skip"@)] {
                        assert(cv[0] == STok::Ident("skip"@));
                    }
                    assert(is_skip == (cv == seq![STok::Ident("skip"@)]));
                }
                if !is_skip {
                    return Err(DeriveError::UnknownOption);
                }
                if found {
                    return Err(DeriveError::ConflictingOptions);
                }
                found = true;
            },
        }
        i = i + 1;
    }
    Ok(found)
}

} // verus!
