//! `#[derive(InteractiveClap)]`: for a struct or an enum, the command line
//! counterpart `Cli{Name}` with its conversion from the item, the context
//! scope of the item and, for a struct with a named argument, the enum that
//! carries it; for an enum, also its `from` function.
use vstd::prelude::*;

pub mod from_cli_enum;
pub mod from_cli_for_enum;
pub mod from_cli_for_struct;

use crate::attrs::{
    any_non_group, attr_path_is, context_attrs_ok, has_non_group, ic_tokens, is_ic_attr,
    lemma_ic_tokens_extends, scan, scan_groups, GroupTest, Scan,
};
use crate::derives::interactive_clap::from_cli_enum::{cli_name, cli_name_of, fn_from_cli, spec_fn_from_cli};
use crate::derives::interactive_clap::from_cli_for_struct::{
    named_arg_enum, named_arg_enum_name,
};
use crate::helpers::snake_case_to_camel_case::{camel_convertible, snake_case_to_camel_case, snake_to_camel};
use crate::model::{
    all_named, field_ident, has_ident, fields_of, first_field_type, ident_of, lemma_named_at, named_until_stop, path_is,
    tuple_variants_ok, variant_first_type,
    AttrToken, Attribute, Data, DeriveError, DeriveInput, Field, FieldType, Fields, TokenGroup, Variant,
};
use crate::text::{
    collect_ok, each_followed_by, has_substring, lemma_collect_ok_err, lemma_collect_ok_step,
    lemma_views_push, nonempty_only, push_each_followed_by, push_text, res_view, text_contains,
    text_from, views,
};

verus! {

/// The context scope of a struct: a struct `InteractiveClapContextScopeFor{Name}`
/// with the given fields, and the impl that names it as the item's scope.
pub open spec fn spec_context_scope_for_struct(name: Seq<char>, fields: Seq<Seq<char>>) -> Seq<char> {
    "pub struct InteractiveClapContextScopeFor"@ + name + " { "@ + each_followed_by(fields, " , "@)
        + "} impl interactive_clap :: ToInteractiveClapContextScope for "@ + name
        + " { type InteractiveClapContextScope = InteractiveClapContextScopeFor"@ + name + " ; }"@
}

/// The context scope of a struct (see `spec_context_scope_for_struct`).
pub fn context_scope_for_struct(name: &String, context_scope_fields: Vec<String>) -> (s: String)
    ensures
        s@ == spec_context_scope_for_struct(name@, views(context_scope_fields@)),
{
    let mut s = text_from("pub struct InteractiveClapContextScopeFor");
    push_text(&mut s, name);
    s.append(" { ");
    push_each_followed_by(&mut s, &context_scope_fields, " , ");
    s.append("} impl interactive_clap :: ToInteractiveClapContextScope for ");
    push_text(&mut s, name);
    s.append(" { type InteractiveClapContextScope = InteractiveClapContextScopeFor");
    push_text(&mut s, name);
    s.append(" ; }");
    s
}

/// The context scope of an enum: an alias of its discriminants enum, and the
/// impl that names it as the item's scope.
pub open spec fn spec_context_scope_for_enum(name: Seq<char>) -> Seq<char> {
    "pub type InteractiveClapContextScopeFor"@ + name + " = "@ + name
        + "Discriminants ; impl interactive_clap :: ToInteractiveClapContextScope for "@ + name
        + " { type InteractiveClapContextScope = InteractiveClapContextScopeFor"@ + name + " ; }"@
}

/// The context scope of an enum (see `spec_context_scope_for_enum`).
pub fn context_scope_for_enum(name: &String) -> (s: String)
    ensures
        s@ == spec_context_scope_for_enum(name@),
{
    let mut s = text_from("pub type InteractiveClapContextScopeFor");
    push_text(&mut s, name);
    s.append(" = ");
    push_text(&mut s, name);
    s.append("Discriminants ; impl interactive_clap :: ToInteractiveClapContextScope for ");
    push_text(&mut s, name);
    s.append(" { type InteractiveClapContextScope = InteractiveClapContextScopeFor");
    push_text(&mut s, name);
    s.append(" ; }");
    s
}

/// The type whose command line counterpart a field holds: the argument of
/// `Option<..>` when the type's first path segment is `Option` with angle
/// bracketed arguments, else the type itself.
pub open spec fn cli_inner_type(ty: FieldType) -> Seq<char> {
    match ty.path {
        Some(segs) => if segs@.len() > 0 && segs@[0].ident@ == "Option"@
            && segs@[0].angle_args is Some {
            segs@[0].angle_args.unwrap()@
        } else {
            ty.text@
        },
        None => ty.text@,
    }
}

/// The field of the command line struct for a field `ident: ty`: an optional
/// command line counterpart of the type; the derive stops when the type is
/// not a path or its path has no segment.
pub open spec fn spec_cli_field(ident: Seq<char>, ty: FieldType) -> Result<Seq<char>, DeriveError> {
    match ty.path {
        Some(segs) => if segs@.len() > 0 {
            Ok("pub "@ + ident + " : Option < < "@ + cli_inner_type(ty) + " as ToCli > :: CliVariant >"@)
        } else {
            Err(DeriveError::OnlyPathSegment)
        },
        None => Err(DeriveError::OnlyTypePath),
    }
}

/// Whether a path segment is `Option`.
fn segment_is_option(ty: &FieldType) -> (b: bool)
    requires
        ty.path matches Some(segs) && segs@.len() > 0,
    ensures
        b == (ty.path.unwrap()@[0].ident@ == "Option"@),
{
    match &ty.path {
        Some(segs) => crate::text::text_is(&segs[0].ident, "Option"),
        None => unreached(),
    }
}

/// The field of the command line struct (see `spec_cli_field`).
pub fn cli_field(ident_field: &String, ty: &FieldType) -> (r: Result<String, DeriveError>)
    ensures
        res_view(r) == spec_cli_field(ident_field@, *ty),
{
    match &ty.path {
        Some(segs) => {
            if segs.len() == 0 {
                return Err(DeriveError::OnlyPathSegment);
            }
            let mut s = text_from("pub ");
            push_text(&mut s, ident_field);
            s.append(" : Option < < ");
            let is_option = segment_is_option(ty);
            match &segs[0].angle_args {
                Some(args) => {
                    if is_option {
                        push_text(&mut s, args);
                    } else {
                        push_text(&mut s, &ty.text);
                    }
                },
                None => {
                    push_text(&mut s, &ty.text);
                },
            }
            s.append(" as ToCli > :: CliVariant >");
            Ok(s)
        },
        None => Err(DeriveError::OnlyTypePath),
    }
}

/// The initializer of a field in the conversion from the item to its command
/// line struct: nothing for a skipped field; `Option` fields are converted
/// as they are, other fields are wrapped in `Some`.
pub open spec fn spec_for_cli_field(f: Field, skipped: Seq<Seq<char>>) -> Result<Seq<char>, DeriveError> {
    let id = ident_of(f);
    if skipped.contains(id) {
        Ok(Seq::empty())
    } else {
        match f.ty.path {
            Some(segs) => if segs@.len() > 0 {
                if segs@[0].ident@ == "Option"@ {
                    Ok(id + " : args . "@ + id + " . into ()"@)
                } else {
                    Ok(id + " : Some (args . "@ + id + " . into ())"@)
                }
            } else {
                Err(DeriveError::OnlyPathSegment)
            },
            None => Err(DeriveError::OnlyTypePath),
        }
    }
}

fn text_in(list: &Vec<String>, s: &String) -> (b: bool)
    ensures
        b == views(list@).contains(s@),
{
    let mut i: usize = 0;
    while i < list.len()
        invariant
            i <= list.len(),
            forall|k: int| 0 <= k < i ==> list@[k]@ != s@,
        decreases list.len() - i,
    {
        if list[i] == *s {
            proof {
                assert(views(list@)[i as int] == s@);
            }
            return true;
        }
        i = i + 1;
    }
    proof {
        assert forall|k: int| 0 <= k < views(list@).len() implies views(list@)[k] != s@ by {
            assert(views(list@)[k] == list@[k]@);
        }
    }
    false
}

/// The initializer of a field in the conversion (see `spec_for_cli_field`).
pub fn for_cli_field(field: &Field, ident_skip_field_vec: &Vec<String>) -> (r: Result<String, DeriveError>)
    requires
        has_ident(*field),
    ensures
        res_view(r) == spec_for_cli_field(*field, views(ident_skip_field_vec@)),
{
    let id = field_ident(field);
    if text_in(ident_skip_field_vec, id) {
        return Ok(String::new());
    }
    match &field.ty.path {
        Some(segs) => {
            if segs.len() == 0 {
                return Err(DeriveError::OnlyPathSegment);
            }
            let mut s = id.clone();
            if segment_is_option(&field.ty) {
                s.append(" : args . ");
                push_text(&mut s, id);
                s.append(" . into ()");
            } else {
                s.append(" : Some (args . ");
                push_text(&mut s, id);
                s.append(" . into ())");
            }
            Ok(s)
        },
        None => Err(DeriveError::OnlyTypePath),
    }
}

/// The field's part of the struct's `from` as this derive builds it: nothing;
/// the derive stops when an argument of the item's `#[interactive_clap(..)]`
/// attributes is not a delimited group. The debug printing of the attribute
/// tokens that goes with this scan is left out: this function only computes.
pub open spec fn spec_from_cli_field(ast: DeriveInput) -> Result<Seq<char>, DeriveError> {
    if has_non_group(ast.attrs@) {
        Err(DeriveError::OnlyGroupTokens)
    } else {
        Ok(Seq::empty())
    }
}

/// The field's part of the struct's `from` (see `spec_from_cli_field`).
pub fn from_cli_field(ast: &DeriveInput, _field: &Field) -> (r: Result<String, DeriveError>)
    ensures
        res_view(r) == spec_from_cli_field(*ast),
{
    if any_non_group(&ast.attrs) {
        Err(DeriveError::OnlyGroupTokens)
    } else {
        Ok(String::new())
    }
}

/// What the `#[interactive_clap(..)]` arguments of a field have made of its
/// command line field so far: the field text, the `#[clap(..)]` arguments,
/// the identifiers recorded as skipped, and whether a token that is not a
/// group stopped the derive.
pub type CliFieldState = (Seq<char>, Seq<Seq<char>>, Seq<Seq<char>>, bool);

/// The command line field of a named argument: the enum generated for it.
pub open spec fn named_arg_cli_field(name: Seq<char>, f: Field) -> Seq<char> {
    "pub "@ + ident_of(f) + " : Option < "@ + named_arg_enum_name(f.ty, name) + " >"@
}

/// One argument token's effect: a group mentioning `subcommand`, `long` or
/// `skip` becomes a `#[clap(..)]` argument, and with `skip` the field is
/// dropped and recorded as skipped; otherwise a group mentioning `named_arg`
/// adds `subcommand` and makes the field hold the named argument's enum.
pub open spec fn cli_field_step(st: CliFieldState, tok: AttrToken, name: Seq<char>, f: Field) -> CliFieldState {
    if st.3 {
        st
    } else {
        match tok {
            AttrToken::Group(g) => {
                let s = g.stream_text@;
                if has_substring(s, "subcommand"@) || has_substring(s, "long"@) || has_substring(
                    s,
                    "skip"@,
                ) {
                    if has_substring(s, "skip"@) {
                        (Seq::empty(), st.1.push(s), st.2.push(ident_of(f)), false)
                    } else {
                        (st.0, st.1.push(s), st.2, false)
                    }
                } else if has_substring(s, "named_arg"@) {
                    (named_arg_cli_field(name, f), st.1.push("subcommand"@), st.2, false)
                } else {
                    st
                }
            },
            AttrToken::Other(_) => (st.0, st.1, st.2, true),
        }
    }
}

/// The state after the tokens, in order, from the plain command line field
/// `start`.
pub open spec fn cli_field_fold(toks: Seq<AttrToken>, start: Seq<char>, name: Seq<char>, f: Field) -> CliFieldState
    decreases toks.len(),
{
    if toks.len() == 0 {
        (start, Seq::empty(), Seq::empty(), false)
    } else {
        cli_field_step(cli_field_fold(toks.drop_last(), start, name, f), toks.last(), name, f)
    }
}

/// The command line field that the derive generates for a field, with its
/// `#[clap(..)]` arguments; empty when the field is skipped.
pub open spec fn spec_cli_field_entry(name: Seq<char>, f: Field) -> Result<Seq<char>, DeriveError> {
    match spec_cli_field(ident_of(f), f.ty) {
        Err(e) => Err(e),
        Ok(c0) => if f.attrs@.len() == 0 {
            Ok(c0)
        } else {
            let st = cli_field_fold(ic_tokens(f.attrs@), c0, name, f);
            if st.3 {
                Err(DeriveError::OnlyGroupTokens)
            } else if st.0.len() == 0 {
                Ok(Seq::empty())
            } else if st.1.len() > 0 {
                Ok("# [clap ("@ + each_followed_by(st.1, " , "@) + ")] "@ + st.0)
            } else {
                Ok(st.0)
            }
        },
    }
}

/// A field whose `#[interactive_clap(..)]` arguments are a single group with
/// the stream `s`, of a path type: a group mentioning `skip` drops the field;
/// otherwise a group mentioning `subcommand` or `long` is passed on whole as
/// the field's one `#[clap(..)]` argument; otherwise a group mentioning
/// `named_arg` turns the field into the named argument's enum, as a
/// subcommand; any other group leaves the plain optional field.
pub proof fn lemma_cli_field_of_one_group(name: Seq<char>, f: Field, g: TokenGroup)
    requires
        has_ident(f),
        ic_tokens(f.attrs@) == seq![AttrToken::Group(g)],
        f.ty.path matches Some(segs) && segs@.len() > 0,
    ensures
        ({
            let s = g.stream_text@;
            let plain = "pub "@ + ident_of(f) + " : Option < < "@ + cli_inner_type(f.ty)
                + " as ToCli > :: CliVariant >"@;
            let r = spec_cli_field_entry(name, f);
            &&& has_substring(s, "skip"@) ==> r == Ok::<Seq<char>, DeriveError>(Seq::empty())
            &&& !has_substring(s, "skip"@) && (has_substring(s, "subcommand"@) || has_substring(
                s,
                "long"@,
            )) ==> r == Ok::<Seq<char>, DeriveError>("# [clap ("@ + s + " , )] "@ + plain)
            &&& !has_substring(s, "skip"@) && !has_substring(s, "subcommand"@) && !has_substring(
                s,
                "long"@,
            ) && has_substring(s, "named_arg"@) ==> r == Ok::<Seq<char>, DeriveError>(
                "# [clap (subcommand , )] pub "@ + ident_of(f) + " : Option < "@
                    + named_arg_enum_name(f.ty, name) + " >"@,
            )
            &&& !has_substring(s, "skip"@) && !has_substring(s, "subcommand"@) && !has_substring(
                s,
                "long"@,
            ) && !has_substring(s, "named_arg"@) ==> r == Ok::<Seq<char>, DeriveError>(plain)
        }),
{
    reveal_strlit("pub ");
    if f.attrs@.len() == 0 {
        assert(ic_tokens(f.attrs@) =~= Seq::<AttrToken>::empty());
    }
    let toks = seq![AttrToken::Group(g)];
    assert(toks.drop_last() =~= Seq::<AttrToken>::empty());
    let s = g.stream_text@;
    assert(seq![s].drop_last() =~= Seq::<Seq<char>>::empty());
    assert(seq!["subcommand"@].drop_last() =~= Seq::<Seq<char>>::empty());
    let plain = "pub "@ + ident_of(f) + " : Option < < "@ + cli_inner_type(f.ty)
        + " as ToCli > :: CliVariant >"@;
    assert(plain.len() > 0);
    assert(each_followed_by(Seq::<Seq<char>>::empty(), " , "@) =~= Seq::<char>::empty());
    assert(seq![s].last() == s);
    assert(each_followed_by(seq![s], " , "@) =~= s + " , "@);
    assert(seq!["subcommand"@].last() == "subcommand"@);
    assert(each_followed_by(seq!["subcommand"@], " , "@) =~= "subcommand"@ + " , "@);
    assert(spec_cli_field(ident_of(f), f.ty) == Ok::<Seq<char>, DeriveError>(plain));
    let st0: CliFieldState = (plain, Seq::empty(), Seq::empty(), false);
    assert(cli_field_fold(toks.drop_last(), plain, name, f) == st0);
    assert(cli_field_fold(toks, plain, name, f) == cli_field_step(st0, AttrToken::Group(g), name, f));
    assert(("# [clap ("@ + (s + " , "@) + ")] "@ + plain) =~= ("# [clap ("@ + s + " , )] "@ + plain)) by {
        reveal_strlit(" , ");
        reveal_strlit(")] ");
        reveal_strlit(" , )] ");
    }
    assert(("# [clap ("@ + ("subcommand"@ + " , "@) + ")] "@ + named_arg_cli_field(name, f))
        =~= ("# [clap (subcommand , )] pub "@ + ident_of(f) + " : Option < "@ + named_arg_enum_name(
        f.ty,
        name,
    ) + " >"@)) by {
        reveal_strlit(" , ");
        reveal_strlit(")] ");
        reveal_strlit("subcommand");
        reveal_strlit("# [clap (");
        reveal_strlit("# [clap (subcommand , )] pub ");
    }
}

/// The identifiers that a field records as skipped.
pub open spec fn field_skips(name: Seq<char>, f: Field) -> Seq<Seq<char>> {
    match spec_cli_field(ident_of(f), f.ty) {
        Err(_) => Seq::empty(),
        Ok(c0) => if f.attrs@.len() == 0 {
            Seq::empty()
        } else {
            cli_field_fold(ic_tokens(f.attrs@), c0, name, f).2
        },
    }
}

/// The identifiers that the fields record as skipped, in order.
pub open spec fn all_skips(name: Seq<char>, fields: Seq<Field>) -> Seq<Seq<char>>
    decreases fields.len(),
{
    if fields.len() == 0 {
        Seq::empty()
    } else {
        all_skips(name, fields.drop_last()) + field_skips(name, fields.last())
    }
}

/// The command line field of one field (see `spec_cli_field_entry`); the
/// identifiers it records as skipped are appended to `skips`.
fn cli_field_entry(name: &String, field: &Field, skips: &mut Vec<String>) -> (r: Result<String, DeriveError>)
    requires
        has_ident(*field),
    ensures
        res_view(r) == spec_cli_field_entry(name@, *field),
        r is Ok ==> views(final(skips)@) == views(old(skips)@) + field_skips(name@, *field),
{
    let id = field_ident(field);
    let c0 = match cli_field(id, &field.ty) {
        Ok(c) => c,
        Err(e) => {
            return Err(e);
        },
    };
    if field.attrs.len() == 0 {
        proof {
            assert(views(skips@) + Seq::<Seq<char>>::empty() =~= views(skips@));
        }
        return Ok(c0);
    }
    let ghost start_skips = views(skips@);
    let ghost f = *field;
    let ghost nm = name@;
    let attrs = &field.attrs;
    let mut cli = c0;
    let mut clap_attrs: Vec<String> = Vec::new();
    let mut i: usize = 0;
    proof {
        assert(ic_tokens(attrs@.take(0)) =~= Seq::<AttrToken>::empty());
        assert(views(skips@) =~= start_skips + Seq::<Seq<char>>::empty());
        assert(views(clap_attrs@) =~= Seq::<Seq<char>>::empty());
    }
    while i < attrs.len()
        invariant
            i <= attrs.len(),
            attrs == &field.attrs,
            f == *field,
            nm == name@,
            id@ == ident_of(f),
            spec_cli_field(ident_of(f), f.ty) == Ok::<Seq<char>, DeriveError>(c0@),
            ({
                let st = cli_field_fold(ic_tokens(attrs@.take(i as int)), c0@, nm, f);
                &&& !st.3
                &&& cli@ == st.0
                &&& views(clap_attrs@) == st.1
                &&& views(skips@) == start_skips + st.2
            }),
        decreases attrs.len() - i,
    {
        let a = &attrs[i];
        let ghost before = ic_tokens(attrs@.take(i as int));
        proof {
            lemma_ic_tokens_extends(attrs@, i as int);
            assert(before + a.tokens@.take(0) =~= before);
        }
        if is_ic_attr(a) {
            let mut j: usize = 0;
            while j < a.tokens.len()
                invariant
                    i < attrs.len(),
                    attrs@[i as int] == *a,
                    crate::attrs::is_interactive_clap(*a),
                    before == ic_tokens(attrs@.take(i as int)),
                    attrs == &field.attrs,
                    f == *field,
                    spec_cli_field(ident_of(f), f.ty) == Ok::<Seq<char>, DeriveError>(c0@),
                    nm == name@,
                    id@ == ident_of(f),
                    j <= a.tokens.len(),
                    ({
                        let st = cli_field_fold(before + a.tokens@.take(j as int), c0@, nm, f);
                        &&& !st.3
                        &&& cli@ == st.0
                        &&& views(clap_attrs@) == st.1
                        &&& views(skips@) == start_skips + st.2
                    }),
                decreases a.tokens.len() - j,
            {
                let ghost seen = before + a.tokens@.take(j + 1);
                proof {
                    assert(seen.drop_last() =~= before + a.tokens@.take(j as int));
                    assert(seen.last() == a.tokens@[j as int]);
                }
                match &a.tokens[j] {
                    AttrToken::Group(g) => {
                        let s = &g.stream_text;
                        let has_skip = text_contains(s.as_str(), "skip");
                        if text_contains(s.as_str(), "subcommand") || text_contains(s.as_str(), "long")
                            || has_skip {
                            let piece = s.clone();
                            proof {
                                lemma_views_push(clap_attrs@, piece);
                            }
                            clap_attrs.push(piece);
                            if has_skip {
                                let skipped = id.clone();
                                proof {
                                    lemma_views_push(skips@, skipped);
                                    let st = cli_field_fold(before + a.tokens@.take(j as int), c0@, nm, f);
                                    assert(start_skips + st.2.push(id@) =~= (start_skips + st.2).push(id@));
                                }
                                skips.push(skipped);
                                cli = String::new();
                            }
                        } else if text_contains(s.as_str(), "named_arg") {
                            let sub = text_from("subcommand");
                            proof {
                                lemma_views_push(clap_attrs@, sub);
                            }
                            clap_attrs.push(sub);
                            let en = named_arg_enum(&field.ty, name);
                            let mut c = text_from("pub ");
                            push_text(&mut c, id);
                            c.append(" : Option < ");
                            push_text(&mut c, &en);
                            c.append(" >");
                            cli = c;
                        }
                    },
                    AttrToken::Other(_) => {
                        proof {
                            lemma_cli_field_fold_stops(ic_tokens(attrs@), seen, c0@, nm, f, i as int, j as int, attrs@);
                        }
                        return Err(DeriveError::OnlyGroupTokens);
                    },
                }
                j = j + 1;
            }
            proof {
                assert(a.tokens@.take(a.tokens.len() as int) =~= a.tokens@);
            }
        }
        i = i + 1;
    }
    proof {
        assert(attrs@.take(attrs.len() as int) =~= attrs@);
    }
    if cli.as_str().unicode_len() == 0 {
        proof {
            assert(cli@ =~= Seq::<char>::empty());
        }
        return Ok(cli);
    }
    if clap_attrs.len() > 0 {
        let mut s = text_from("# [clap (");
        push_each_followed_by(&mut s, &clap_attrs, " , ");
        s.append(")] ");
        push_text(&mut s, &cli);
        Ok(s)
    } else {
        Ok(cli)
    }
}

/// Once a token that is not a group has stopped the derive, later tokens
/// change nothing.
proof fn lemma_cli_field_fold_abort(a: Seq<AttrToken>, b: Seq<AttrToken>, start: Seq<char>, name: Seq<char>, f: Field)
    requires
        cli_field_fold(a, start, name, f).3,
    ensures
        cli_field_fold(a + b, start, name, f).3,
    decreases b.len(),
{
    if b.len() > 0 {
        lemma_cli_field_fold_abort(a, b.drop_last(), start, name, f);
        assert((a + b).drop_last() =~= a + b.drop_last());
    } else {
        assert(a + b =~= a);
    }
}

/// A token that is not a group at the `j`-th place of the `i`-th attribute
/// stops the derive.
proof fn lemma_cli_field_fold_stops(
    all: Seq<AttrToken>,
    seen: Seq<AttrToken>,
    start: Seq<char>,
    name: Seq<char>,
    f: Field,
    i: int,
    j: int,
    attrs: Seq<Attribute>,
)
    requires
        0 <= i < attrs.len(),
        crate::attrs::is_interactive_clap(attrs[i]),
        0 <= j < attrs[i].tokens@.len(),
        seen == ic_tokens(attrs.take(i)) + attrs[i].tokens@.take(j + 1),
        all == ic_tokens(attrs),
        !cli_field_fold(seen.drop_last(), start, name, f).3,
        seen.last() is Other,
    ensures
        cli_field_fold(all, start, name, f).3,
{
    assert(cli_field_fold(seen, start, name, f).3);
    let toks = attrs[i].tokens@;
    lemma_cli_field_fold_abort(seen, toks.skip(j + 1), start, name, f);
    assert(seen + toks.skip(j + 1) =~= ic_tokens(attrs.take(i)) + toks);
    lemma_ic_tokens_extends(attrs, i);
    let rest = choose|rest: Seq<AttrToken>|
        ic_tokens(attrs) == #[trigger] (ic_tokens(attrs.take(i + 1)) + rest);
    lemma_cli_field_fold_abort(ic_tokens(attrs.take(i + 1)), rest, start, name, f);
}

/// The field of the context scope for a field: `pub ident: ty`, for a field
/// without attributes or one whose first argument group (before any other
/// token) mentions none of `subcommand`, `named_arg` and `skip`; empty for
/// the others.
pub open spec fn spec_context_scope_field(f: Field) -> Result<Seq<char>, DeriveError> {
    let text = "pub "@ + ident_of(f) + " : "@ + f.ty.text@;
    if f.attrs@.len() == 0 {
        Ok(text)
    } else {
        match scan(ic_tokens(f.attrs@), GroupTest::NotSubcommandNamedArgNorSkip) {
            Scan::Found => Ok(text),
            Scan::Missing => Ok(Seq::empty()),
            Scan::Abort => Err(DeriveError::OnlyGroupTokens),
        }
    }
}

fn context_scope_field(field: &Field) -> (r: Result<String, DeriveError>)
    requires
        has_ident(*field),
    ensures
        res_view(r) == spec_context_scope_field(*field),
{
    let id = field_ident(field);
    if field.attrs.len() > 0 {
        match scan_groups(&field.attrs, GroupTest::NotSubcommandNamedArgNorSkip) {
            Scan::Found => {},
            Scan::Missing => {
                return Ok(String::new());
            },
            Scan::Abort => {
                return Err(DeriveError::OnlyGroupTokens);
            },
        }
    }
    let mut s = text_from("pub ");
    push_text(&mut s, id);
    s.append(" : ");
    push_text(&mut s, &field.ty.text);
    Ok(s)
}

/// The printed doc attributes among `attrs`, in order.
pub open spec fn doc_texts(attrs: Seq<Attribute>) -> Seq<Seq<char>>
    decreases attrs.len(),
{
    if attrs.len() == 0 {
        Seq::empty()
    } else if path_is(attrs.last(), "doc"@) {
        doc_texts(attrs.drop_last()).push(attrs.last().text@)
    } else {
        doc_texts(attrs.drop_last())
    }
}

fn docs_of(attrs: &Vec<Attribute>) -> (v: Vec<String>)
    ensures
        views(v@) == doc_texts(attrs@),
{
    let mut v: Vec<String> = Vec::new();
    let mut i: usize = 0;
    while i < attrs.len()
        invariant
            i <= attrs.len(),
            views(v@) == doc_texts(attrs@.take(i as int)),
        decreases attrs.len() - i,
    {
        proof {
            assert(attrs@.take(i + 1).drop_last() =~= attrs@.take(i as int));
            assert(attrs@.take(i + 1).last() == attrs@[i as int]);
        }
        if attr_path_is(&attrs[i], "doc") {
            let t = attrs[i].text.clone();
            proof {
                lemma_views_push(v@, t);
            }
            v.push(t);
        }
        i = i + 1;
    }
    proof {
        assert(attrs@.take(attrs.len() as int) =~= attrs@);
    }
    v
}

/// The enum generated for a named argument field: one variant, named after
/// the field in camel case and documented by the field's doc attributes,
/// holding the command line counterpart of the field's type, with the
/// conversion from the type.
pub open spec fn named_arg_enum_text(name: Seq<char>, f: Field) -> Seq<char> {
    let en = named_arg_enum_name(f.ty, name);
    let ty = f.ty.text@;
    let variant = snake_to_camel(ident_of(f));
    "# [derive (Debug , Clone , clap :: Clap , interactive_clap_derive :: ToCliArgs)] pub enum "@ + en
        + " { "@ + each_followed_by(doc_texts(f.attrs@), " "@) + variant + " (< "@ + ty
        + " as ToCli > :: CliVariant) } impl From < "@ + ty + " > for "@ + en
        + " { fn from (item : "@ + ty + ") -> Self { Self :: "@ + variant + " (< "@ + ty
        + " as ToCli > :: CliVariant :: from (item)) } }"@
}

/// The named argument enum's text is never empty.
proof fn lemma_named_arg_enum_text_nonempty(name: Seq<char>, f: Field)
    ensures
        named_arg_enum_text(name, f).len() > 0,
{
    reveal_strlit(
        "# [derive (Debug , Clone , clap :: Clap , interactive_clap_derive :: ToCliArgs)] pub enum ",
    );
}

/// The named argument enum of a field whose first argument group (before any
/// other token) mentions `named_arg`; empty for the others.
pub open spec fn spec_named_arg_enum(name: Seq<char>, f: Field) -> Result<Seq<char>, DeriveError> {
    match scan(ic_tokens(f.attrs@), GroupTest::NamedArg) {
        Scan::Found => Ok(named_arg_enum_text(name, f)),
        Scan::Missing => Ok(Seq::empty()),
        Scan::Abort => Err(DeriveError::OnlyGroupTokens),
    }
}

/// The search for the named argument converts each field's name that it
/// reaches: those up to the first field with a named argument or a token that
/// stops the derive.
pub open spec fn named_arg_search_ok(fields: Seq<Field>) -> bool {
    forall|i: int|
        0 <= i < fields.len() && (forall|j: int|
            0 <= j < i ==> scan(ic_tokens((#[trigger] fields[j]).attrs@), GroupTest::NamedArg)
                == Scan::Missing) ==> camel_convertible(ident_of(#[trigger] fields[i]))
}

fn named_arg_enum_for(name: &String, field: &Field) -> (r: Result<String, DeriveError>)
    requires
        has_ident(*field),
        camel_convertible(ident_of(*field)),
    ensures
        res_view(r) == spec_named_arg_enum(name@, *field),
{
    let id = field_ident(field);
    let variant = snake_case_to_camel_case(id.clone());
    let docs = docs_of(&field.attrs);
    match scan_groups(&field.attrs, GroupTest::NamedArg) {
        Scan::Found => {},
        Scan::Missing => {
            return Ok(String::new());
        },
        Scan::Abort => {
            return Err(DeriveError::OnlyGroupTokens);
        },
    }
    let ty = &field.ty.text;
    let en = named_arg_enum(&field.ty, name);
    let mut s = text_from(
        "# [derive (Debug , Clone , clap :: Clap , interactive_clap_derive :: ToCliArgs)] pub enum ",
    );
    push_text(&mut s, &en);
    s.append(" { ");
    push_each_followed_by(&mut s, &docs, " ");
    push_text(&mut s, &variant);
    s.append(" (< ");
    push_text(&mut s, ty);
    s.append(" as ToCli > :: CliVariant) } impl From < ");
    push_text(&mut s, ty);
    s.append(" > for ");
    push_text(&mut s, &en);
    s.append(" { fn from (item : ");
    push_text(&mut s, ty);
    s.append(") -> Self { Self :: ");
    push_text(&mut s, &variant);
    s.append(" (< ");
    push_text(&mut s, ty);
    s.append(" as ToCli > :: CliVariant :: from (item)) } }");
    Ok(s)
}

#[verifier::spinoff_prover]
fn first_named_arg_enum(name: &String, fields: &Vec<Field>) -> (r: Result<String, DeriveError>)
    requires
        all_named(fields@),
        named_arg_search_ok(fields@),
    ensures
        res_view(r) == crate::text::first_nonempty(
            fields@.map_values(|f: Field| spec_named_arg_enum(name@, f)),
        ),
{
    let ghost rs = fields@.map_values(|f: Field| spec_named_arg_enum(name@, f));
    let mut i: usize = 0;
    proof {
        assert(rs.skip(0) =~= rs);
    }
    while i < fields.len()
        invariant
            i <= fields.len(),
            rs == fields@.map_values(|f: Field| spec_named_arg_enum(name@, f)),
            all_named(fields@),
            named_arg_search_ok(fields@),
            forall|j: int|
                0 <= j < i ==> scan(ic_tokens((#[trigger] fields@[j]).attrs@), GroupTest::NamedArg)
                    == Scan::Missing,
            crate::text::first_nonempty(rs) == crate::text::first_nonempty(rs.skip(i as int)),
        decreases fields.len() - i,
    {
        let f = &fields[i];
        proof {
            assert(has_ident(*f));
            assert(camel_convertible(ident_of(fields@[i as int])));
        }
        let r = named_arg_enum_for(name, f);
        proof {
            assert(rs[i as int] == res_view(r));
        }
        match r {
            Ok(x) => {
                if x.as_str().unicode_len() > 0 {
                    proof {
                        crate::text::lemma_first_nonempty_stop(rs, i as int);
                    }
                    return Ok(x);
                }
                proof {
                    crate::text::lemma_first_nonempty_skip(rs, i as int);
                    lemma_named_arg_enum_text_nonempty(name@, *f);
                }
            },
            Err(e) => {
                proof {
                    crate::text::lemma_first_nonempty_stop(rs, i as int);
                }
                return Err(e);
            },
        }
        i = i + 1;
    }
    proof {
        assert(rs.skip(fields.len() as int) =~= Seq::<Result<Seq<char>, DeriveError>>::empty());
    }
    Ok(String::new())
}

/// The first doc attribute among `attrs`.
pub open spec fn first_doc(attrs: Seq<Attribute>) -> Option<Seq<char>>
    decreases attrs.len(),
{
    if attrs.len() == 0 {
        None
    } else if path_is(attrs[0], "doc"@) {
        Some(attrs[0].text@)
    } else {
        first_doc(attrs.drop_first())
    }
}

/// The variant of the command line enum for a variant of the item: the first
/// doc attribute, then the variant holding the command line counterpart of
/// its first field's type; the derive stops at a variant that is not a tuple
/// variant.
pub open spec fn spec_enum_variant(v: Variant) -> Result<Seq<char>, DeriveError> {
    if v.fields is Unnamed {
        let doc = match first_doc(v.attrs@) {
            Some(t) => t + " "@,
            None => Seq::empty(),
        };
        Ok(doc + v.ident@ + " (< "@ + first_field_type(v) + " as ToCli > :: CliVariant)"@)
    } else {
        Err(DeriveError::OnlyUnnamedFields)
    }
}

/// The variant of the command line enum (see `spec_enum_variant`).
pub fn enum_variant(v: &Variant) -> (r: Result<String, DeriveError>)
    requires
        v.fields matches Fields::Unnamed(f) ==> f@.len() > 0,
    ensures
        res_view(r) == spec_enum_variant(*v),
{
    let ty = match variant_first_type(v) {
        Ok(t) => t,
        Err(e) => {
            return Err(e);
        },
    };
    let mut s = String::new();
    let mut found = false;
    let mut i: usize = 0;
    proof {
        assert(v.attrs@.skip(0) =~= v.attrs@);
    }
    while i < v.attrs.len() && !found
        invariant
            i <= v.attrs.len(),
            !found ==> s@.len() == 0 && first_doc(v.attrs@) == first_doc(v.attrs@.skip(i as int)),
            found ==> (first_doc(v.attrs@) matches Some(t) && s@ == t + " "@),
        decreases v.attrs.len() - i,
    {
        proof {
            assert(v.attrs@.skip(i as int)[0] == v.attrs@[i as int]);
            assert(v.attrs@.skip(i as int).drop_first() =~= v.attrs@.skip(i + 1));
        }
        if attr_path_is(&v.attrs[i], "doc") {
            push_text(&mut s, &v.attrs[i].text);
            s.append(" ");
            found = true;
        }
        i = i + 1;
    }
    proof {
        if !found {
            assert(v.attrs@.skip(i as int) =~= Seq::<Attribute>::empty());
            assert(s@ =~= Seq::<char>::empty());
        }
    }
    push_text(&mut s, &v.ident);
    s.append(" (< ");
    push_text(&mut s, ty);
    s.append(" as ToCli > :: CliVariant)");
    Ok(s)
}

/// The arm converting a variant of the item into the command line variant.
pub open spec fn spec_for_cli_enum_arm(name: Seq<char>, v: Variant) -> Seq<char> {
    name + " :: "@ + v.ident@ + " (arg) => Self :: "@ + v.ident@ + " (arg . into ())"@
}

/// The arms for all variants, in order.
pub fn for_cli_enum_arms(name: &String, variants: &Vec<Variant>) -> (v: Vec<String>)
    ensures
        views(v@) == variants@.map_values(|x: Variant| spec_for_cli_enum_arm(name@, x)),
{
    let mut out: Vec<String> = Vec::new();
    let mut i: usize = 0;
    while i < variants.len()
        invariant
            i <= variants.len(),
            views(out@) == variants@.take(i as int).map_values(
                |x: Variant| spec_for_cli_enum_arm(name@, x),
            ),
        decreases variants.len() - i,
    {
        let mut s = name.clone();
        s.append(" :: ");
        push_text(&mut s, &variants[i].ident);
        s.append(" (arg) => Self :: ");
        push_text(&mut s, &variants[i].ident);
        s.append(" (arg . into ())");
        proof {
            lemma_views_push(out@, s);
            assert(variants@.take(i + 1).map_values(|x: Variant| spec_for_cli_enum_arm(name@, x))
                =~= variants@.take(i as int).map_values(
                |x: Variant| spec_for_cli_enum_arm(name@, x),
            ).push(s@));
        }
        out.push(s);
        i = i + 1;
    }
    proof {
        assert(variants@.take(variants.len() as int) =~= variants@);
    }
    out
}

/// The command line variants for all variants, in order, up to the first
/// that is not a tuple variant.
pub fn enum_variants(variants: &Vec<Variant>) -> (r: Result<Vec<String>, DeriveError>)
    requires
        tuple_variants_ok(variants@),
    ensures
        match collect_ok(variants@.map_values(|v: Variant| spec_enum_variant(v))) {
            Ok(all) => r matches Ok(v) && views(v@) == all,
            Err(e) => r == Err::<Vec<String>, DeriveError>(e),
        },
{
    let ghost rs = variants@.map_values(|v: Variant| spec_enum_variant(v));
    let mut out: Vec<String> = Vec::new();
    let mut i: usize = 0;
    proof {
        assert(rs.take(0) =~= Seq::<Result<Seq<char>, DeriveError>>::empty());
        assert(views(out@) =~= Seq::<Seq<char>>::empty());
    }
    while i < variants.len()
        invariant
            i <= variants.len(),
            rs == variants@.map_values(|v: Variant| spec_enum_variant(v)),
            tuple_variants_ok(variants@),
            forall|j: int| 0 <= j < i ==> (#[trigger] variants@[j]).fields is Unnamed,
            collect_ok(rs.take(i as int)) == Ok::<Seq<Seq<char>>, DeriveError>(views(out@)),
        decreases variants.len() - i,
    {
        let v = &variants[i];
        proof {
            lemma_collect_ok_step(rs, i as int, views(out@));
        }
        let r = enum_variant(v);
        proof {
            assert(rs[i as int] == res_view(r));
        }
        match r {
            Ok(x) => {
                proof {
                    lemma_views_push(out@, x);
                }
                out.push(x);
            },
            Err(e) => {
                proof {
                    lemma_collect_ok_err(rs, i + 1);
                }
                return Err(e);
            },
        }
        i = i + 1;
    }
    proof {
        assert(rs.take(variants.len() as int) =~= rs);
    }
    Ok(out)
}

/// The command line fields of all fields, the empty ones left out, and the
/// identifiers recorded as skipped.
fn cli_fields_of(name: &String, fields: &Vec<Field>) -> (r: Result<(Vec<String>, Vec<String>), DeriveError>)
    requires
        named_until_stop(fields@, fields@.map_values(|f: Field| spec_cli_field_entry(name@, f))),
    ensures
        r is Ok ==> all_named(fields@),
        match collect_ok(fields@.map_values(|f: Field| spec_cli_field_entry(name@, f))) {
            Ok(all) => r matches Ok((v, sk)) && views(v@) == nonempty_only(all) && views(sk@)
                == all_skips(name@, fields@),
            Err(e) => r matches Err(e2) && e2 == e,
        },
{
    let ghost rs = fields@.map_values(|f: Field| spec_cli_field_entry(name@, f));
    let ghost mut all: Seq<Seq<char>> = Seq::empty();
    let mut out: Vec<String> = Vec::new();
    let mut skips: Vec<String> = Vec::new();
    let mut i: usize = 0;
    proof {
        assert(rs.take(0) =~= Seq::<Result<Seq<char>, DeriveError>>::empty());
        assert(views(out@) =~= nonempty_only(all));
        assert(fields@.take(0) =~= Seq::<Field>::empty());
        assert(views(skips@) =~= all_skips(name@, fields@.take(0)));
    }
    while i < fields.len()
        invariant
            i <= fields.len(),
            rs == fields@.map_values(|f: Field| spec_cli_field_entry(name@, f)),
            named_until_stop(fields@, rs),
            forall|j: int| 0 <= j < i ==> has_ident(#[trigger] fields@[j]),
            collect_ok(rs.take(i as int)) == Ok::<Seq<Seq<char>>, DeriveError>(all),
            views(out@) == nonempty_only(all),
            views(skips@) == all_skips(name@, fields@.take(i as int)),
        decreases fields.len() - i,
    {
        let f = &fields[i];
        proof {
            lemma_named_at(fields@, rs, i as int);
            lemma_collect_ok_step(rs, i as int, all);
            assert(fields@.take(i + 1).drop_last() =~= fields@.take(i as int));
            assert(fields@.take(i + 1).last() == *f);
        }
        let r = cli_field_entry(name, f, &mut skips);
        proof {
            assert(rs[i as int] == res_view(r));
        }
        match r {
            Ok(x) => {
                proof {
                    assert(all.push(x@).drop_last() =~= all);
                    all = all.push(x@);
                }
                if x.as_str().unicode_len() > 0 {
                    proof {
                        lemma_views_push(out@, x);
                    }
                    out.push(x);
                }
            },
            Err(e) => {
                proof {
                    lemma_collect_ok_err(rs, i + 1);
                }
                return Err(e);
            },
        }
        i = i + 1;
    }
    proof {
        assert(rs.take(fields.len() as int) =~= rs);
        assert(fields@.take(fields.len() as int) =~= fields@);
    }
    assert(all_named(fields@));
    Ok((out, skips))
}

/// The context scope fields of all fields, the empty ones left out.
fn context_scope_fields_of(fields: &Vec<Field>) -> (r: Result<Vec<String>, DeriveError>)
    requires
        all_named(fields@),
    ensures
        match collect_ok(fields@.map_values(|f: Field| spec_context_scope_field(f))) {
            Ok(all) => r matches Ok(v) && views(v@) == nonempty_only(all),
            Err(e) => r == Err::<Vec<String>, DeriveError>(e),
        },
{
    let ghost rs = fields@.map_values(|f: Field| spec_context_scope_field(f));
    let ghost mut all: Seq<Seq<char>> = Seq::empty();
    let mut out: Vec<String> = Vec::new();
    let mut i: usize = 0;
    proof {
        assert(rs.take(0) =~= Seq::<Result<Seq<char>, DeriveError>>::empty());
        assert(views(out@) =~= nonempty_only(all));
    }
    while i < fields.len()
        invariant
            i <= fields.len(),
            rs == fields@.map_values(|f: Field| spec_context_scope_field(f)),
            all_named(fields@),
            collect_ok(rs.take(i as int)) == Ok::<Seq<Seq<char>>, DeriveError>(all),
            views(out@) == nonempty_only(all),
        decreases fields.len() - i,
    {
        let f = &fields[i];
        proof {
            assert(has_ident(*f));
            lemma_collect_ok_step(rs, i as int, all);
        }
        let r = context_scope_field(f);
        proof {
            assert(rs[i as int] == res_view(r));
        }
        match r {
            Ok(x) => {
                proof {
                    assert(all.push(x@).drop_last() =~= all);
                    all = all.push(x@);
                }
                if x.as_str().unicode_len() > 0 {
                    proof {
                        lemma_views_push(out@, x);
                    }
                    out.push(x);
                }
            },
            Err(e) => {
                proof {
                    lemma_collect_ok_err(rs, i + 1);
                }
                return Err(e);
            },
        }
        i = i + 1;
    }
    proof {
        assert(rs.take(fields.len() as int) =~= rs);
    }
    Ok(out)
}

/// The initializers of the conversion for all fields, the empty ones left
/// out.
fn for_cli_fields_of(fields: &Vec<Field>, skips: &Vec<String>) -> (r: Result<Vec<String>, DeriveError>)
    requires
        all_named(fields@),
    ensures
        match collect_ok(fields@.map_values(|f: Field| spec_for_cli_field(f, views(skips@)))) {
            Ok(all) => r matches Ok(v) && views(v@) == nonempty_only(all),
            Err(e) => r == Err::<Vec<String>, DeriveError>(e),
        },
{
    let ghost rs = fields@.map_values(|f: Field| spec_for_cli_field(f, views(skips@)));
    let ghost mut all: Seq<Seq<char>> = Seq::empty();
    let mut out: Vec<String> = Vec::new();
    let mut i: usize = 0;
    proof {
        assert(rs.take(0) =~= Seq::<Result<Seq<char>, DeriveError>>::empty());
        assert(views(out@) =~= nonempty_only(all));
    }
    while i < fields.len()
        invariant
            i <= fields.len(),
            rs == fields@.map_values(|f: Field| spec_for_cli_field(f, views(skips@))),
            all_named(fields@),
            collect_ok(rs.take(i as int)) == Ok::<Seq<Seq<char>>, DeriveError>(all),
            views(out@) == nonempty_only(all),
        decreases fields.len() - i,
    {
        let f = &fields[i];
        proof {
            assert(has_ident(*f));
            lemma_collect_ok_step(rs, i as int, all);
        }
        let r = for_cli_field(f, skips);
        proof {
            assert(rs[i as int] == res_view(r));
        }
        match r {
            Ok(x) => {
                proof {
                    assert(all.push(x@).drop_last() =~= all);
                    all = all.push(x@);
                }
                if x.as_str().unicode_len() > 0 {
                    proof {
                        lemma_views_push(out@, x);
                    }
                    out.push(x);
                }
            },
            Err(e) => {
                proof {
                    lemma_collect_ok_err(rs, i + 1);
                }
                return Err(e);
            },
        }
        i = i + 1;
    }
    proof {
        assert(rs.take(fields.len() as int) =~= rs);
    }
    Ok(out)
}

/// Every identifier that a field records as skipped is among those of all
/// fields.
proof fn lemma_all_skips_holds(name: Seq<char>, fields: Seq<Field>, i: int, x: Seq<char>)
    requires
        0 <= i < fields.len(),
        field_skips(name, fields[i]).contains(x),
    ensures
        all_skips(name, fields).contains(x),
    decreases fields.len(),
{
    let front = fields.drop_last();
    let own = field_skips(name, fields.last());
    if i == fields.len() - 1 {
        let k = choose|k: int| 0 <= k < own.len() && own[k] == x;
        assert(all_skips(name, fields)[all_skips(name, front).len() + k] == x);
    } else {
        assert(front[i] == fields[i]);
        lemma_all_skips_holds(name, front, i, x);
        let k = choose|k: int| 0 <= k < all_skips(name, front).len() && all_skips(name, front)[k] == x;
        assert(all_skips(name, fields)[k] == x);
    }
}

/// A struct field whose only `#[interactive_clap(..)]` argument is a group
/// mentioning `skip` is left out of the command line struct and left out of
/// the conversion to it.
pub proof fn lemma_skip_leaves_field_out(name: Seq<char>, fields: Seq<Field>, i: int, g: TokenGroup)
    requires
        0 <= i < fields.len(),
        has_ident(fields[i]),
        ic_tokens(fields[i].attrs@) == seq![AttrToken::Group(g)],
        has_substring(g.stream_text@, "skip"@),
        spec_cli_field(ident_of(fields[i]), fields[i].ty) is Ok,
    ensures
        spec_cli_field_entry(name, fields[i]) == Ok::<Seq<char>, DeriveError>(Seq::empty()),
        spec_for_cli_field(fields[i], all_skips(name, fields)) == Ok::<Seq<char>, DeriveError>(
            Seq::empty(),
        ),
{
    let f = fields[i];
    let toks = ic_tokens(f.attrs@);
    let c0 = spec_cli_field(ident_of(f), f.ty).unwrap();
    if f.attrs@.len() == 0 {
        assert(ic_tokens(f.attrs@) =~= Seq::<AttrToken>::empty());
    }
    assert(toks.drop_last() =~= Seq::<AttrToken>::empty());
    let st = cli_field_fold(toks, c0, name, f);
    let st0 = cli_field_fold(toks.drop_last(), c0, name, f);
    assert(st0 == (c0, Seq::<Seq<char>>::empty(), Seq::<Seq<char>>::empty(), false));
    assert(toks.last() == AttrToken::Group(g));
    assert(st == cli_field_step(st0, AttrToken::Group(g), name, f));
    assert(Seq::<Seq<char>>::empty().push(ident_of(f)) =~= seq![ident_of(f)]);
    assert(st.0 =~= Seq::<char>::empty());
    assert(st.2 =~= seq![ident_of(f)]);
    assert(field_skips(name, f)[0] == ident_of(f));
    lemma_all_skips_holds(name, fields, i, ident_of(f));
}

/// What the derive generates for a struct with the given fields.
pub open spec fn struct_items(
    name: Seq<char>,
    cli_fields: Seq<Seq<char>>,
    context_scope_fields: Seq<Seq<char>>,
    for_cli_fields: Seq<Seq<char>>,
    named_arg_enum: Seq<char>,
) -> Seq<char> {
    let cli = cli_name_of(name);
    "# [derive (Debug , Default , Clone , clap :: Clap , interactive_clap_derive :: ToCliArgs)] # [clap (setting (clap :: AppSettings :: ColoredHelp) , setting (clap :: AppSettings :: DisableHelpSubcommand) , setting (clap :: AppSettings :: VersionlessSubcommands))] pub struct "@
        + cli + " { "@ + each_followed_by(cli_fields, " , "@)
        + "} impl interactive_clap :: ToCli for "@ + name + " { type CliVariant = "@ + cli + " ; } "@
        + spec_context_scope_for_struct(name, context_scope_fields) + " impl From < "@ + name
        + " > for "@ + cli + " { fn from (args : "@ + name + ") -> Self { Self { "@
        + each_followed_by(for_cli_fields, " , "@) + "} } } "@ + named_arg_enum
}

/// What the derive generates for an enum with the given variants. The
/// `impl` block on the item holds the `from` function alone: the generator of
/// the `choose_variant` method that the generated `from` falls back to is not
/// part of this crate, so that method is not emitted here and the item has to
/// provide it.
pub open spec fn enum_items(
    name: Seq<char>,
    variants: Seq<Seq<char>>,
    arms: Seq<Seq<char>>,
    from_fn: Seq<char>,
) -> Seq<char> {
    let cli = cli_name_of(name);
    "# [derive (Debug , Clone , clap :: Clap , interactive_clap_derive :: ToCliArgs)] pub enum "@ + cli
        + " { "@ + each_followed_by(variants, " , "@)
        + "} impl interactive_clap :: ToCli for "@ + name + " { type CliVariant = "@ + cli + " ; } "@
        + spec_context_scope_for_enum(name) + " impl From < "@ + name + " > for "@ + cli
        + " { fn from (command : "@ + name + ") -> Self { match command { "@ + each_followed_by(
        arms,
        " , "@,
    ) + "} } } impl "@ + name + " { "@ + from_fn + " }"@
}

/// The inputs on which the derive runs to its end or to an error: the fields
/// of a struct have names up to the first one at which the command line
/// fields stop the derive, and, when the command line fields and the context
/// scope fields pass, the search for the named argument reaches only names it
/// can convert; an enum's `#[interactive_clap(..)]` context
/// arguments can be sliced, and no tuple variant without fields comes before
/// the first variant of another kind.
pub open spec fn derive_input_ok(ast: DeriveInput) -> bool {
    match ast.data {
        Data::Struct(fs) => {
            let fields = fields_of(fs);
            let entries = fields.map_values(|f: Field| spec_cli_field_entry(ast.ident@, f));
            &&& named_until_stop(fields, entries)
            &&& collect_ok(entries) is Ok && collect_ok(
                fields.map_values(|f: Field| spec_context_scope_field(f)),
            ) is Ok ==> named_arg_search_ok(fields)
        },
        Data::Enum(vs) => context_attrs_ok(ast.attrs@) && tuple_variants_ok(vs@),
        Data::Union => true,
    }
}

/// The text that `#[derive(InteractiveClap)]` generates for the item, or the
/// error it stops with. For a struct: its command line fields (in order, from
/// `spec_cli_field_entry`), its context scope fields, its named argument enum
/// and its conversion initializers, each stage stopping at its first error.
/// For an enum: its `from` function, then its command line variants; the
/// `choose_variant` method is not generated (see `enum_items`). A union is
/// refused.
pub open spec fn spec_impl_interactive_clap(ast: DeriveInput) -> Result<Seq<char>, DeriveError> {
    let name = ast.ident@;
    match ast.data {
        Data::Struct(fs) => {
            let fields = fields_of(fs);
            match collect_ok(fields.map_values(|f: Field| spec_cli_field_entry(name, f))) {
                Err(e) => Err(e),
                Ok(cfs) => match collect_ok(fields.map_values(|f: Field| spec_context_scope_field(f))) {
                    Err(e) => Err(e),
                    Ok(csf) => match crate::text::first_nonempty(
                        fields.map_values(|f: Field| spec_named_arg_enum(name, f)),
                    ) {
                        Err(e) => Err(e),
                        Ok(ne) => match collect_ok(
                            fields.map_values(|f: Field| spec_for_cli_field(f, all_skips(name, fields))),
                        ) {
                            Err(e) => Err(e),
                            Ok(fcf) => Ok(
                                struct_items(
                                    name,
                                    nonempty_only(cfs),
                                    nonempty_only(csf),
                                    nonempty_only(fcf),
                                    ne,
                                ),
                            ),
                        },
                    },
                },
            }
        },
        Data::Enum(vs) => match spec_fn_from_cli(ast, vs@) {
            Err(e) => Err(e),
            Ok(from_fn) => match collect_ok(vs@.map_values(|v: Variant| spec_enum_variant(v))) {
                Err(e) => Err(e),
                Ok(evs) => Ok(
                    enum_items(
                        name,
                        evs,
                        vs@.map_values(|v: Variant| spec_for_cli_enum_arm(name, v)),
                        from_fn,
                    ),
                ),
            },
        },
        Data::Union => Err(DeriveError::OnlyStructsAndEnums),
    }
}

/// Generates the items of `#[derive(InteractiveClap)]` (see
/// `spec_impl_interactive_clap`). For an enum, the `choose_variant` method
/// that the generated `from` calls is not among them (see `enum_items`).
pub fn impl_interactive_clap(ast: &DeriveInput) -> (r: Result<String, DeriveError>)
    requires
        derive_input_ok(*ast),
    ensures
        res_view(r) == spec_impl_interactive_clap(*ast),
{
    let name = &ast.ident;
    let cli = cli_name(name);
    match &ast.data {
        Data::Struct(fs) => {
            let empty: Vec<Field> = Vec::new();
            let fields: &Vec<Field> = match fs {
                Fields::Named(v) => v,
                Fields::Unnamed(v) => v,
                Fields::Unit => &empty,
            };
            proof {
                assert(fields@ == fields_of(*fs));
            }
            let (cfs, skips) = match cli_fields_of(name, fields) {
                Ok(p) => p,
                Err(e) => {
                    return Err(e);
                },
            };
            let csf = match context_scope_fields_of(fields) {
                Ok(v) => v,
                Err(e) => {
                    return Err(e);
                },
            };
            let ne = match first_named_arg_enum(name, fields) {
                Ok(x) => x,
                Err(e) => {
                    return Err(e);
                },
            };
            let fcf = match for_cli_fields_of(fields, &skips) {
                Ok(v) => v,
                Err(e) => {
                    return Err(e);
                },
            };
            let scope = context_scope_for_struct(name, csf);
            let mut s = text_from(
                "# [derive (Debug , Default , Clone , clap :: Clap , interactive_clap_derive :: ToCliArgs)] # [clap (setting (clap :: AppSettings :: ColoredHelp) , setting (clap :: AppSettings :: DisableHelpSubcommand) , setting (clap :: AppSettings :: VersionlessSubcommands))] pub struct ",
            );
            push_text(&mut s, &cli);
            s.append(" { ");
            push_each_followed_by(&mut s, &cfs, " , ");
            s.append("} impl interactive_clap :: ToCli for ");
            push_text(&mut s, name);
            s.append(" { type CliVariant = ");
            push_text(&mut s, &cli);
            s.append(" ; } ");
            push_text(&mut s, &scope);
            s.append(" impl From < ");
            push_text(&mut s, name);
            s.append(" > for ");
            push_text(&mut s, &cli);
            s.append(" { fn from (args : ");
            push_text(&mut s, name);
            s.append(") -> Self { Self { ");
            push_each_followed_by(&mut s, &fcf, " , ");
            s.append("} } } ");
            push_text(&mut s, &ne);
            Ok(s)
        },
        Data::Enum(variants) => {
            let from_fn = match fn_from_cli(ast, variants) {
                Ok(x) => x,
                Err(e) => {
                    return Err(e);
                },
            };
            let evs = match enum_variants(variants) {
                Ok(v) => v,
                Err(e) => {
                    return Err(e);
                },
            };
            let arms = for_cli_enum_arms(name, variants);
            let scope = context_scope_for_enum(name);
            let mut s = text_from(
                "# [derive (Debug , Clone , clap :: Clap , interactive_clap_derive :: ToCliArgs)] pub enum ",
            );
            push_text(&mut s, &cli);
            s.append(" { ");
            push_each_followed_by(&mut s, &evs, " , ");
            s.append("} impl interactive_clap :: ToCli for ");
            push_text(&mut s, name);
            s.append(" { type CliVariant = ");
            push_text(&mut s, &cli);
            s.append(" ; } ");
            push_text(&mut s, &scope);
            s.append(" impl From < ");
            push_text(&mut s, name);
            s.append(" > for ");
            push_text(&mut s, &cli);
            s.append(" { fn from (command : ");
            push_text(&mut s, name);
            s.append(") -> Self { match command { ");
            push_each_followed_by(&mut s, &arms, " , ");
            s.append("} } } impl ");
            push_text(&mut s, name);
            s.append(" { ");
            push_text(&mut s, &from_fn);
            s.append(" }");
            Ok(s)
        },
        Data::Union => Err(DeriveError::OnlyStructsAndEnums),
    }
}

} // verus!
