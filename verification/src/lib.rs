//! The code generation of the `InteractiveClap` and `ToCliArgs` derives,
//! verified: the derive input is read as plain values (`model`), and each
//! generator returns the generated Rust text or the error the derive stops
//! with, as its contract states.
use vstd::prelude::*;

pub mod attrs;
pub mod derives;
pub mod helpers;
pub mod model;
pub mod text;

use crate::attrs::{ic_tokens, is_ic_attr, lemma_ic_tokens_extends};
use crate::derives::interactive_clap::{
    cli_inner_type, enum_variants, for_cli_enum_arms, spec_enum_variant, spec_for_cli_enum_arm,
};
use crate::derives::interactive_clap::from_cli_enum::{cli_name, cli_name_of};
use crate::model::{
    all_named, field_ident, has_ident, fields_of, ident_of, tuple_variants_ok, AttrToken, Data, DeriveError, DeriveInput,
    Field, Fields, Token, TokenKind, Variant,
};
use crate::text::{
    collect_ok, each_followed_by, lemma_views_push, push_each_followed_by, push_text, res_view,
    text_from, text_is, views,
};

verus! {

/// The identifiers among a group's tokens that are `subcommand`, `long` or
/// `skip`, in order.
pub open spec fn clap_idents(items: Seq<Token>) -> Seq<Seq<char>>
    decreases items.len(),
{
    if items.len() == 0 {
        Seq::empty()
    } else {
        let t = items.last();
        if t.kind == TokenKind::Ident && (t.text@ == "subcommand"@ || t.text@ == "long"@ || t.text@
            == "skip"@) {
            clap_idents(items.drop_last()).push(t.text@)
        } else {
            clap_idents(items.drop_last())
        }
    }
}

/// The `#[clap(..)]` arguments that the groups among the tokens give, in
/// order; other tokens are passed over.
pub open spec fn clap_args_of(toks: Seq<AttrToken>) -> Seq<Seq<char>>
    decreases toks.len(),
{
    if toks.len() == 0 {
        Seq::empty()
    } else {
        match toks.last() {
            AttrToken::Group(g) => clap_args_of(toks.drop_last()) + clap_idents(g.tokens@),
            AttrToken::Other(_) => clap_args_of(toks.drop_last()),
        }
    }
}

/// The command line field of a field: an optional command line counterpart
/// of its type, with the `#[clap(..)]` arguments its `#[interactive_clap(..)]`
/// attributes give.
pub open spec fn spec_basic_cli_field(f: Field) -> Seq<char> {
    let cli = ident_of(f) + " : Option < < "@ + cli_inner_type(f.ty) + " as ToCli > :: CliVariant >"@;
    let args = clap_args_of(ic_tokens(f.attrs@));
    if f.attrs@.len() > 0 && args.len() > 0 {
        "# [clap ("@ + each_followed_by(args, " , "@) + ")] "@ + cli
    } else {
        cli
    }
}

/// The command line field of a field `ident: ty` ends with
/// `ident : Option < < T as ToCli > :: CliVariant >`, and is exactly that
/// when the field has no attributes: `T` is the angle bracketed argument of
/// `ty` when its first path segment is `Option` and has one, and the printed
/// type `ty` for any other type (a path starting with another segment, such
/// as `Vec < String >`, or a type that is not a path).
pub proof fn lemma_basic_cli_field_type(f: Field)
    ensures
        ({
            let r = spec_basic_cli_field(f);
            let opt_arg = f.ty.path matches Some(segs) && segs@.len() > 0 && segs@[0].ident@ == "Option"@
                && segs@[0].angle_args is Some;
            let t = if opt_arg {
                f.ty.path.unwrap()@[0].angle_args.unwrap()@
            } else {
                f.ty.text@
            };
            let suf = ident_of(f) + " : Option < < "@ + t + " as ToCli > :: CliVariant >"@;
            &&& r.len() >= suf.len()
            &&& r.subrange(r.len() - suf.len(), r.len() as int) == suf
            &&& f.attrs@.len() == 0 ==> r == suf
        }),
{
    let field_text = ident_of(f) + " : Option < < "@ + cli_inner_type(f.ty) + " as ToCli > :: CliVariant >"@;
    let r = spec_basic_cli_field(f);
    if r != field_text {
        let pre = "# [clap ("@ + each_followed_by(clap_args_of(ic_tokens(f.attrs@)), " , "@) + ")] "@;
        assert(r == pre + field_text);
        assert((pre + field_text).subrange(pre.len() as int, (pre + field_text).len() as int) =~= field_text);
    } else {
        assert(r.subrange(0, r.len() as int) =~= r);
    }
}

/// The initializer of a field in the conversion to the command line struct.
pub open spec fn spec_basic_for_cli_field(f: Field) -> Seq<char> {
    ident_of(f) + " : Some (args . "@ + ident_of(f) + " . into ())"@
}

/// What `#[derive(InteractiveClap)]` generates for the item: for a struct,
/// the command line struct with one optional field per field and the
/// conversion to it; for an enum, the command line enum with one variant per
/// tuple variant and the conversion to it (a variant of another kind stops
/// the derive); a union is refused.
pub open spec fn spec_basic_interactive_clap(ast: DeriveInput) -> Result<Seq<char>, DeriveError> {
    let name = ast.ident@;
    let cli = cli_name_of(name);
    match ast.data {
        Data::Struct(fs) => {
            let fields = fields_of(fs);
            Ok(
                "# [derive (Debug , Default , Clone , clap :: Clap)] # [clap (setting (clap :: AppSettings :: ColoredHelp) , setting (clap :: AppSettings :: DisableHelpSubcommand) , setting (clap :: AppSettings :: VersionlessSubcommands))] pub struct "@
                    + cli + " { "@ + each_followed_by(
                    fields.map_values(|f: Field| spec_basic_cli_field(f)),
                    " , "@,
                ) + "} impl interactive_clap :: ToCli for "@ + name + " { type CliVariant = "@ + cli
                    + " ; } impl From < "@ + name + " > for "@ + cli + " { fn from (args : "@ + name
                    + ") -> Self { Self { "@ + each_followed_by(
                    fields.map_values(|f: Field| spec_basic_for_cli_field(f)),
                    " , "@,
                ) + "} } }"@,
            )
        },
        Data::Enum(vs) => match collect_ok(vs@.map_values(|v: Variant| spec_enum_variant(v))) {
            Err(e) => Err(e),
            Ok(evs) => Ok(
                "# [derive (Debug , Clone , clap :: Clap)] pub enum "@ + cli + " { "@ + each_followed_by(
                    evs,
                    " , "@,
                ) + "} impl interactive_clap :: ToCli for "@ + name + " { type CliVariant = "@ + cli
                    + " ; } impl From < "@ + name + " > for "@ + cli + " { fn from (command : "@
                    + name + ") -> Self { match command { "@ + each_followed_by(
                    vs@.map_values(|v: Variant| spec_for_cli_enum_arm(name, v)),
                    " , "@,
                ) + "} } }"@,
            ),
        },
        Data::Union => Err(DeriveError::OnlyStructsAndEnums),
    }
}

fn is_clap_ident(t: &Token) -> (b: bool)
    ensures
        b == (t.kind == TokenKind::Ident && (t.text@ == "subcommand"@ || t.text@ == "long"@ || t.text@
            == "skip"@)),
{
    t.kind == TokenKind::Ident && (text_is(&t.text, "subcommand") || text_is(&t.text, "long")
        || text_is(&t.text, "skip"))
}

fn clap_args(field: &Field) -> (v: Vec<String>)
    ensures
        views(v@) == clap_args_of(ic_tokens(field.attrs@)),
{
    let attrs = &field.attrs;
    let mut v: Vec<String> = Vec::new();
    let mut i: usize = 0;
    proof {
        assert(ic_tokens(attrs@.take(0)) =~= Seq::<AttrToken>::empty());
        assert(views(v@) =~= Seq::<Seq<char>>::empty());
    }
    while i < attrs.len()
        invariant
            i <= attrs.len(),
            attrs == &field.attrs,
            views(v@) == clap_args_of(ic_tokens(attrs@.take(i as int))),
        decreases attrs.len() - i,
    {
        let a = &attrs[i];
        let ghost before = ic_tokens(attrs@.take(i as int));
        proof {
            lemma_ic_tokens_extends(attrs@, i as int);
            assert(before + a.tokens@.take(0) =~= before);
        }
        if is_ic_attr(a) {
            let mut j: usize = 0;
            while j < a.tokens.len()
                invariant
                    j <= a.tokens.len(),
                    views(v@) == clap_args_of(before + a.tokens@.take(j as int)),
                decreases a.tokens.len() - j,
            {
                let ghost seen = before + a.tokens@.take(j + 1);
                proof {
                    assert(seen.drop_last() =~= before + a.tokens@.take(j as int));
                    assert(seen.last() == a.tokens@[j as int]);
                }
                match &a.tokens[j] {
                    AttrToken::Group(g) => {
                        let ghost start = views(v@);
                        let mut k: usize = 0;
                        proof {
                            assert(g.tokens@.take(0) =~= Seq::<Token>::empty());
                            assert(start + clap_idents(g.tokens@.take(0)) =~= start);
                        }
                        while k < g.tokens.len()
                            invariant
                                k <= g.tokens.len(),
                                views(v@) == start + clap_idents(g.tokens@.take(k as int)),
                            decreases g.tokens.len() - k,
                        {
                            proof {
                                assert(g.tokens@.take(k + 1).drop_last() =~= g.tokens@.take(k as int));
                                assert(g.tokens@.take(k + 1).last() == g.tokens@[k as int]);
                            }
                            if is_clap_ident(&g.tokens[k]) {
                                let t = g.tokens[k].text.clone();
                                proof {
                                    lemma_views_push(v@, t);
                                    assert(start + clap_idents(g.tokens@.take(k as int)).push(t@) =~= (
                                    start + clap_idents(g.tokens@.take(k as int))).push(t@));
                                }
                                v.push(t);
                            }
                            k = k + 1;
                        }
                        proof {
                            assert(g.tokens@.take(g.tokens.len() as int) =~= g.tokens@);
                        }
                    },
                    AttrToken::Other(_) => {},
                }
                j = j + 1;
            }
            proof {
                assert(a.tokens@.take(a.tokens.len() as int) =~= a.tokens@);
            }
        }
        i = i + 1;
    }
    proof {
        assert(attrs@.take(attrs.len() as int) =~= attrs@);
    }
    v
}

fn basic_cli_field(field: &Field) -> (s: String)
    requires
        has_ident(*field),
    ensures
        s@ == spec_basic_cli_field(*field),
{
    let id = field_ident(field);
    let mut cli = id.clone();
    cli.append(" : Option < < ");
    let ty = &field.ty;
    match &ty.path {
        Some(segs) => {
            if segs.len() > 0 && text_is(&segs[0].ident, "Option") {
                match &segs[0].angle_args {
                    Some(args) => push_text(&mut cli, args),
                    None => push_text(&mut cli, &ty.text),
                }
            } else {
                push_text(&mut cli, &ty.text);
            }
        },
        None => push_text(&mut cli, &ty.text),
    }
    cli.append(" as ToCli > :: CliVariant >");
    if field.attrs.len() == 0 {
        return cli;
    }
    let args = clap_args(field);
    if args.len() > 0 {
        let mut s = text_from("# [clap (");
        push_each_followed_by(&mut s, &args, " , ");
        s.append(")] ");
        push_text(&mut s, &cli);
        s
    } else {
        cli
    }
}

fn basic_fields(fields: &Vec<Field>) -> (r: (Vec<String>, Vec<String>))
    requires
        all_named(fields@),
    ensures
        views(r.0@) == fields@.map_values(|f: Field| spec_basic_cli_field(f)),
        views(r.1@) == fields@.map_values(|f: Field| spec_basic_for_cli_field(f)),
{
    let mut cfs: Vec<String> = Vec::new();
    let mut fcs: Vec<String> = Vec::new();
    let mut i: usize = 0;
    while i < fields.len()
        invariant
            i <= fields.len(),
            all_named(fields@),
            views(cfs@) == fields@.take(i as int).map_values(|f: Field| spec_basic_cli_field(f)),
            views(fcs@) == fields@.take(i as int).map_values(|f: Field| spec_basic_for_cli_field(f)),
        decreases fields.len() - i,
    {
        let f = &fields[i];
        proof {
            assert(has_ident(*f));
        }
        let c = basic_cli_field(f);
        let id = field_ident(f);
        let mut t = id.clone();
        t.append(" : Some (args . ");
        push_text(&mut t, id);
        t.append(" . into ())");
        proof {
            lemma_views_push(cfs@, c);
            lemma_views_push(fcs@, t);
            assert(fields@.take(i + 1).map_values(|f: Field| spec_basic_cli_field(f)) =~= fields@.take(
                i as int,
            ).map_values(|f: Field| spec_basic_cli_field(f)).push(c@));
            assert(fields@.take(i + 1).map_values(|f: Field| spec_basic_for_cli_field(f))
                =~= fields@.take(i as int).map_values(|f: Field| spec_basic_for_cli_field(f)).push(
                t@,
            ));
        }
        cfs.push(c);
        fcs.push(t);
        i = i + 1;
    }
    proof {
        assert(fields@.take(fields.len() as int) =~= fields@);
    }
    (cfs, fcs)
}

/// The inputs on which the derive runs to its end or to an error: every field
/// of a struct has a name; no tuple variant without fields comes before the
/// first variant of another kind.
pub open spec fn basic_input_ok(ast: DeriveInput) -> bool {
    match ast.data {
        Data::Struct(fs) => all_named(fields_of(fs)),
        Data::Enum(vs) => tuple_variants_ok(vs@),
        Data::Union => true,
    }
}

/// Generates the items of `#[derive(InteractiveClap)]` (see
/// `spec_basic_interactive_clap`).
pub fn impl_interactive_clap(ast: &DeriveInput) -> (r: Result<String, DeriveError>)
    requires
        basic_input_ok(*ast),
    ensures
        res_view(r) == spec_basic_interactive_clap(*ast),
{
    let name = &ast.ident;
    let cli = cli_name(name);
    match &ast.data {
        Data::Struct(fs) => {
            let empty: Vec<Field> = Vec::new();
            let fields: &Vec<Field> = match fs {
                Fields::Named(v) => v,
                Fields::Unnamed(v) => v,
                Fields::Unit => &empty,
            };
            proof {
                assert(fields@ == fields_of(*fs));
            }
            let (cfs, fcs) = basic_fields(fields);
            let mut s = text_from(
                "# [derive (Debug , Default , Clone , clap :: Clap)] # [clap (setting (clap :: AppSettings :: ColoredHelp) , setting (clap :: AppSettings :: DisableHelpSubcommand) , setting (clap :: AppSettings :: VersionlessSubcommands))] pub struct ",
            );
            push_text(&mut s, &cli);
            s.append(" { ");
            push_each_followed_by(&mut s, &cfs, " , ");
            s.append("} impl interactive_clap :: ToCli for ");
            push_text(&mut s, name);
            s.append(" { type CliVariant = ");
            push_text(&mut s, &cli);
            s.append(" ; } impl From < ");
            push_text(&mut s, name);
            s.append(" > for ");
            push_text(&mut s, &cli);
            s.append(" { fn from (args : ");
            push_text(&mut s, name);
            s.append(") -> Self { Self { ");
            push_each_followed_by(&mut s, &fcs, " , ");
            s.append("} } }");
            Ok(s)
        },
        Data::Enum(variants) => {
            let evs = match enum_variants(variants) {
                Ok(v) => v,
                Err(e) => {
                    return Err(e);
                },
            };
            let arms = for_cli_enum_arms(name, variants);
            let mut s = text_from("# [derive (Debug , Clone , clap :: Clap)] pub enum ");
            push_text(&mut s, &cli);
            s.append(" { ");
            push_each_followed_by(&mut s, &evs, " , ");
            s.append("} impl interactive_clap :: ToCli for ");
            push_text(&mut s, name);
            s.append(" { type CliVariant = ");
            push_text(&mut s, &cli);
            s.append(" ; } impl From < ");
            push_text(&mut s, name);
            s.append(" > for ");
            push_text(&mut s, &cli);
            s.append(" { fn from (command : ");
            push_text(&mut s, name);
            s.append(") -> Self { match command { ");
            push_each_followed_by(&mut s, &arms, " , ");
            s.append("} } }");
            Ok(s)
        },
        Data::Union => Err(DeriveError::OnlyStructsAndEnums),
    }
}

} // verus!
