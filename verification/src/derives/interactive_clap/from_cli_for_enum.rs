//! The `from` function generated for an enum as a plain match on the
//! optional parsed variant, where an error of a variant's `from` is passed
//! on.
use vstd::prelude::*;

use crate::derives::interactive_clap::from_cli_enum::{
    cli_name, cli_name_of, from_cli_arm, input_context, spec_fn_from_cli,
};
use crate::attrs::{context_attrs_ok, context_dirs, context_fold, dirs_view, ic_tokens};
use crate::model::{AttrToken, first_field_type, tuple_variants_ok, variant_first_type, DeriveError, DeriveInput, Variant};
use crate::text::{
    collect_ok, each_followed_by, has_substring, lemma_collect_ok_same_failures, lemma_has_substring_part, lemma_collect_ok_err, lemma_collect_ok_step, lemma_views_push,
    push_each_followed_by, push_text, text_from, views,
};

verus! {

/// The match arm that turns one parsed variant into the enum's variant;
/// `plain` is whether no output context is given.
pub open spec fn enum_from_arm(name: Seq<char>, plain: bool, v: Variant) -> Result<
    Seq<char>,
    DeriveError,
> {
    let cli = cli_name_of(name);
    let id = v.ident@;
    let ty = first_field_type(v);
    if v.fields is Unnamed {
        Ok(
            if plain {
                "Some ("@ + cli + " :: "@ + id + " (args)) => Ok (Self :: "@ + id + " ("@ + ty
                    + " :: from (Some (args) , context . clone ()) ? ,)) ,"@
            } else {
                "Some ("@ + cli + " :: "@ + id + " (args)) => { type Alias = < "@ + name
                    + " as ToInteractiveClapContextScope > :: InteractiveClapContextScope ; let new_context_scope = Alias :: "@
                    + id + " ; let new_context = "@ + name
                    + "Context :: from_previous_context (() , & new_context_scope) ; Ok (Self :: "@
                    + id + " ("@ + ty + " :: from (Some (args) , new_context) ? ,)) }"@
            },
        )
    } else {
        Err(DeriveError::OnlyUnnamedFields)
    }
}

/// The arms for all variants, in order, up to the first that is not a tuple
/// variant.
pub open spec fn enum_from_arms(name: Seq<char>, plain: bool, vs: Seq<Variant>) -> Result<
    Seq<Seq<char>>,
    DeriveError,
> {
    collect_ok(vs.map_values(|v: Variant| enum_from_arm(name, plain, v)))
}

/// The generated `from` function of an enum: empty when the item asks for the
/// default `from` (`fn_from_cli` and `default` in one attribute argument);
/// otherwise a `from` taking the optional parsed variant and the context,
/// that matches it, one arm per variant, and falls back to `choose_variant`.
pub open spec fn spec_from_cli_for_enum(ast: DeriveInput, vs: Seq<Variant>) -> Result<Seq<char>, DeriveError> {
    let d = context_fold(ic_tokens(ast.attrs@), "fn_from_cli"@);
    let name = ast.ident@;
    if d.3 {
        Ok(Seq::empty())
    } else {
        match enum_from_arms(name, d.2.len() == 0, vs) {
            Err(e) => Err(e),
            Ok(arms) => Ok(
                "pub fn from (optional_clap_variant : Option < "@ + cli_name_of(name)
                    + " > , context : "@ + input_context(d)
                    + " ,) -> color_eyre :: eyre :: Result < Self > { match optional_clap_variant { "@
                    + each_followed_by(arms, " "@) + "None => Self :: choose_variant (context . clone ()) , } }"@,
            ),
        }
    }
}

fn arm_text(name: &String, cli: &String, plain: bool, v: &Variant, ty: &String) -> (s: String)
    requires
        v.fields is Unnamed,
        ty@ == first_field_type(*v),
        cli@ == cli_name_of(name@),
    ensures
        enum_from_arm(name@, plain, *v) == Ok::<Seq<char>, DeriveError>(s@),
{
    let mut s = text_from("Some (");
    push_text(&mut s, cli);
    s.append(" :: ");
    push_text(&mut s, &v.ident);
    if plain {
        s.append(" (args)) => Ok (Self :: ");
        push_text(&mut s, &v.ident);
        s.append(" (");
        push_text(&mut s, ty);
        s.append(" :: from (Some (args) , context . clone ()) ? ,)) ,");
    } else {
        s.append(" (args)) => { type Alias = < ");
        push_text(&mut s, name);
        s.append(
            " as ToInteractiveClapContextScope > :: InteractiveClapContextScope ; let new_context_scope = Alias :: ",
        );
        push_text(&mut s, &v.ident);
        s.append(" ; let new_context = ");
        push_text(&mut s, name);
        s.append("Context :: from_previous_context (() , & new_context_scope) ; Ok (Self :: ");
        push_text(&mut s, &v.ident);
        s.append(" (");
        push_text(&mut s, ty);
        s.append(" :: from (Some (args) , new_context) ? ,)) }");
    }
    s
}

/// Generates the `from` function of an enum (see `spec_from_cli_for_enum`).
pub fn from_cli_for_enum(ast: &DeriveInput, variants: &Vec<Variant>) -> (r: Result<String, DeriveError>)
    requires
        context_attrs_ok(ast.attrs@),
        context_fold(ic_tokens(ast.attrs@), "fn_from_cli"@).3 || tuple_variants_ok(variants@),
    ensures
        match r {
            Ok(s) => spec_from_cli_for_enum(*ast, variants@) == Ok::<Seq<char>, DeriveError>(s@),
            Err(e) => spec_from_cli_for_enum(*ast, variants@) == Err::<Seq<char>, DeriveError>(e),
        },
{
    let d = context_dirs(&ast.attrs, "fn_from_cli");
    if d.fn_from_default {
        return Ok(String::new());
    }
    let name = &ast.ident;
    let cli = cli_name(name);
    let plain = d.output_context.as_str().unicode_len() == 0;
    let ghost rs = variants@.map_values(|v: Variant| enum_from_arm(name@, plain, v));
    let mut arms: Vec<String> = Vec::new();
    let mut i: usize = 0;
    proof {
        assert(rs.take(0) =~= Seq::<Result<Seq<char>, DeriveError>>::empty());
        assert(views(arms@) =~= Seq::<Seq<char>>::empty());
    }
    while i < variants.len()
        invariant
            i <= variants.len(),
            rs == variants@.map_values(|v: Variant| enum_from_arm(name@, plain, v)),
            dirs_view(d) == context_fold(ic_tokens(ast.attrs@), "fn_from_cli"@),
            !d.fn_from_default,
            plain == (d.output_context@.len() == 0),
            name == &ast.ident,
            cli@ == cli_name_of(name@),
            tuple_variants_ok(variants@),
            forall|j: int| 0 <= j < i ==> (#[trigger] variants@[j]).fields is Unnamed,
            collect_ok(rs.take(i as int)) == Ok::<Seq<Seq<char>>, DeriveError>(views(arms@)),
        decreases variants.len() - i,
    {
        let v = &variants[i];
        proof {
            lemma_collect_ok_step(rs, i as int, views(arms@));
        }
        let ty = match variant_first_type(v) {
            Ok(t) => t,
            Err(e) => {
                proof {
                    assert(rs[i as int] == enum_from_arm(name@, plain, *v));
                    assert(collect_ok(rs.take(i + 1)) == Err::<Seq<Seq<char>>, DeriveError>(e));
                    lemma_collect_ok_err(rs, i + 1);
                    assert(enum_from_arms(name@, plain, variants@) == Err::<Seq<Seq<char>>, DeriveError>(e));
                }
                return Err(e);
            },
        };
        let arm = arm_text(name, &cli, plain, v, ty);
        proof {
            lemma_views_push(arms@, arm);
        }
        arms.push(arm);
        i = i + 1;
    }
    proof {
        assert(rs.take(variants.len() as int) =~= rs);
    }
    let mut s = text_from("pub fn from (optional_clap_variant : Option < ");
    push_text(&mut s, &cli);
    s.append(" > , context : ");
    if d.context.as_str().unicode_len() > 0 {
        push_text(&mut s, &d.context);
    } else {
        push_text(&mut s, &d.input_context);
    }
    s.append(" ,) -> color_eyre :: eyre :: Result < Self > { match optional_clap_variant { ");
    push_each_followed_by(&mut s, &arms, " ");
    s.append("None => Self :: choose_variant (context . clone ()) , } }");
    Ok(s)
}

/// Asking for the default `fn_from_cli` also asks for the default `fn_from`.
proof fn lemma_default_keys(toks: Seq<AttrToken>)
    ensures
        context_fold(toks, "fn_from_cli"@).3 ==> context_fold(toks, "fn_from"@).3,
    decreases toks.len(),
{
    if toks.len() > 0 {
        lemma_default_keys(toks.drop_last());
        match toks.last() {
            AttrToken::Group(g) => {
                let s = g.stream_text@;
                reveal_strlit("fn_from_cli");
                reveal_strlit("fn_from");
                if has_substring(s, "fn_from_cli"@) {
                    lemma_has_substring_part(s, "fn_from_cli"@, 0, 7);
                    assert("fn_from_cli"@.subrange(0, 7) =~= "fn_from"@);
                }
            },
            AttrToken::Other(_) => {},
        }
    }
}

/// The two forms of an enum's generated `from` refuse the same enums: when
/// the item does not ask for the default `fn_from`, one stops the derive
/// exactly when the other does (at a variant that is not a tuple variant).
pub proof fn lemma_enum_from_forms_agree(ast: DeriveInput, vs: Seq<Variant>)
    requires
        !context_fold(ic_tokens(ast.attrs@), "fn_from"@).3,
    ensures
        spec_fn_from_cli(ast, vs) is Err <==> spec_from_cli_for_enum(ast, vs) is Err,
{
    let toks = ic_tokens(ast.attrs@);
    lemma_default_keys(toks);
    let name = ast.ident@;
    let d1 = context_fold(toks, "fn_from"@);
    let d2 = context_fold(toks, "fn_from_cli"@);
    let a = vs.map_values(|v: Variant| from_cli_arm(name, d1.2.len() == 0, v));
    let b = vs.map_values(|v: Variant| enum_from_arm(name, d2.2.len() == 0, v));
    assert forall|i: int| 0 <= i < a.len() implies (#[trigger] a[i] is Err) == (b[i] is Err) by {
        assert(a[i] == from_cli_arm(name, d1.2.len() == 0, vs[i]));
        assert(b[i] == enum_from_arm(name, d2.2.len() == 0, vs[i]));
    }
    lemma_collect_ok_same_failures(a, b);
}

} // verus!
