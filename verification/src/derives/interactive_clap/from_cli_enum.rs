//! The `from` function generated for an enum: it turns the parsed command
//! line variant into the enum, or asks for a variant when none was given.
use vstd::prelude::*;

use crate::attrs::{context_attrs_ok, context_dirs, context_fold, context_step, dirs_view, ic_tokens};
use crate::model::{first_field_type, AttrToken, TokenGroup, tuple_variants_ok, variant_first_type, DeriveError, DeriveInput, Variant};
use crate::text::{
    collect_ok, each_followed_by, lemma_collect_ok_err, lemma_collect_ok_step, lemma_views_push,
    has_substring, push_each_followed_by, push_text, render_tokens, text_from, views,
};

verus! {

/// The context type of the generated `from`: the one given by `context`,
/// else the one given by `input_context`.
pub open spec fn input_context(d: (Seq<char>, Seq<char>, Seq<char>, bool)) -> Seq<char> {
    if d.0.len() > 0 {
        d.0
    } else {
        d.1
    }
}

/// The name of the command line counterpart of the item `name`.
pub open spec fn cli_name_of(name: Seq<char>) -> Seq<char> {
    "Cli"@ + name
}

/// `Cli` followed by the item's name.
pub fn cli_name(name: &String) -> (s: String)
    ensures
        s@ == cli_name_of(name@),
{
    let mut s = text_from("Cli");
    push_text(&mut s, name);
    s
}

/// The match arm that turns one parsed variant into the enum's variant;
/// `plain` is whether no output context is given.
pub open spec fn from_cli_arm(name: Seq<char>, plain: bool, v: Variant) -> Result<
    Seq<char>,
    DeriveError,
> {
    let cli = cli_name_of(name);
    let id = v.ident@;
    let ty = first_field_type(v);
    if v.fields is Unnamed {
        Ok(
            if plain {
                cli + " :: "@ + id + " (args) => Some (Self :: "@ + id + " ("@ + ty
                    + " :: from (Some (args) , context . clone ()) . ok () ? ,)) ,"@
            } else {
                cli + " :: "@ + id + " (args) => { type Alias = < "@ + name
                    + " as crate :: common :: ToInteractiveClapContextScope > :: InteractiveClapContextScope ; let new_context_scope = Alias :: "@
                    + id + " ; let new_context = "@ + name
                    + "Context :: from_previous_context (() , new_context_scope) ; Some (Self :: "@
                    + id + " ("@ + ty + " :: from (Some (args) , new_context . clone ()) . ok () ? ,)) }"@
            },
        )
    } else {
        Err(DeriveError::OnlyUnnamedFields)
    }
}

/// The arms for all variants, in order, up to the first that is not a tuple
/// variant.
pub open spec fn from_cli_arms(name: Seq<char>, plain: bool, vs: Seq<Variant>) -> Result<
    Seq<Seq<char>>,
    DeriveError,
> {
    collect_ok(vs.map_values(|v: Variant| from_cli_arm(name, plain, v)))
}

/// The generated `from` function of an enum: empty when the item asks for the
/// default `from` (`fn_from` and `default` in one attribute argument);
/// otherwise a `from` taking the optional parsed variant and the context,
/// that matches the parsed variant and falls back to `choose_variant`.
pub open spec fn spec_fn_from_cli(ast: DeriveInput, vs: Seq<Variant>) -> Result<Seq<char>, DeriveError> {
    let d = context_fold(ic_tokens(ast.attrs@), "fn_from"@);
    let name = ast.ident@;
    if d.3 {
        Ok(Seq::empty())
    } else {
        match from_cli_arms(name, d.2.len() == 0, vs) {
            Err(e) => Err(e),
            Ok(arms) => Ok(
                "pub fn from (optional_clap_variant : Option < "@ + cli_name_of(name)
                    + " > , context : "@ + input_context(d)
                    + " ,) -> color_eyre :: eyre :: Result < Self > { match optional_clap_variant . and_then (| clap_variant | match clap_variant { "@
                    + each_followed_by(arms, " "@)
                    + "}) { Some (variant) => Ok (variant) , None => Self :: choose_variant (context . clone ()) , } }"@,
            ),
        }
    }
}

/// With one `#[interactive_clap(..)]` argument group that sets a context (by
/// `context = T` or `input_context = T`, not `output_context`) and asks for
/// no default, the contexts read give `T` as the context type and ask for no
/// default `from`.
pub proof fn lemma_one_context_group(g: TokenGroup, key: Seq<char>)
    requires
        has_substring(g.stream_text@, "context"@),
        !has_substring(g.stream_text@, "output_context"@),
        !has_substring(g.stream_text@, "default"@),
    ensures
        input_context(context_fold(seq![AttrToken::Group(g)], key)) == render_tokens(g.tokens@.skip(2)),
        !context_fold(seq![AttrToken::Group(g)], key).3,
{
    let toks = seq![AttrToken::Group(g)];
    assert(toks.drop_last() =~= Seq::<AttrToken>::empty());
    assert(toks.last() == AttrToken::Group(g));
    let e = (Seq::<char>::empty(), Seq::<char>::empty(), Seq::<char>::empty(), false);
    assert(context_fold(toks.drop_last(), key) == e);
    assert(context_fold(toks, key) == context_step(e, AttrToken::Group(g), key));
    let dir = render_tokens(g.tokens@.skip(2));
    if dir.len() == 0 {
        assert(dir =~= Seq::<char>::empty());
    }
}

/// The `from` generated for an enum whose only `#[interactive_clap(..)]`
/// argument group gives its context type `T` (by `context = T` or
/// `input_context = T`) takes the context as a parameter of type `T`:
/// `context : T ,)`.
pub proof fn lemma_enum_from_context_type(ast: DeriveInput, vs: Seq<Variant>, g: TokenGroup)
    requires
        ic_tokens(ast.attrs@) == seq![AttrToken::Group(g)],
        has_substring(g.stream_text@, "context"@),
        !has_substring(g.stream_text@, "output_context"@),
        !has_substring(g.stream_text@, "default"@),
    ensures
        spec_fn_from_cli(ast, vs) matches Ok(t) ==> ({
            let p = "pub fn from (optional_clap_variant : Option < "@ + "Cli"@ + ast.ident@
                + " > , context : "@ + render_tokens(g.tokens@.skip(2)) + " ,)"@;
            t.len() >= p.len() && t.subrange(0, p.len() as int) == p
        }),
{
    lemma_one_context_group(g, "fn_from"@);
    let d = context_fold(ic_tokens(ast.attrs@), "fn_from"@);
    let dir = render_tokens(g.tokens@.skip(2));
    let tail = " -> color_eyre :: eyre :: Result < Self > { match optional_clap_variant . and_then (| clap_variant | match clap_variant { "@;
    assert(" ,) -> color_eyre :: eyre :: Result < Self > { match optional_clap_variant . and_then (| clap_variant | match clap_variant { "@
        =~= " ,)"@ + tail) by {
        reveal_strlit(" ,) -> color_eyre :: eyre :: Result < Self > { match optional_clap_variant . and_then (| clap_variant | match clap_variant { ");
        reveal_strlit(" ,)");
        reveal_strlit(" -> color_eyre :: eyre :: Result < Self > { match optional_clap_variant . and_then (| clap_variant | match clap_variant { ");
    }
    if let Ok(t) = spec_fn_from_cli(ast, vs) {
        let arms = from_cli_arms(ast.ident@, d.2.len() == 0, vs)->Ok_0;
        let p = "pub fn from (optional_clap_variant : Option < "@ + "Cli"@ + ast.ident@ + " > , context : "@
            + dir + " ,)"@;
        let rest = tail + each_followed_by(arms, " "@)
            + "}) { Some (variant) => Ok (variant) , None => Self :: choose_variant (context . clone ()) , } }"@;
        assert(t =~= p + rest);
        assert((p + rest).subrange(0, p.len() as int) =~= p);
    }
}

fn arm_text(name: &String, cli: &String, plain: bool, v: &Variant, ty: &String) -> (s: String)
    requires
        v.fields is Unnamed,
        ty@ == first_field_type(*v),
        cli@ == cli_name_of(name@),
    ensures
        from_cli_arm(name@, plain, *v) == Ok::<Seq<char>, DeriveError>(s@),
{
    let mut s = String::new();
    push_text(&mut s, cli);
    s.append(" :: ");
    push_text(&mut s, &v.ident);
    if plain {
        s.append(" (args) => Some (Self :: ");
        push_text(&mut s, &v.ident);
        s.append(" (");
        push_text(&mut s, ty);
        s.append(" :: from (Some (args) , context . clone ()) . ok () ? ,)) ,");
    } else {
        s.append(" (args) => { type Alias = < ");
        push_text(&mut s, name);
        s.append(
            " as crate :: common :: ToInteractiveClapContextScope > :: InteractiveClapContextScope ; let new_context_scope = Alias :: ",
        );
        push_text(&mut s, &v.ident);
        s.append(" ; let new_context = ");
        push_text(&mut s, name);
        s.append("Context :: from_previous_context (() , new_context_scope) ; Some (Self :: ");
        push_text(&mut s, &v.ident);
        s.append(" (");
        push_text(&mut s, ty);
        s.append(" :: from (Some (args) , new_context . clone ()) . ok () ? ,)) }");
    }
    s
}

/// Generates the `from` function of an enum (see `spec_fn_from_cli`).
pub fn fn_from_cli(ast: &DeriveInput, variants: &Vec<Variant>) -> (r: Result<String, DeriveError>)
    requires
        context_attrs_ok(ast.attrs@),
        context_fold(ic_tokens(ast.attrs@), "fn_from"@).3 || tuple_variants_ok(variants@),
    ensures
        match r {
            Ok(s) => spec_fn_from_cli(*ast, variants@) == Ok::<Seq<char>, DeriveError>(s@),
            Err(e) => spec_fn_from_cli(*ast, variants@) == Err::<Seq<char>, DeriveError>(e),
        },
{
    let d = context_dirs(&ast.attrs, "fn_from");
    if d.fn_from_default {
        return Ok(String::new());
    }
    let name = &ast.ident;
    let cli = cli_name(name);
    let plain = d.output_context.as_str().unicode_len() == 0;
    let ghost rs = variants@.map_values(|v: Variant| from_cli_arm(name@, plain, v));
    let mut arms: Vec<String> = Vec::new();
    let mut i: usize = 0;
    proof {
        assert(rs.take(0) =~= Seq::<Result<Seq<char>, DeriveError>>::empty());
        assert(views(arms@) =~= Seq::<Seq<char>>::empty());
    }
    while i < variants.len()
        invariant
            i <= variants.len(),
            rs == variants@.map_values(|v: Variant| from_cli_arm(name@, plain, v)),
            dirs_view(d) == context_fold(ic_tokens(ast.attrs@), "fn_from"@),
            !d.fn_from_default,
            plain == (d.output_context@.len() == 0),
            name == &ast.ident,
            cli@ == cli_name_of(name@),
            tuple_variants_ok(variants@),
            forall|j: int| 0 <= j < i ==> (#[trigger] variants@[j]).fields is Unnamed,
            collect_ok(rs.take(i as int)) == Ok::<Seq<Seq<char>>, DeriveError>(views(arms@)),
        decreases variants.len() - i,
    {
        let v = &variants[i];
        proof {
            lemma_collect_ok_step(rs, i as int, views(arms@));
        }
        let ty = match variant_first_type(v) {
            Ok(t) => t,
            Err(e) => {
                proof {
                    assert(rs[i as int] == from_cli_arm(name@, plain, *v));
                    assert(collect_ok(rs.take(i + 1)) == Err::<Seq<Seq<char>>, DeriveError>(e));
                    lemma_collect_ok_err(rs, i + 1);
                    assert(from_cli_arms(name@, plain, variants@) == Err::<Seq<Seq<char>>, DeriveError>(e));
                }
                return Err(e);
            },
        };
        let arm = arm_text(name, &cli, plain, v, ty);
        proof {
            lemma_views_push(arms@, arm);
        }
        arms.push(arm);
        i = i + 1;
    }
    proof {
        assert(rs.take(variants.len() as int) =~= rs);
    }
    let mut s = text_from("pub fn from (optional_clap_variant : Option < ");
    push_text(&mut s, &cli);
    s.append(" > , context : ");
    if d.context.as_str().unicode_len() > 0 {
        push_text(&mut s, &d.context);
    } else {
        push_text(&mut s, &d.input_context);
    }
    s.append(
        " ,) -> color_eyre :: eyre :: Result < Self > { match optional_clap_variant . and_then (| clap_variant | match clap_variant { ",
    );
    push_each_followed_by(&mut s, &arms, " ");
    s.append("}) { Some (variant) => Ok (variant) , None => Self :: choose_variant (context . clone ()) , } }");
    Ok(s)
}

} // verus!
