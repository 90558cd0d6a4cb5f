//! `#[derive(ToCliArgs)]`: a `to_cli_args` method that writes the parsed
//! command line struct or enum back as command line arguments.
use vstd::prelude::*;

use crate::helpers::to_kebab_case::{kebab, to_kebab_case};
use crate::model::{
    all_named, field_ident, has_ident, fields_of, ident_of, path_is, AttrToken, Attribute, Data, DeriveError, DeriveInput,
    Field, Fields, Token, TokenGroup, TokenKind, Variant,
};
use crate::text::{
    collect_ok, each_followed_by, lemma_collect_ok_err, lemma_collect_ok_step, lemma_views_push,
    push_each_followed_by, push_text, res_view, text_from, text_is, views,
};
use crate::attrs::attr_path_is;

verus! {

/// The statement that starts the argument list: an empty list, or the
/// subcommand's arguments.
pub open spec fn start_args() -> Seq<char> {
    "let mut args = std :: collections :: VecDeque :: new () ;"@
}

/// The statement that starts the argument list with the arguments of the
/// subcommand held in field `id`.
pub open spec fn subcommand_args(id: Seq<char>) -> Seq<char> {
    "let mut args = self . "@ + id
        + " . as_ref () . map (| subcommand | subcommand . to_cli_args ()) . unwrap_or_default () ;"@
}

/// The statement that puts the value of a positional field in front.
pub open spec fn push_positional(id: Seq<char>) -> Seq<char> {
    "if let Some (arg) = & self . "@ + id + " { args . push_front (arg . to_string ()) }"@
}

/// The statements that put the value of a flag field in front, then the flag
/// `--{flag}`, where `flag` is the printed string literal of the flag's name.
pub open spec fn push_flag(id: Seq<char>, flag: Seq<char>) -> Seq<char> {
    "if let Some (arg) = & self . "@ + id
        + " { args . push_front (arg . to_string ()) ; args . push_front (std :: concat ! (\"--\" , "@
        + flag + ") . to_string ()) ; }"@
}

/// A string literal holding `s`.
pub open spec fn quoted(s: Seq<char>) -> Seq<char> {
    "\""@ + s + "\""@
}

/// The state of the struct's method as the fields' attributes are read: the
/// statement that starts the argument list, the statements that put values in
/// front (in the order they are made), and whether a token that is not a
/// group stopped the derive.
pub type ArgsState = (Seq<char>, Seq<Seq<char>>, bool);

/// The statements without the last one (none when there is none).
pub open spec fn pop_last(ps: Seq<Seq<char>>) -> Seq<Seq<char>> {
    if ps.len() > 0 {
        ps.drop_last()
    } else {
        ps
    }
}

/// One token of a `#[clap(..)]` argument group of field `id`: `subcommand`
/// makes the list start with the subcommand's arguments; `long` adds the
/// flag named after the field; a literal replaces the last statement by one
/// with the flag that the literal names.
pub open spec fn item_step(st: ArgsState, t: Token, id: Seq<char>) -> ArgsState {
    if st.2 {
        st
    } else {
        match t.kind {
            TokenKind::Ident => if t.text@ == "subcommand"@ {
                (subcommand_args(id), st.1, false)
            } else if t.text@ == "long"@ {
                (st.0, st.1.push(push_flag(id, quoted(kebab(id)))), false)
            } else {
                st
            },
            TokenKind::Literal => (st.0, pop_last(st.1).push(push_flag(id, t.text@)), false),
            _ => st,
        }
    }
}

/// The state after the tokens of a group, in order.
pub open spec fn items_fold(st: ArgsState, items: Seq<Token>, id: Seq<char>) -> ArgsState
    decreases items.len(),
{
    if items.len() == 0 {
        st
    } else {
        item_step(items_fold(st, items.drop_last(), id), items.last(), id)
    }
}

/// One argument token of a `#[clap(..)]` attribute: a group's tokens are
/// read; any other token stops the derive.
pub open spec fn tok_step(st: ArgsState, tok: AttrToken, id: Seq<char>) -> ArgsState {
    if st.2 {
        st
    } else {
        match tok {
            AttrToken::Group(g) => items_fold(st, g.tokens@, id),
            AttrToken::Other(_) => (st.0, st.1, true),
        }
    }
}

/// The state after the argument tokens, in order.
pub open spec fn toks_fold(st: ArgsState, toks: Seq<AttrToken>, id: Seq<char>) -> ArgsState
    decreases toks.len(),
{
    if toks.len() == 0 {
        st
    } else {
        tok_step(toks_fold(st, toks.drop_last(), id), toks.last(), id)
    }
}

/// The state after the `#[clap(..)]` attributes among `attrs`, in order.
pub open spec fn attrs_fold(st: ArgsState, attrs: Seq<Attribute>, id: Seq<char>) -> ArgsState
    decreases attrs.len(),
{
    if attrs.len() == 0 {
        st
    } else if path_is(attrs.last(), "clap"@) {
        toks_fold(attrs_fold(st, attrs.drop_last(), id), attrs.last().tokens@, id)
    } else {
        attrs_fold(st, attrs.drop_last(), id)
    }
}

/// One field: without attributes it is positional; otherwise its `#[clap(..)]`
/// attributes decide.
pub open spec fn field_step(st: ArgsState, f: Field) -> ArgsState {
    if st.2 {
        st
    } else if f.attrs@.len() == 0 {
        (st.0, st.1.push(push_positional(ident_of(f))), false)
    } else {
        attrs_fold(st, f.attrs@, ident_of(f))
    }
}

/// The state after the fields, in order, from an empty list and one empty
/// statement.
pub open spec fn fields_fold(fields: Seq<Field>) -> ArgsState
    decreases fields.len(),
{
    if fields.len() == 0 {
        (start_args(), seq![Seq::<char>::empty()], false)
    } else {
        field_step(fields_fold(fields.drop_last()), fields.last())
    }
}

/// A field marked `#[clap(long)]` (no flag name given) adds, after what the
/// fields before it made, the statement that puts its value in front and then
/// the flag `--{name}`, where `{name}` is the field's identifier in kebab case
/// (so it holds no underscore).
pub proof fn lemma_long_field_flag(fields: Seq<Field>, f: Field, a: Attribute, g: TokenGroup, t: Token)
    requires
        has_ident(f),
        f.attrs@ == seq![a],
        path_is(a, "clap"@),
        a.tokens@ == seq![AttrToken::Group(g)],
        g.tokens@ == seq![t],
        t.kind == TokenKind::Ident,
        t.text@ == "long"@,
        !fields_fold(fields).2,
    ensures
        ({
            let id = ident_of(f);
            let st = fields_fold(fields);
            fields_fold(fields.push(f)) == (
                st.0,
                st.1.push(
                    "if let Some (arg) = & self . "@ + id
                        + " { args . push_front (arg . to_string ()) ; args . push_front (std :: concat ! (\"--\" , \""@
                        + kebab(id) + "\") . to_string ()) ; }"@,
                ),
                false,
            )
        }),
        forall|k: int| 0 <= k < kebab(ident_of(f)).len() ==> #[trigger] kebab(ident_of(f))[k] != '_',
{
    let id = ident_of(f);
    let st = fields_fold(fields);
    assert(fields.push(f).drop_last() =~= fields);
    assert(fields.push(f).last() == f);
    assert(fields_fold(fields.push(f)) == field_step(st, f));
    assert("long"@ != "subcommand"@) by {
        reveal_strlit("long");
        reveal_strlit("subcommand");
    }
    assert(f.attrs@.drop_last() =~= Seq::<Attribute>::empty());
    assert(a.tokens@.drop_last() =~= Seq::<AttrToken>::empty());
    assert(g.tokens@.drop_last() =~= Seq::<Token>::empty());
    assert(attrs_fold(st, f.attrs@.drop_last(), id) == st);
    assert(toks_fold(st, a.tokens@.drop_last(), id) == st);
    assert(items_fold(st, g.tokens@.drop_last(), id) == st);
    assert(items_fold(st, g.tokens@, id) == item_step(st, t, id));
    assert(toks_fold(st, a.tokens@, id) == items_fold(st, g.tokens@, id));
    assert(attrs_fold(st, f.attrs@, id) == toks_fold(st, a.tokens@, id));
    assert(push_flag(id, quoted(kebab(id))) =~= "if let Some (arg) = & self . "@ + id
        + " { args . push_front (arg . to_string ()) ; args . push_front (std :: concat ! (\"--\" , \""@
        + kebab(id) + "\") . to_string ()) ; }"@) by {
        reveal_strlit(" { args . push_front (arg . to_string ()) ; args . push_front (std :: concat ! (\"--\" , ");
        reveal_strlit(" { args . push_front (arg . to_string ()) ; args . push_front (std :: concat ! (\"--\" , \"");
        reveal_strlit("\"");
        reveal_strlit(") . to_string ()) ; }");
        reveal_strlit("\") . to_string ()) ; }");
    }
    crate::helpers::to_kebab_case::lemma_kebab_is_lower(id);
}

/// The header of the generated method.
pub open spec fn method_head(name: Seq<char>) -> Seq<char> {
    "impl "@ + name + " { pub fn to_cli_args (& self) -> std :: collections :: VecDeque < String > { "@
}

/// The match arm of a variant: a tuple variant puts its name in front of its
/// subcommand's arguments, a unit variant is its name alone; a variant with
/// named fields stops the derive.
pub open spec fn spec_to_cli_args_arm(v: Variant) -> Result<Seq<char>, DeriveError> {
    let id = v.ident@;
    let lit = quoted(kebab(id));
    match v.fields {
        Fields::Unnamed(_) => Ok(
            "Self :: "@ + id
                + " (subcommand) => { let mut args = subcommand . to_cli_args () ; args . push_front ("@
                + lit + " . to_owned ()) ; args }"@,
        ),
        Fields::Unit => Ok(
            "Self :: "@ + id
                + " => { let mut args = std :: collections :: VecDeque :: new () ; args . push_front ("@
                + lit + " . to_owned ()) ; args }"@,
        ),
        Fields::Named(_) => Err(DeriveError::OnlyUnnamedOrUnitFields),
    }
}

/// The arm of a tuple or unit variant puts the variant's name in kebab case
/// (so without underscores or upper case letters) in front, as a string
/// literal: `args . push_front ("{kebab name}" . to_owned ())`.
pub proof fn lemma_arm_names_variant_in_kebab_case(v: Variant)
    ensures
        !(v.fields is Named) ==> (spec_to_cli_args_arm(v) matches Ok(t) && ({
            let p = "args . push_front (\""@ + kebab(v.ident@) + "\" . to_owned ()) ; args }"@;
            t.len() >= p.len() && t.subrange(t.len() - p.len(), t.len() as int) == p
        })),
        forall|k: int| 0 <= k < kebab(v.ident@).len() ==> #[trigger] kebab(v.ident@)[k] != '_' && !('A'
            <= kebab(v.ident@)[k] && kebab(v.ident@)[k] <= 'Z'),
{
    let id = v.ident@;
    let flag_lit = quoted(kebab(id));
    let p = "args . push_front (\""@ + kebab(id) + "\" . to_owned ()) ; args }"@;
    let end = flag_lit + " . to_owned ()) ; args }"@;
    assert(end =~= "\""@ + kebab(id) + "\" . to_owned ()) ; args }"@) by {
        reveal_strlit("\"");
        reveal_strlit(" . to_owned ()) ; args }");
        reveal_strlit("\" . to_owned ()) ; args }");
    }
    assert(p =~= "args . push_front ("@ + end) by {
        reveal_strlit("args . push_front (\"");
        reveal_strlit("args . push_front (");
        reveal_strlit("\"");
    }
    match v.fields {
        Fields::Unnamed(_) => {
            let a = "Self :: "@ + id
                + " (subcommand) => { let mut args = subcommand . to_cli_args () ; "@;
            assert(" (subcommand) => { let mut args = subcommand . to_cli_args () ; args . push_front ("@
                =~= " (subcommand) => { let mut args = subcommand . to_cli_args () ; "@ + "args . push_front ("@) by {
                reveal_strlit(" (subcommand) => { let mut args = subcommand . to_cli_args () ; args . push_front (");
                reveal_strlit(" (subcommand) => { let mut args = subcommand . to_cli_args () ; ");
                reveal_strlit("args . push_front (");
            }
            let t = spec_to_cli_args_arm(v)->Ok_0;
            assert(t =~= a + p);
            assert((a + p).subrange(a.len() as int, (a + p).len() as int) =~= p);
        },
        Fields::Unit => {
            let a = "Self :: "@ + id
                + " => { let mut args = std :: collections :: VecDeque :: new () ; "@;
            assert(" => { let mut args = std :: collections :: VecDeque :: new () ; args . push_front ("@
                =~= " => { let mut args = std :: collections :: VecDeque :: new () ; "@ + "args . push_front ("@) by {
                reveal_strlit(" => { let mut args = std :: collections :: VecDeque :: new () ; args . push_front (");
                reveal_strlit(" => { let mut args = std :: collections :: VecDeque :: new () ; ");
                reveal_strlit("args . push_front (");
            }
            let t = spec_to_cli_args_arm(v)->Ok_0;
            assert(t =~= a + p);
            assert((a + p).subrange(a.len() as int, (a + p).len() as int) =~= p);
        },
        Fields::Named(_) => {},
    }
    crate::helpers::to_kebab_case::lemma_kebab_is_lower(id);
}

/// The text of `#[derive(ToCliArgs)]` for the item. For a struct: the method
/// starts the list (empty, or from the subcommand field), runs the
/// statements in the reverse of the order they were made, so that the first
/// field ends up first, and returns the list. For an enum: a match with one
/// arm per variant. A union is refused.
pub open spec fn spec_impl_to_cli_args(ast: DeriveInput) -> Result<Seq<char>, DeriveError> {
    let name = ast.ident@;
    match ast.data {
        Data::Struct(fs) => {
            let st = fields_fold(fields_of(fs));
            if st.2 {
                Err(DeriveError::OnlyGroupTokens)
            } else {
                Ok(method_head(name) + st.0 + " ; "@ + each_followed_by(st.1.reverse(), " ; "@) + "args } }"@)
            }
        },
        Data::Enum(vs) => match collect_ok(vs@.map_values(|v: Variant| spec_to_cli_args_arm(v))) {
            Err(e) => Err(e),
            Ok(arms) => Ok(method_head(name) + "match self { "@ + each_followed_by(arms, " , "@) + "} } }"@),
        },
        Data::Union => Err(DeriveError::OnlyStructsAndEnums),
    }
}

/// The method's state as it is built.
struct ArgsBuilder {
    sub: String,
    pushes: Vec<String>,
    aborted: bool,
}

spec fn builder_view(b: ArgsBuilder) -> ArgsState {
    (b.sub@, views(b.pushes@), b.aborted)
}

fn flag_text(id: &String, flag: &String) -> (s: String)
    ensures
        s@ == push_flag(id@, flag@),
{
    let mut s = text_from("if let Some (arg) = & self . ");
    push_text(&mut s, id);
    s.append(" { args . push_front (arg . to_string ()) ; args . push_front (std :: concat ! (\"--\" , ");
    push_text(&mut s, flag);
    s.append(") . to_string ()) ; }");
    s
}

fn quote_text(s: &String) -> (q: String)
    ensures
        q@ == quoted(s@),
{
    let mut q = text_from("\"");
    push_text(&mut q, s);
    q.append("\"");
    q
}

fn apply_items(b: &mut ArgsBuilder, items: &Vec<Token>, id: &String)
    requires
        !old(b).aborted,
    ensures
        builder_view(*final(b)) == items_fold(builder_view(*old(b)), items@, id@),
{
    let ghost start = builder_view(*b);
    let mut i: usize = 0;
    while i < items.len()
        invariant
            i <= items.len(),
            !b.aborted,
            builder_view(*b) == items_fold(start, items@.take(i as int), id@),
        decreases items.len() - i,
    {
        let t = &items[i];
        proof {
            assert(items@.take(i + 1).drop_last() =~= items@.take(i as int));
            assert(items@.take(i + 1).last() == *t);
        }
        match t.kind {
            TokenKind::Ident => {
                if text_is(&t.text, "subcommand") {
                    let mut s = text_from("let mut args = self . ");
                    push_text(&mut s, id);
                    s.append(
                        " . as_ref () . map (| subcommand | subcommand . to_cli_args ()) . unwrap_or_default () ;",
                    );
                    b.sub = s;
                } else if text_is(&t.text, "long") {
                    let k = to_kebab_case(id.clone());
                    let q = quote_text(&k);
                    let p = flag_text(id, &q);
                    proof {
                        lemma_views_push(b.pushes@, p);
                    }
                    b.pushes.push(p);
                }
            },
            TokenKind::Literal => {
                let ghost before = views(b.pushes@);
                if b.pushes.len() > 0 {
                    let _ = b.pushes.pop();
                    proof {
                        assert(views(b.pushes@) =~= before.drop_last());
                    }
                }
                let p = flag_text(id, &t.text);
                proof {
                    lemma_views_push(b.pushes@, p);
                }
                b.pushes.push(p);
            },
            _ => {},
        }
        i = i + 1;
    }
    proof {
        assert(items@.take(items.len() as int) =~= items@);
    }
}

fn apply_tokens(b: &mut ArgsBuilder, toks: &Vec<AttrToken>, id: &String)
    requires
        !old(b).aborted,
    ensures
        builder_view(*final(b)) == toks_fold(builder_view(*old(b)), toks@, id@),
{
    let ghost start = builder_view(*b);
    let mut i: usize = 0;
    while i < toks.len()
        invariant
            i <= toks.len(),
            builder_view(*b) == toks_fold(start, toks@.take(i as int), id@),
            start == builder_view(*old(b)),
            !start.2,
        decreases toks.len() - i,
    {
        proof {
            assert(toks@.take(i + 1).drop_last() =~= toks@.take(i as int));
            assert(toks@.take(i + 1).last() == toks@[i as int]);
        }
        if b.aborted {
            proof {
                lemma_toks_fold_aborted(start, toks@, i as int, id@);
            }
            return;
        }
        match &toks[i] {
            AttrToken::Group(g) => {
                apply_items(b, &g.tokens, id);
            },
            AttrToken::Other(_) => {
                b.aborted = true;
            },
        }
        i = i + 1;
    }
    proof {
        assert(toks@.take(toks.len() as int) =~= toks@);
    }
}

proof fn lemma_toks_fold_aborted(start: ArgsState, toks: Seq<AttrToken>, i: int, id: Seq<char>)
    requires
        0 <= i <= toks.len(),
        toks_fold(start, toks.take(i), id).2,
    ensures
        toks_fold(start, toks, id) == toks_fold(start, toks.take(i), id),
    decreases toks.len() - i,
{
    if i < toks.len() {
        assert(toks.take(i + 1).drop_last() =~= toks.take(i));
        lemma_toks_fold_aborted(start, toks, i + 1, id);
    } else {
        assert(toks.take(i) =~= toks);
    }
}

proof fn lemma_attrs_fold_aborted(start: ArgsState, attrs: Seq<Attribute>, i: int, id: Seq<char>)
    requires
        0 <= i <= attrs.len(),
        attrs_fold(start, attrs.take(i), id).2,
    ensures
        attrs_fold(start, attrs, id) == attrs_fold(start, attrs.take(i), id),
    decreases attrs.len() - i,
{
    if i < attrs.len() {
        let st = attrs_fold(start, attrs.take(i), id);
        assert(attrs.take(i + 1).drop_last() =~= attrs.take(i));
        lemma_toks_fold_stays(st, attrs[i].tokens@, id);
        lemma_attrs_fold_aborted(start, attrs, i + 1, id);
    } else {
        assert(attrs.take(i) =~= attrs);
    }
}

proof fn lemma_toks_fold_stays(st: ArgsState, toks: Seq<AttrToken>, id: Seq<char>)
    requires
        st.2,
    ensures
        toks_fold(st, toks, id) == st,
    decreases toks.len(),
{
    if toks.len() > 0 {
        lemma_toks_fold_stays(st, toks.drop_last(), id);
    }
}

fn apply_attrs(b: &mut ArgsBuilder, attrs: &Vec<Attribute>, id: &String)
    requires
        !old(b).aborted,
    ensures
        builder_view(*final(b)) == attrs_fold(builder_view(*old(b)), attrs@, id@),
{
    let ghost start = builder_view(*b);
    let mut i: usize = 0;
    while i < attrs.len()
        invariant
            i <= attrs.len(),
            builder_view(*b) == attrs_fold(start, attrs@.take(i as int), id@),
            start == builder_view(*old(b)),
            !start.2,
        decreases attrs.len() - i,
    {
        proof {
            assert(attrs@.take(i + 1).drop_last() =~= attrs@.take(i as int));
            assert(attrs@.take(i + 1).last() == attrs@[i as int]);
        }
        if b.aborted {
            proof {
                lemma_attrs_fold_aborted(start, attrs@, i as int, id@);
            }
            return;
        }
        if attr_path_is(&attrs[i], "clap") {
            apply_tokens(b, &attrs[i].tokens, id);
        }
        i = i + 1;
    }
    proof {
        assert(attrs@.take(attrs.len() as int) =~= attrs@);
    }
}

fn arm_text(v: &Variant) -> (r: Result<String, DeriveError>)
    ensures
        res_view(r) == spec_to_cli_args_arm(*v),
{
    let k = to_kebab_case(v.ident.clone());
    let lit = quote_text(&k);
    match &v.fields {
        Fields::Unnamed(_) => {
            let mut s = text_from("Self :: ");
            push_text(&mut s, &v.ident);
            s.append(" (subcommand) => { let mut args = subcommand . to_cli_args () ; args . push_front (");
            push_text(&mut s, &lit);
            s.append(" . to_owned ()) ; args }");
            Ok(s)
        },
        Fields::Unit => {
            let mut s = text_from("Self :: ");
            push_text(&mut s, &v.ident);
            s.append(
                " => { let mut args = std :: collections :: VecDeque :: new () ; args . push_front (",
            );
            push_text(&mut s, &lit);
            s.append(" . to_owned ()) ; args }");
            Ok(s)
        },
        Fields::Named(_) => Err(DeriveError::OnlyUnnamedOrUnitFields),
    }
}

fn head_text(name: &String) -> (s: String)
    ensures
        s@ == method_head(name@),
{
    let mut s = text_from("impl ");
    push_text(&mut s, name);
    s.append(" { pub fn to_cli_args (& self) -> std :: collections :: VecDeque < String > { ");
    s
}

/// The fields of a struct have names up to the first one at which the
/// attributes read so far have stopped the derive.
pub open spec fn named_until_abort(fields: Seq<Field>) -> bool {
    all_named(fields) || exists|i: int|
        0 <= i < fields.len() && !has_ident(#[trigger] fields[i]) && (forall|j: int|
            0 <= j < i ==> has_ident(#[trigger] fields[j])) && fields_fold(fields.take(i)).2
}

/// The inputs on which the derive runs to its end or to an error (see
/// `named_until_abort`).
pub open spec fn to_cli_args_input_ok(ast: DeriveInput) -> bool {
    match ast.data {
        Data::Struct(fs) => named_until_abort(fields_of(fs)),
        _ => true,
    }
}

proof fn lemma_named_before_abort(fields: Seq<Field>, i: int)
    requires
        named_until_abort(fields),
        0 <= i < fields.len(),
        forall|j: int| 0 <= j < i ==> has_ident(#[trigger] fields[j]),
        !fields_fold(fields.take(i)).2,
    ensures
        has_ident(fields[i]),
{
    if !has_ident(fields[i]) && !all_named(fields) {
        let k = choose|k: int|
            0 <= k < fields.len() && !has_ident(#[trigger] fields[k]) && (forall|j: int|
                0 <= j < k ==> has_ident(#[trigger] fields[j])) && fields_fold(fields.take(k)).2;
        if k < i {
            assert(has_ident(fields[k]));
        } else if k > i {
            assert(has_ident(fields[i]));
        }
    }
}

/// Generates `#[derive(ToCliArgs)]` (see `spec_impl_to_cli_args`).
pub fn impl_to_cli_args(ast: &DeriveInput) -> (r: Result<String, DeriveError>)
    requires
        to_cli_args_input_ok(*ast),
    ensures
        res_view(r) == spec_impl_to_cli_args(*ast),
{
    let name = &ast.ident;
    match &ast.data {
        Data::Struct(fs) => {
            let empty: Vec<Field> = Vec::new();
            let fields: &Vec<Field> = match fs {
                Fields::Named(v) => v,
                Fields::Unnamed(v) => v,
                Fields::Unit => &empty,
            };
            proof {
                assert(fields@ == fields_of(*fs));
            }
            let mut b = ArgsBuilder {
                sub: text_from("let mut args = std :: collections :: VecDeque :: new () ;"),
                pushes: Vec::new(),
                aborted: false,
            };
            b.pushes.push(String::new());
            proof {
                assert(views(b.pushes@) =~= seq![Seq::<char>::empty()]);
                assert(fields@.take(0) =~= Seq::<Field>::empty());
            }
            let mut i: usize = 0;
            while i < fields.len()
                invariant
                    i <= fields.len(),
                    named_until_abort(fields@),
                    forall|j: int| 0 <= j < i ==> has_ident(#[trigger] fields@[j]),
                    builder_view(b) == fields_fold(fields@.take(i as int)),
                    fields_fold(fields@).2 ==> spec_impl_to_cli_args(*ast) == Err::<Seq<char>, DeriveError>(
                        DeriveError::OnlyGroupTokens,
                    ),
                decreases fields.len() - i,
            {
                let f = &fields[i];
                proof {
                    assert(fields@.take(i + 1).drop_last() =~= fields@.take(i as int));
                    assert(fields@.take(i + 1).last() == *f);
                }
                if b.aborted {
                    proof {
                        lemma_fields_fold_aborted(fields@, i as int);
                    }
                    return Err(DeriveError::OnlyGroupTokens);
                }
                proof {
                    lemma_named_before_abort(fields@, i as int);
                }
                let id = field_ident(f);
                if f.attrs.len() == 0 {
                    let mut p = text_from("if let Some (arg) = & self . ");
                    push_text(&mut p, id);
                    p.append(" { args . push_front (arg . to_string ()) }");
                    proof {
                        lemma_views_push(b.pushes@, p);
                    }
                    b.pushes.push(p);
                } else {
                    apply_attrs(&mut b, &f.attrs, id);
                }
                i = i + 1;
            }
            proof {
                assert(fields@.take(fields.len() as int) =~= fields@);
            }
            if b.aborted {
                return Err(DeriveError::OnlyGroupTokens);
            }
            let mut rev: Vec<String> = Vec::new();
            let n = b.pushes.len();
            let mut k: usize = 0;
            while k < n
                invariant
                    n == b.pushes.len(),
                    k <= n,
                    views(rev@) == views(b.pushes@).reverse().take(k as int),
                decreases n - k,
            {
                let p = b.pushes[n - 1 - k].clone();
                proof {
                    lemma_views_push(rev@, p);
                    assert(views(b.pushes@).reverse().take(k + 1) =~= views(b.pushes@).reverse().take(
                        k as int,
                    ).push(p@));
                }
                rev.push(p);
                k = k + 1;
            }
            proof {
                assert(views(b.pushes@).reverse().take(n as int) =~= views(b.pushes@).reverse());
            }
            let mut s = head_text(name);
            push_text(&mut s, &b.sub);
            s.append(" ; ");
            push_each_followed_by(&mut s, &rev, " ; ");
            s.append("args } }");
            Ok(s)
        },
        Data::Enum(variants) => {
            let ghost rs = variants@.map_values(|v: Variant| spec_to_cli_args_arm(v));
            let mut arms: Vec<String> = Vec::new();
            let mut i: usize = 0;
            proof {
                assert(rs.take(0) =~= Seq::<Result<Seq<char>, DeriveError>>::empty());
                assert(views(arms@) =~= Seq::<Seq<char>>::empty());
            }
            while i < variants.len()
                invariant
                    i <= variants.len(),
                    rs == variants@.map_values(|v: Variant| spec_to_cli_args_arm(v)),
                    forall|e: DeriveError|
                        collect_ok(rs) == Err::<Seq<Seq<char>>, DeriveError>(e) ==> spec_impl_to_cli_args(*ast)
                            == Err::<Seq<char>, DeriveError>(e),
                    collect_ok(rs.take(i as int)) == Ok::<Seq<Seq<char>>, DeriveError>(views(arms@)),
                decreases variants.len() - i,
            {
                proof {
                    lemma_collect_ok_step(rs, i as int, views(arms@));
                }
                let r = arm_text(&variants[i]);
                proof {
                    assert(rs[i as int] == res_view(r));
                }
                match r {
                    Ok(x) => {
                        proof {
                            lemma_views_push(arms@, x);
                        }
                        arms.push(x);
                    },
                    Err(e) => {
                        proof {
                            lemma_collect_ok_err(rs, i + 1);
                        }
                        return Err(e);
                    },
                }
                i = i + 1;
            }
            proof {
                assert(rs.take(variants.len() as int) =~= rs);
            }
            let mut s = head_text(name);
            s.append("match self { ");
            push_each_followed_by(&mut s, &arms, " , ");
            s.append("} } }");
            Ok(s)
        },
        Data::Union => Err(DeriveError::OnlyStructsAndEnums),
    }
}

proof fn lemma_fields_fold_aborted(fields: Seq<Field>, i: int)
    requires
        0 <= i <= fields.len(),
        fields_fold(fields.take(i)).2,
    ensures
        fields_fold(fields).2,
    decreases fields.len() - i,
{
    if i < fields.len() {
        assert(fields.take(i + 1).drop_last() =~= fields.take(i));
        lemma_fields_fold_aborted(fields, i + 1);
    } else {
        assert(fields.take(i) =~= fields);
    }
}

} // verus!
