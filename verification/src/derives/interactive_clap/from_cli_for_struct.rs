//! The `from` function generated for a struct: each field is read from the
//! parsed command line or asked for, the context scope is built from the
//! plain fields, and the named argument and the subcommand are read with the
//! context that follows from it.
use vstd::prelude::*;

use crate::attrs::{
    context_attrs_ok, context_dirs, context_fold, ic_tokens, scan, scan_groups, GroupTest,
    Scan,
};
use crate::derives::interactive_clap::from_cli_enum::{cli_name, cli_name_of, input_context, lemma_one_context_group};
use crate::helpers::snake_case_to_camel_case::{camel_convertible, snake_case_to_camel_case, snake_to_camel};
use crate::model::{
    all_named, field_ident, has_ident, fields_of, ident_of, lemma_named_at, named_until_stop, AttrToken, DeriveError,
    DeriveInput, Field, FieldType, Fields, TokenGroup,
};
use crate::text::{
    collect_ok, each_followed_by, first_nonempty, lemma_collect_ok_err, lemma_collect_ok_step,
    lemma_first_nonempty_skip, lemma_first_nonempty_stop, lemma_views_push, nonempty_only,
    has_substring, push_each_followed_by, push_text, render_tokens, res_view, text_from, views,
};

verus! {

/// The identifier of the last segment of a path type; empty for any other
/// type.
pub open spec fn last_segment_ident(ty: FieldType) -> Seq<char> {
    match ty.path {
        Some(segs) => if segs@.len() > 0 {
            segs@.last().ident@
        } else {
            Seq::empty()
        },
        None => Seq::empty(),
    }
}

/// The name of the enum generated for a named argument of type `ty` in the
/// item `name`.
pub open spec fn named_arg_enum_name(ty: FieldType, name: Seq<char>) -> Seq<char> {
    "ClapNamedArg"@ + last_segment_ident(ty) + "For"@ + name
}

/// Builds `ClapNamedArg{last segment of ty}For{name}`.
pub fn named_arg_enum(ty: &FieldType, name: &String) -> (s: String)
    ensures
        s@ == named_arg_enum_name(*ty, name@),
{
    let mut s = text_from("ClapNamedArg");
    match &ty.path {
        Some(segs) => {
            if segs.len() > 0 {
                push_text(&mut s, &segs[segs.len() - 1].ident);
            }
        },
        None => {},
    }
    s.append("For");
    push_text(&mut s, name);
    s
}

/// The field's identifier when it is neither a subcommand nor a named
/// argument: a field without attributes, or one whose first argument group
/// (before any other token) mentions neither; empty otherwise.
pub open spec fn spec_field_without_subcommand(f: Field) -> Result<Seq<char>, DeriveError> {
    if f.attrs@.len() == 0 {
        Ok(ident_of(f))
    } else {
        match scan(ic_tokens(f.attrs@), GroupTest::NotNamedArgNorSubcommand) {
            Scan::Found => Ok(ident_of(f)),
            Scan::Missing => Ok(Seq::empty()),
            Scan::Abort => Err(DeriveError::OnlyGroupTokens),
        }
    }
}

/// The statement that reads a plain field from the parsed command line or
/// asks for it.
pub open spec fn field_value_text(id: Seq<char>) -> Seq<char> {
    "let "@ + id + " = match optional_clap_variant . clone () . and_then (| clap_variant | clap_variant . "@
        + id + ") { Some ("@ + id + ") => "@ + id + " , None => Self :: input_"@ + id
        + " (& context) ? , } ;"@
}

/// The statement reading the field, for the same fields as
/// `spec_field_without_subcommand`; empty for the others.
pub open spec fn spec_fields_value(f: Field) -> Result<Seq<char>, DeriveError> {
    if f.attrs@.len() == 0 {
        Ok(field_value_text(ident_of(f)))
    } else {
        match scan(ic_tokens(f.attrs@), GroupTest::NotNamedArgNorSubcommand) {
            Scan::Found => Ok(field_value_text(ident_of(f))),
            Scan::Missing => Ok(Seq::empty()),
            Scan::Abort => Err(DeriveError::OnlyGroupTokens),
        }
    }
}

/// The statements that read a named argument field with the enum generated
/// for it; with an output context, the new context is made first.
pub open spec fn named_arg_text(name: Seq<char>, f: Field, plain: bool) -> Seq<char> {
    let id = ident_of(f);
    let ty = f.ty.text@;
    let en = named_arg_enum_name(f.ty, name);
    let variant = snake_to_camel(id);
    if plain {
        "let "@ + id + " = "@ + ty
            + " :: from (optional_clap_variant . and_then (| clap_variant | match clap_variant . "@
            + id + " { Some ("@ + en + " :: "@ + variant
            + " (cli_sender)) => Some (cli_sender) , None => None , }) , context . into () ,) ? ;"@
    } else {
        "let new_context = "@ + name
            + "Context :: from_previous_context (context , & new_context_scope) ; let "@ + id
            + " = "@ + ty
            + " :: from (optional_clap_variant . and_then (| clap_variant | match clap_variant . "@
            + id + " { Some ("@ + en + " :: "@ + variant
            + " (cli_arg)) => Some (cli_arg) , None => None , }) , new_context . into () ,) ? ;"@
    }
}

/// The statements reading the field when its first argument group (before
/// any other token) mentions `named_arg`; empty otherwise.
pub open spec fn spec_field_value_named_arg(name: Seq<char>, f: Field, output: Seq<char>) -> Result<
    Seq<char>,
    DeriveError,
> {
    if f.attrs@.len() == 0 {
        Ok(Seq::empty())
    } else {
        match scan(ic_tokens(f.attrs@), GroupTest::NamedArg) {
            Scan::Found => Ok(named_arg_text(name, f, output.len() == 0)),
            Scan::Missing => Ok(Seq::empty()),
            Scan::Abort => Err(DeriveError::OnlyGroupTokens),
        }
    }
}

/// The statements that read a subcommand field or ask for its variant; with
/// an output context, the new context is made first.
pub open spec fn subcommand_text(name: Seq<char>, f: Field, plain: bool) -> Seq<char> {
    let id = ident_of(f);
    let ty = f.ty.text@;
    if plain {
        "let "@ + id
            + " = match optional_clap_variant . and_then (| clap_variant | clap_variant . "@ + id
            + ") { Some (cli_arg) => "@ + ty + " :: from (Some (cli_arg) , context) ? , None => "@
            + ty + " :: choose_variant (context) ? , } ;"@
    } else {
        "let new_context = "@ + name
            + "Context :: from_previous_context (context , & new_context_scope) ; let "@ + id
            + " = match optional_clap_variant . and_then (| clap_variant | clap_variant . "@ + id
            + ") { Some (cli_arg) => "@ + ty
            + " :: from (Some (cli_arg) , new_context) ? , None => "@ + ty
            + " :: choose_variant (new_context) ? , } ;"@
    }
}

/// The statements reading the field when its first argument group (before
/// any other token) mentions `subcommand`; empty otherwise.
pub open spec fn spec_field_value_subcommand(name: Seq<char>, f: Field, output: Seq<char>) -> Result<
    Seq<char>,
    DeriveError,
> {
    if f.attrs@.len() == 0 {
        Ok(Seq::empty())
    } else {
        match scan(ic_tokens(f.attrs@), GroupTest::Subcommand) {
            Scan::Found => Ok(subcommand_text(name, f, output.len() == 0)),
            Scan::Missing => Ok(Seq::empty()),
            Scan::Abort => Err(DeriveError::OnlyGroupTokens),
        }
    }
}

/// The field's initializer in the resulting struct: taken from the context
/// scope when the field is one of `fields_without_subcommand`, else the local
/// of the same name.
pub open spec fn spec_struct_field(f: Field, fields_without_subcommand: Seq<Seq<char>>) -> Seq<char> {
    let id = ident_of(f);
    if fields_without_subcommand.contains(id) {
        id + " : new_context_scope . "@ + id
    } else {
        id
    }
}

/// The search for the named argument converts the name of the field it
/// stops at: the first field whose first argument group (before any other
/// token) mentions `named_arg`, when no field before it stopped the search.
pub open spec fn named_args_convertible(fields: Seq<Field>) -> bool {
    forall|i: int|
        0 <= i < fields.len() && (forall|j: int|
            0 <= j < i ==> scan(ic_tokens((#[trigger] fields[j]).attrs@), GroupTest::NamedArg)
                == Scan::Missing) && scan(ic_tokens((#[trigger] fields[i]).attrs@), GroupTest::NamedArg)
            == Scan::Found ==> camel_convertible(ident_of(fields[i]))
}

/// The generated `from` function of a struct: empty when the item asks for
/// the default `from` (`fn_from_cli` and `default` in one attribute
/// argument). Otherwise it reads each plain field, builds the context scope
/// of the plain fields, reads the first named argument and the first
/// subcommand, and returns the struct.
pub open spec fn spec_from_cli_for_struct(ast: DeriveInput, fields: Seq<Field>) -> Result<
    Seq<char>,
    DeriveError,
> {
    let d = context_fold(ic_tokens(ast.attrs@), "fn_from_cli"@);
    let name = ast.ident@;
    let output = d.2;
    if d.3 {
        Ok(Seq::empty())
    } else {
        match collect_ok(fields.map_values(|f: Field| spec_field_without_subcommand(f))) {
            Err(e) => Err(e),
            Ok(all) => {
                let fws = nonempty_only(all);
                match first_nonempty(
                    fields.map_values(|f: Field| spec_field_value_named_arg(name, f, output)),
                ) {
                    Err(e) => Err(e),
                    Ok(named) => match first_nonempty(
                        fields.map_values(|f: Field| spec_field_value_subcommand(name, f, output)),
                    ) {
                        Err(e) => Err(e),
                        Ok(sub) => match collect_ok(fields.map_values(|f: Field| spec_fields_value(f))) {
                            Err(e) => Err(e),
                            Ok(values) => Ok(
                                "pub fn from (optional_clap_variant : Option < "@ + cli_name_of(name)
                                    + " > , context : "@ + input_context(d)
                                    + " ,) -> color_eyre :: eyre :: Result < Self > { "@
                                    + each_followed_by(nonempty_only(values), " "@)
                                    + "let new_context_scope = InteractiveClapContextScopeFor"@ + name
                                    + " { "@ + each_followed_by(fws, " , "@) + "} ; "@ + named + " "@
                                    + sub + " Ok (Self { "@ + each_followed_by(
                                    fields.map_values(|f: Field| spec_struct_field(f, fws)),
                                    " , "@,
                                ) + "}) }"@,
                            ),
                        },
                    },
                }
            },
        }
    }
}

/// The `from` generated for a struct whose only `#[interactive_clap(..)]`
/// argument group gives its context type `T` (by `context = T` or
/// `input_context = T`) takes the context as a parameter of type `T`:
/// `context : T ,)`.
pub proof fn lemma_struct_from_context_type(ast: DeriveInput, fields: Seq<Field>, g: TokenGroup)
    requires
        ic_tokens(ast.attrs@) == seq![AttrToken::Group(g)],
        has_substring(g.stream_text@, "context"@),
        !has_substring(g.stream_text@, "output_context"@),
        !has_substring(g.stream_text@, "default"@),
    ensures
        spec_from_cli_for_struct(ast, fields) matches Ok(t) ==> ({
            let p = "pub fn from (optional_clap_variant : Option < "@ + "Cli"@ + ast.ident@
                + " > , context : "@ + render_tokens(g.tokens@.skip(2)) + " ,)"@;
            t.len() >= p.len() && t.subrange(0, p.len() as int) == p
        }),
{
    lemma_one_context_group(g, "fn_from_cli"@);
    let name = ast.ident@;
    let dir = render_tokens(g.tokens@.skip(2));
    let tail = " -> color_eyre :: eyre :: Result < Self > { "@;
    assert(" ,) -> color_eyre :: eyre :: Result < Self > { "@ =~= " ,)"@ + tail) by {
        reveal_strlit(" ,) -> color_eyre :: eyre :: Result < Self > { ");
        reveal_strlit(" ,)");
        reveal_strlit(" -> color_eyre :: eyre :: Result < Self > { ");
    }
    let p = "pub fn from (optional_clap_variant : Option < "@ + "Cli"@ + name + " > , context : "@ + dir
        + " ,)"@;
    let h = "pub fn from (optional_clap_variant : Option < "@ + cli_name_of(name) + " > , context : "@ + dir
        + " ,) -> color_eyre :: eyre :: Result < Self > { "@;
    assert(h.subrange(0, p.len() as int) =~= p) by {
        assert(h =~= p + tail);
    }
    if let Ok(t) = spec_from_cli_for_struct(ast, fields) {
        assert(h.subrange(0, h.len() as int) =~= h);
        assert forall|x: Seq<char>, y: Seq<char>, k: int| 0 <= k <= x.len() implies #[trigger] (x
            + y).subrange(0, k) == x.subrange(0, k) by {
            assert((x + y).subrange(0, k) =~= x.subrange(0, k));
        }
        assert(t.subrange(0, h.len() as int) == h);
        assert(t.subrange(0, p.len() as int) =~= t.subrange(0, h.len() as int).subrange(0, p.len() as int));
    }
}

/// A field is read from the command line (or asked for) exactly when it is a
/// plain field of the context scope, and one stops the derive exactly when
/// the other does: the statement reading it is empty exactly when its plain
/// identifier is, and is the read of that field otherwise.
pub proof fn lemma_plain_fields_are_read(f: Field)
    requires
        has_ident(f),
    ensures
        spec_field_without_subcommand(f) is Err <==> spec_fields_value(f) is Err,
        spec_field_without_subcommand(f) == Ok::<Seq<char>, DeriveError>(ident_of(f))
            <==> spec_fields_value(f) == Ok::<Seq<char>, DeriveError>(field_value_text(ident_of(f))),
        spec_field_without_subcommand(f) == Ok::<Seq<char>, DeriveError>(Seq::empty())
            <==> spec_fields_value(f) == Ok::<Seq<char>, DeriveError>(Seq::empty()),
{
    reveal_strlit("let ");
    assert(field_value_text(ident_of(f)).len() > 0);
    assert(ident_of(f) != Seq::<char>::empty());
}

/// The identifier of a plain field (see `spec_field_without_subcommand`).
pub fn field_without_subcommand(field: &Field) -> (r: Result<String, DeriveError>)
    requires
        has_ident(*field),
    ensures
        res_view(r) == spec_field_without_subcommand(*field),
{
    let id = field_ident(field);
    if field.attrs.len() == 0 {
        return Ok(id.clone());
    }
    match scan_groups(&field.attrs, GroupTest::NotNamedArgNorSubcommand) {
        Scan::Found => Ok(id.clone()),
        Scan::Missing => Ok(String::new()),
        Scan::Abort => Err(DeriveError::OnlyGroupTokens),
    }
}

fn value_text(id: &String) -> (s: String)
    ensures
        s@ == field_value_text(id@),
{
    let mut s = text_from("let ");
    push_text(&mut s, id);
    s.append(
        " = match optional_clap_variant . clone () . and_then (| clap_variant | clap_variant . ",
    );
    push_text(&mut s, id);
    s.append(") { Some (");
    push_text(&mut s, id);
    s.append(") => ");
    push_text(&mut s, id);
    s.append(" , None => Self :: input_");
    push_text(&mut s, id);
    s.append(" (& context) ? , } ;");
    s
}

/// The statement reading a plain field (see `spec_fields_value`).
pub fn fields_value(field: &Field) -> (r: Result<String, DeriveError>)
    requires
        has_ident(*field),
    ensures
        res_view(r) == spec_fields_value(*field),
{
    let id = field_ident(field);
    if field.attrs.len() == 0 {
        return Ok(value_text(id));
    }
    match scan_groups(&field.attrs, GroupTest::NotNamedArgNorSubcommand) {
        Scan::Found => Ok(value_text(id)),
        Scan::Missing => Ok(String::new()),
        Scan::Abort => Err(DeriveError::OnlyGroupTokens),
    }
}

/// The statements reading a named argument field (see
/// `spec_field_value_named_arg`).
pub fn field_value_named_arg(name: &String, field: &Field, output_context_dir: &String) -> (r: Result<
    String,
    DeriveError,
>)
    requires
        has_ident(*field),
        scan(ic_tokens(field.attrs@), GroupTest::NamedArg) == Scan::Found ==> camel_convertible(
            ident_of(*field),
        ),
    ensures
        res_view(r) == spec_field_value_named_arg(name@, *field, output_context_dir@),
{
    let id = field_ident(field);
    if field.attrs.len() == 0 {
        return Ok(String::new());
    }
    match scan_groups(&field.attrs, GroupTest::NamedArg) {
        Scan::Found => {},
        Scan::Missing => {
            return Ok(String::new());
        },
        Scan::Abort => {
            return Err(DeriveError::OnlyGroupTokens);
        },
    }
    let en = named_arg_enum(&field.ty, name);
    let variant = snake_case_to_camel_case(id.clone());
    let mut s = String::new();
    if output_context_dir.as_str().unicode_len() == 0 {
        s.append("let ");
        push_text(&mut s, id);
        s.append(" = ");
        push_text(&mut s, &field.ty.text);
        s.append(" :: from (optional_clap_variant . and_then (| clap_variant | match clap_variant . ");
        push_text(&mut s, id);
        s.append(" { Some (");
        push_text(&mut s, &en);
        s.append(" :: ");
        push_text(&mut s, &variant);
        s.append(" (cli_sender)) => Some (cli_sender) , None => None , }) , context . into () ,) ? ;");
    } else {
        s.append("let new_context = ");
        push_text(&mut s, name);
        s.append("Context :: from_previous_context (context , & new_context_scope) ; let ");
        push_text(&mut s, id);
        s.append(" = ");
        push_text(&mut s, &field.ty.text);
        s.append(" :: from (optional_clap_variant . and_then (| clap_variant | match clap_variant . ");
        push_text(&mut s, id);
        s.append(" { Some (");
        push_text(&mut s, &en);
        s.append(" :: ");
        push_text(&mut s, &variant);
        s.append(" (cli_arg)) => Some (cli_arg) , None => None , }) , new_context . into () ,) ? ;");
    }
    Ok(s)
}

/// The statements reading a subcommand field (see
/// `spec_field_value_subcommand`).
pub fn field_value_subcommand(name: &String, field: &Field, output_context_dir: &String) -> (r: Result<
    String,
    DeriveError,
>)
    requires
        has_ident(*field),
    ensures
        res_view(r) == spec_field_value_subcommand(name@, *field, output_context_dir@),
{
    let id = field_ident(field);
    if field.attrs.len() == 0 {
        return Ok(String::new());
    }
    match scan_groups(&field.attrs, GroupTest::Subcommand) {
        Scan::Found => {},
        Scan::Missing => {
            return Ok(String::new());
        },
        Scan::Abort => {
            return Err(DeriveError::OnlyGroupTokens);
        },
    }
    let ty = &field.ty.text;
    let mut s = String::new();
    if output_context_dir.as_str().unicode_len() == 0 {
        s.append("let ");
        push_text(&mut s, id);
        s.append(" = match optional_clap_variant . and_then (| clap_variant | clap_variant . ");
        push_text(&mut s, id);
        s.append(") { Some (cli_arg) => ");
        push_text(&mut s, ty);
        s.append(" :: from (Some (cli_arg) , context) ? , None => ");
        push_text(&mut s, ty);
        s.append(" :: choose_variant (context) ? , } ;");
    } else {
        s.append("let new_context = ");
        push_text(&mut s, name);
        s.append("Context :: from_previous_context (context , & new_context_scope) ; let ");
        push_text(&mut s, id);
        s.append(" = match optional_clap_variant . and_then (| clap_variant | clap_variant . ");
        push_text(&mut s, id);
        s.append(") { Some (cli_arg) => ");
        push_text(&mut s, ty);
        s.append(" :: from (Some (cli_arg) , new_context) ? , None => ");
        push_text(&mut s, ty);
        s.append(" :: choose_variant (new_context) ? , } ;");
    }
    Ok(s)
}

/// The field's initializer in the resulting struct (see
/// `spec_struct_field`).
pub fn struct_field(field: &Field, fields_without_subcommand: &Vec<String>) -> (s: String)
    requires
        has_ident(*field),
    ensures
        s@ == spec_struct_field(*field, views(fields_without_subcommand@)),
{
    let id = field_ident(field);
    let mut found = false;
    let mut i: usize = 0;
    while i < fields_without_subcommand.len()
        invariant
            i <= fields_without_subcommand.len(),
            found <==> exists|k: int| 0 <= k < i && fields_without_subcommand@[k]@ == id@,
        decreases fields_without_subcommand.len() - i,
    {
        if fields_without_subcommand[i] == *id {
            found = true;
        }
        i = i + 1;
    }
    proof {
        let v = views(fields_without_subcommand@);
        if found {
            let k = choose|k: int| 0 <= k < i && fields_without_subcommand@[k]@ == id@;
            assert(v[k] == id@);
        } else {
            assert forall|k: int| 0 <= k < v.len() implies v[k] != id@ by {
                assert(v[k] == fields_without_subcommand@[k]@);
            }
        }
    }
    let mut s = id.clone();
    if found {
        s.append(" : new_context_scope . ");
        push_text(&mut s, id);
    }
    s
}

fn first_named_arg(name: &String, fields: &Vec<Field>, output: &String) -> (r: Result<String, DeriveError>)
    requires
        all_named(fields@),
        named_args_convertible(fields@),
    ensures
        res_view(r) == first_nonempty(
            fields@.map_values(|f: Field| spec_field_value_named_arg(name@, f, output@)),
        ),
{
    let ghost rs = fields@.map_values(|f: Field| spec_field_value_named_arg(name@, f, output@));
    let mut i: usize = 0;
    proof {
        assert(rs.skip(0) =~= rs);
    }
    while i < fields.len()
        invariant
            i <= fields.len(),
            rs == fields@.map_values(|f: Field| spec_field_value_named_arg(name@, f, output@)),
            all_named(fields@),
            named_args_convertible(fields@),
            forall|j: int|
                0 <= j < i ==> scan(ic_tokens((#[trigger] fields@[j]).attrs@), GroupTest::NamedArg)
                    == Scan::Missing,
            first_nonempty(rs) == first_nonempty(rs.skip(i as int)),
        decreases fields.len() - i,
    {
        let f = &fields[i];
        proof {
            assert(has_ident(*f));
        }
        let r = field_value_named_arg(name, f, output);
        proof {
            assert(rs[i as int] == res_view(r));
        }
        match r {
            Ok(x) => {
                if x.as_str().unicode_len() > 0 {
                    proof {
                        lemma_first_nonempty_stop(rs, i as int);
                    }
                    return Ok(x);
                }
                proof {
                    lemma_first_nonempty_skip(rs, i as int);
                    reveal_strlit("let ");
                    reveal_strlit("let new_context = ");
                    if f.attrs@.len() == 0 {
                        assert(f.attrs@ =~= Seq::<crate::model::Attribute>::empty());
                        assert(ic_tokens(f.attrs@) =~= Seq::<crate::model::AttrToken>::empty());
                    }
                }
            },
            Err(e) => {
                proof {
                    lemma_first_nonempty_stop(rs, i as int);
                }
                return Err(e);
            },
        }
        i = i + 1;
    }
    proof {
        assert(rs.skip(fields.len() as int) =~= Seq::<Result<Seq<char>, DeriveError>>::empty());
    }
    Ok(String::new())
}

fn first_subcommand(name: &String, fields: &Vec<Field>, output: &String) -> (r: Result<String, DeriveError>)
    requires
        all_named(fields@),
    ensures
        res_view(r) == first_nonempty(
            fields@.map_values(|f: Field| spec_field_value_subcommand(name@, f, output@)),
        ),
{
    let ghost rs = fields@.map_values(|f: Field| spec_field_value_subcommand(name@, f, output@));
    let mut i: usize = 0;
    proof {
        assert(rs.skip(0) =~= rs);
    }
    while i < fields.len()
        invariant
            i <= fields.len(),
            rs == fields@.map_values(|f: Field| spec_field_value_subcommand(name@, f, output@)),
            all_named(fields@),
            first_nonempty(rs) == first_nonempty(rs.skip(i as int)),
        decreases fields.len() - i,
    {
        let f = &fields[i];
        proof {
            assert(has_ident(*f));
        }
        let r = field_value_subcommand(name, f, output);
        proof {
            assert(rs[i as int] == res_view(r));
        }
        match r {
            Ok(x) => {
                if x.as_str().unicode_len() > 0 {
                    proof {
                        lemma_first_nonempty_stop(rs, i as int);
                    }
                    return Ok(x);
                }
                proof {
                    lemma_first_nonempty_skip(rs, i as int);
                }
            },
            Err(e) => {
                proof {
                    lemma_first_nonempty_stop(rs, i as int);
                }
                return Err(e);
            },
        }
        i = i + 1;
    }
    proof {
        assert(rs.skip(fields.len() as int) =~= Seq::<Result<Seq<char>, DeriveError>>::empty());
    }
    Ok(String::new())
}

/// The identifiers of the plain fields, in order, the empty results left out.
fn plain_field_idents(fields: &Vec<Field>) -> (r: Result<Vec<String>, DeriveError>)
    requires
        named_until_stop(fields@, fields@.map_values(|f: Field| spec_field_without_subcommand(f))),
    ensures
        r is Ok ==> all_named(fields@),
        match collect_ok(fields@.map_values(|f: Field| spec_field_without_subcommand(f))) {
            Ok(all) => r matches Ok(v) && views(v@) == nonempty_only(all),
            Err(e) => r == Err::<Vec<String>, DeriveError>(e),
        },
{
    let ghost rs = fields@.map_values(|f: Field| spec_field_without_subcommand(f));
    let ghost mut all: Seq<Seq<char>> = Seq::empty();
    let mut out: Vec<String> = Vec::new();
    let mut i: usize = 0;
    proof {
        assert(rs.take(0) =~= Seq::<Result<Seq<char>, DeriveError>>::empty());
        assert(views(out@) =~= nonempty_only(all));
    }
    while i < fields.len()
        invariant
            i <= fields.len(),
            rs == fields@.map_values(|f: Field| spec_field_without_subcommand(f)),
            named_until_stop(fields@, rs),
            forall|j: int| 0 <= j < i ==> has_ident(#[trigger] fields@[j]),
            collect_ok(rs.take(i as int)) == Ok::<Seq<Seq<char>>, DeriveError>(all),
            views(out@) == nonempty_only(all),
        decreases fields.len() - i,
    {
        let f = &fields[i];
        proof {
            lemma_named_at(fields@, rs, i as int);
            lemma_collect_ok_step(rs, i as int, all);
        }
        let r = field_without_subcommand(f);
        proof {
            assert(rs[i as int] == res_view(r));
        }
        match r {
            Ok(x) => {
                proof {
                    assert(all.push(x@).drop_last() =~= all);
                    all = all.push(x@);
                }
                if x.as_str().unicode_len() > 0 {
                    proof {
                        lemma_views_push(out@, x);
                    }
                    out.push(x);
                }
            },
            Err(e) => {
                proof {
                    lemma_collect_ok_err(rs, i + 1);
                }
                return Err(e);
            },
        }
        i = i + 1;
    }
    proof {
        assert(rs.take(fields.len() as int) =~= rs);
    }
    assert(all_named(fields@));
    Ok(out)
}

/// The statements reading the plain fields, in order, the empty results left
/// out.
fn plain_field_values(fields: &Vec<Field>) -> (r: Result<Vec<String>, DeriveError>)
    requires
        all_named(fields@),
    ensures
        match collect_ok(fields@.map_values(|f: Field| spec_fields_value(f))) {
            Ok(all) => r matches Ok(v) && views(v@) == nonempty_only(all),
            Err(e) => r == Err::<Vec<String>, DeriveError>(e),
        },
{
    let ghost rs = fields@.map_values(|f: Field| spec_fields_value(f));
    let ghost mut all: Seq<Seq<char>> = Seq::empty();
    let mut out: Vec<String> = Vec::new();
    let mut i: usize = 0;
    proof {
        assert(rs.take(0) =~= Seq::<Result<Seq<char>, DeriveError>>::empty());
        assert(views(out@) =~= nonempty_only(all));
    }
    while i < fields.len()
        invariant
            i <= fields.len(),
            rs == fields@.map_values(|f: Field| spec_fields_value(f)),
            all_named(fields@),
            collect_ok(rs.take(i as int)) == Ok::<Seq<Seq<char>>, DeriveError>(all),
            views(out@) == nonempty_only(all),
        decreases fields.len() - i,
    {
        let f = &fields[i];
        proof {
            assert(has_ident(*f));
            lemma_collect_ok_step(rs, i as int, all);
        }
        let r = fields_value(f);
        proof {
            assert(rs[i as int] == res_view(r));
        }
        match r {
            Ok(x) => {
                proof {
                    assert(all.push(x@).drop_last() =~= all);
                    all = all.push(x@);
                }
                if x.as_str().unicode_len() > 0 {
                    proof {
                        lemma_views_push(out@, x);
                    }
                    out.push(x);
                }
            },
            Err(e) => {
                proof {
                    lemma_collect_ok_err(rs, i + 1);
                }
                return Err(e);
            },
        }
        i = i + 1;
    }
    proof {
        assert(rs.take(fields.len() as int) =~= rs);
    }
    Ok(out)
}

/// The initializers of all fields, in order.
fn struct_fields(fields: &Vec<Field>, fws: &Vec<String>) -> (v: Vec<String>)
    requires
        all_named(fields@),
    ensures
        views(v@) == fields@.map_values(|f: Field| spec_struct_field(f, views(fws@))),
{
    let mut out: Vec<String> = Vec::new();
    let mut i: usize = 0;
    while i < fields.len()
        invariant
            i <= fields.len(),
            all_named(fields@),
            views(out@) == fields@.take(i as int).map_values(
                |f: Field| spec_struct_field(f, views(fws@)),
            ),
        decreases fields.len() - i,
    {
        let f = &fields[i];
        proof {
            assert(has_ident(*f));
        }
        let x = struct_field(f, fws);
        proof {
            lemma_views_push(out@, x);
            assert(fields@.take(i + 1).map_values(|f: Field| spec_struct_field(f, views(fws@)))
                =~= fields@.take(i as int).map_values(|f: Field| spec_struct_field(f, views(fws@))).push(
                x@,
            ));
        }
        out.push(x);
        i = i + 1;
    }
    proof {
        assert(fields@.take(fields.len() as int) =~= fields@);
    }
    out
}

/// Generates the `from` function of a struct (see
/// `spec_from_cli_for_struct`).
pub fn from_cli_for_struct(ast: &DeriveInput, fields: &Fields) -> (r: Result<String, DeriveError>)
    requires
        context_attrs_ok(ast.attrs@),
        context_fold(ic_tokens(ast.attrs@), "fn_from_cli"@).3 || ({
            let fs = fields_of(*fields);
            let plain = fs.map_values(|f: Field| spec_field_without_subcommand(f));
            &&& named_until_stop(fs, plain)
            &&& collect_ok(plain) is Ok ==> named_args_convertible(fs)
        }),
    ensures
        res_view(r) == spec_from_cli_for_struct(*ast, fields_of(*fields)),
{
    let d = context_dirs(&ast.attrs, "fn_from_cli");
    if d.fn_from_default {
        return Ok(String::new());
    }
    let empty: Vec<Field> = Vec::new();
    let fs: &Vec<Field> = match fields {
        Fields::Named(v) => v,
        Fields::Unnamed(v) => v,
        Fields::Unit => &empty,
    };
    proof {
        assert(fs@ == fields_of(*fields));
    }
    let name = &ast.ident;
    let output = &d.output_context;
    let fws = match plain_field_idents(fs) {
        Ok(v) => v,
        Err(e) => {
            return Err(e);
        },
    };
    let named = match first_named_arg(name, fs, output) {
        Ok(x) => x,
        Err(e) => {
            return Err(e);
        },
    };
    let sub = match first_subcommand(name, fs, output) {
        Ok(x) => x,
        Err(e) => {
            return Err(e);
        },
    };
    let values = match plain_field_values(fs) {
        Ok(v) => v,
        Err(e) => {
            return Err(e);
        },
    };
    let inits = struct_fields(fs, &fws);
    let cli = cli_name(name);
    let mut s = text_from("pub fn from (optional_clap_variant : Option < ");
    push_text(&mut s, &cli);
    s.append(" > , context : ");
    if d.context.as_str().unicode_len() > 0 {
        push_text(&mut s, &d.context);
    } else {
        push_text(&mut s, &d.input_context);
    }
    s.append(" ,) -> color_eyre :: eyre :: Result < Self > { ");
    push_each_followed_by(&mut s, &values, " ");
    s.append("let new_context_scope = InteractiveClapContextScopeFor");
    push_text(&mut s, name);
    s.append(" { ");
    push_each_followed_by(&mut s, &fws, " , ");
    s.append("} ; ");
    push_text(&mut s, &named);
    s.append(" ");
    push_text(&mut s, &sub);
    s.append(" Ok (Self { ");
    push_each_followed_by(&mut s, &inits, " , ");
    s.append("}) }");
    Ok(s)
}

} // verus!
