use interactive_clap_derive::derives::interactive_clap::from_cli_enum::fn_from_cli;
use interactive_clap_derive::derives::interactive_clap::from_cli_for_enum::from_cli_for_enum;
use interactive_clap_derive::derives::interactive_clap::from_cli_for_struct::{
    field_value_named_arg, field_value_subcommand, field_without_subcommand, fields_value,
    from_cli_for_struct, struct_field,
};
use interactive_clap_derive::derives::interactive_clap::{
    cli_field, context_scope_for_enum, context_scope_for_struct, for_cli_field, from_cli_field,
    impl_interactive_clap,
};
use interactive_clap_derive::derives::to_cli_args::impl_to_cli_args;
use interactive_clap_derive::model::{
    AttrToken, Attribute, Data, DeriveError, DeriveInput, Field, FieldType, Fields, PathSegment, Token,
    TokenGroup, TokenKind, Variant,
};

fn tok(kind: TokenKind, text: &str, joint: bool) -> Token {
    Token { kind, text: text.to_string(), joint }
}

fn id(text: &str) -> Token {
    tok(TokenKind::Ident, text, false)
}

fn punct(text: &str, joint: bool) -> Token {
    tok(TokenKind::Punct, text, joint)
}

fn lit(text: &str) -> Token {
    tok(TokenKind::Literal, text, false)
}

fn render(items: &[Token]) -> String {
    let mut s = String::new();
    for (i, t) in items.iter().enumerate() {
        if i > 0 && !items[i - 1].joint {
            s.push(' ');
        }
        s.push_str(&t.text);
    }
    s
}

fn group(items: Vec<Token>) -> TokenGroup {
    let stream = render(&items);
    TokenGroup { text: format!("({})", stream), stream_text: stream, tokens: items }
}

fn attr(path: &str, items: Vec<Token>) -> Attribute {
    let g = group(items);
    Attribute {
        path_ident: Some(path.to_string()),
        text: format!("# [{} {}]", path, g.text),
        tokens: vec![AttrToken::Group(g)],
    }
}

fn ic(items: Vec<Token>) -> Attribute {
    attr("interactive_clap", items)
}

fn doc(text: &str) -> Attribute {
    let quoted = format!("\" {}\"", text);
    Attribute {
        path_ident: Some("doc".to_string()),
        text: format!("# [doc = {}]", quoted),
        tokens: vec![AttrToken::Other(punct("=", false)), AttrToken::Other(lit(&quoted))],
    }
}

fn ty(name: &str) -> FieldType {
    FieldType {
        text: name.to_string(),
        path: Some(vec![PathSegment { ident: name.to_string(), angle_args: None }]),
    }
}

fn option_ty(inner: &str) -> FieldType {
    FieldType {
        text: format!("Option < {} >", inner),
        path: Some(vec![PathSegment { ident: "Option".to_string(), angle_args: Some(inner.to_string()) }]),
    }
}

fn field(name: &str, t: FieldType, attrs: Vec<Attribute>) -> Field {
    Field { ident: Some(name.to_string()), ty: t, attrs }
}

fn tuple_variant(name: &str, t: &str, attrs: Vec<Attribute>) -> Variant {
    Variant {
        ident: name.to_string(),
        attrs,
        fields: Fields::Unnamed(vec![Field { ident: None, ty: ty(t), attrs: vec![] }]),
    }
}

fn input(name: &str, attrs: Vec<Attribute>, data: Data) -> DeriveInput {
    DeriveInput { ident: name.to_string(), attrs, data }
}

fn context_attr() -> Attribute {
    ic(vec![
        id("context"),
        punct("=", false),
        id("crate"),
        punct(":", true),
        punct(":", false),
        id("common"),
        punct(":", true),
        punct(":", false),
        id("Context"),
    ])
}

const SETTINGS: &str = "# [clap (setting (clap :: AppSettings :: ColoredHelp) , setting (clap :: AppSettings :: DisableHelpSubcommand) , setting (clap :: AppSettings :: VersionlessSubcommands))]";

fn parses_as_items(text: &str) {
    syn::parse_str::<syn::File>(text).expect("the generated text is Rust items");
}

fn sender_struct() -> DeriveInput {
    input(
        "Sender",
        vec![],
        Data::Struct(Fields::Named(vec![
            field("a", ty("String"), vec![]),
            field("b", option_ty("u64"), vec![ic(vec![id("long")])]),
            field("c", ty("u8"), vec![ic(vec![id("skip")])]),
            field("d", ty("Account"), vec![doc("The account"), ic(vec![id("named_arg")])]),
        ])),
    )
}

#[test]
fn interactive_clap_struct_items() {
    let out = impl_interactive_clap(&sender_struct()).unwrap();
    let named_enum = "# [derive (Debug , Clone , clap :: Clap , interactive_clap_derive :: ToCliArgs)] pub enum ClapNamedArgAccountForSender { # [doc = \" The account\"] D (< Account as ToCli > :: CliVariant) } impl From < Account > for ClapNamedArgAccountForSender { fn from (item : Account) -> Self { Self :: D (< Account as ToCli > :: CliVariant :: from (item)) } }";
    let expected = format!(
        "# [derive (Debug , Default , Clone , clap :: Clap , interactive_clap_derive :: ToCliArgs)] {} pub struct CliSender {{ {}{}{}}} impl interactive_clap :: ToCli for Sender {{ type CliVariant = CliSender ; }} {} impl From < Sender > for CliSender {{ fn from (args : Sender) -> Self {{ Self {{ {}{}{}}} }} }} {}",
        SETTINGS,
        "pub a : Option < < String as ToCli > :: CliVariant > , ",
        "# [clap (long , )] pub b : Option < < u64 as ToCli > :: CliVariant > , ",
        "# [clap (subcommand , )] pub d : Option < ClapNamedArgAccountForSender > , ",
        "pub struct InteractiveClapContextScopeForSender { pub a : String , pub b : Option < u64 > , } impl interactive_clap :: ToInteractiveClapContextScope for Sender { type InteractiveClapContextScope = InteractiveClapContextScopeForSender ; }",
        "a : Some (args . a . into ()) , ",
        "b : args . b . into () , ",
        "d : Some (args . d . into ()) , ",
        named_enum,
    );
    assert_eq!(out, expected);
    parses_as_items(&out);
}

fn mode_enum(attrs: Vec<Attribute>) -> DeriveInput {
    input(
        "Mode",
        attrs,
        Data::Enum(vec![
            tuple_variant("Key", "KeyArgs", vec![doc("Use a key")]),
            tuple_variant("Ledger", "LedgerArgs", vec![]),
        ]),
    )
}

#[test]
fn interactive_clap_enum_items() {
    let out = impl_interactive_clap(&mode_enum(vec![context_attr()])).unwrap();
    let from_fn = "pub fn from (optional_clap_variant : Option < CliMode > , context : crate :: common :: Context ,) -> color_eyre :: eyre :: Result < Self > { match optional_clap_variant . and_then (| clap_variant | match clap_variant { CliMode :: Key (args) => Some (Self :: Key (KeyArgs :: from (Some (args) , context . clone ()) . ok () ? ,)) , CliMode :: Ledger (args) => Some (Self :: Ledger (LedgerArgs :: from (Some (args) , context . clone ()) . ok () ? ,)) , }) { Some (variant) => Ok (variant) , None => Self :: choose_variant (context . clone ()) , } }";
    let expected = format!(
        "# [derive (Debug , Clone , clap :: Clap , interactive_clap_derive :: ToCliArgs)] pub enum CliMode {{ # [doc = \" Use a key\"] Key (< KeyArgs as ToCli > :: CliVariant) , Ledger (< LedgerArgs as ToCli > :: CliVariant) , }} impl interactive_clap :: ToCli for Mode {{ type CliVariant = CliMode ; }} pub type InteractiveClapContextScopeForMode = ModeDiscriminants ; impl interactive_clap :: ToInteractiveClapContextScope for Mode {{ type InteractiveClapContextScope = InteractiveClapContextScopeForMode ; }} impl From < Mode > for CliMode {{ fn from (command : Mode) -> Self {{ match command {{ Mode :: Key (arg) => Self :: Key (arg . into ()) , Mode :: Ledger (arg) => Self :: Ledger (arg . into ()) , }} }} }} impl Mode {{ {} }}",
        from_fn
    );
    assert_eq!(out, expected);
    parses_as_items(&out);
}

#[test]
fn interactive_clap_refuses_unions_and_non_tuple_variants() {
    let u = input("U", vec![], Data::Union);
    assert_eq!(impl_interactive_clap(&u), Err(DeriveError::OnlyStructsAndEnums));
    let e = input(
        "E",
        vec![],
        Data::Enum(vec![
            tuple_variant("A", "AArgs", vec![]),
            Variant { ident: "B".to_string(), attrs: vec![], fields: Fields::Unit },
        ]),
    );
    assert_eq!(impl_interactive_clap(&e), Err(DeriveError::OnlyUnnamedFields));
}

#[test]
fn interactive_clap_refuses_non_group_arguments_and_non_path_types() {
    let bad_attr = Attribute {
        path_ident: Some("interactive_clap".to_string()),
        text: "# [interactive_clap = x]".to_string(),
        tokens: vec![AttrToken::Other(punct("=", false)), AttrToken::Other(id("x"))],
    };
    let s = input("S", vec![], Data::Struct(Fields::Named(vec![field("a", ty("u8"), vec![bad_attr])])));
    assert_eq!(impl_interactive_clap(&s), Err(DeriveError::OnlyGroupTokens));
    let tuple_ty = FieldType { text: "(u8 , u8)".to_string(), path: None };
    let s = input("S", vec![], Data::Struct(Fields::Named(vec![field("a", tuple_ty, vec![])])));
    assert_eq!(impl_interactive_clap(&s), Err(DeriveError::OnlyTypePath));
}

#[test]
fn cli_field_of_plain_and_optional_types() {
    assert_eq!(
        cli_field(&"name".to_string(), &ty("String")).unwrap(),
        "pub name : Option < < String as ToCli > :: CliVariant >"
    );
    assert_eq!(
        cli_field(&"port".to_string(), &option_ty("u16")).unwrap(),
        "pub port : Option < < u16 as ToCli > :: CliVariant >"
    );
    let no_args = FieldType {
        text: "Option".to_string(),
        path: Some(vec![PathSegment { ident: "Option".to_string(), angle_args: None }]),
    };
    assert_eq!(
        cli_field(&"x".to_string(), &no_args).unwrap(),
        "pub x : Option < < Option as ToCli > :: CliVariant >"
    );
    let empty_path = FieldType { text: String::new(), path: Some(vec![]) };
    assert_eq!(cli_field(&"x".to_string(), &empty_path), Err(DeriveError::OnlyPathSegment));
    let not_path = FieldType { text: "[u8 ; 4]".to_string(), path: None };
    assert_eq!(cli_field(&"x".to_string(), &not_path), Err(DeriveError::OnlyTypePath));
}

#[test]
fn for_cli_field_initializers() {
    let skips = vec!["c".to_string()];
    assert_eq!(for_cli_field(&field("a", ty("String"), vec![]), &skips).unwrap(), "a : Some (args . a . into ())");
    assert_eq!(for_cli_field(&field("b", option_ty("u8"), vec![]), &skips).unwrap(), "b : args . b . into ()");
    assert_eq!(for_cli_field(&field("c", ty("u8"), vec![]), &skips).unwrap(), "");
    let not_path = FieldType { text: "(u8 ,)".to_string(), path: None };
    assert_eq!(for_cli_field(&field("d", not_path, vec![]), &skips), Err(DeriveError::OnlyTypePath));
}

#[test]
fn context_scopes() {
    assert_eq!(
        context_scope_for_struct(&"Sender".to_string(), vec!["pub a : String".to_string()]),
        "pub struct InteractiveClapContextScopeForSender { pub a : String , } impl interactive_clap :: ToInteractiveClapContextScope for Sender { type InteractiveClapContextScope = InteractiveClapContextScopeForSender ; }"
    );
    assert_eq!(
        context_scope_for_enum(&"Mode".to_string()),
        "pub type InteractiveClapContextScopeForMode = ModeDiscriminants ; impl interactive_clap :: ToInteractiveClapContextScope for Mode { type InteractiveClapContextScope = InteractiveClapContextScopeForMode ; }"
    );
}

#[test]
fn from_cli_field_is_empty_or_refused() {
    let f = field("a", ty("u8"), vec![]);
    assert_eq!(from_cli_field(&mode_enum(vec![context_attr()]), &f).unwrap(), "");
    let bad = Attribute {
        path_ident: Some("interactive_clap".to_string()),
        text: "# [interactive_clap = x]".to_string(),
        tokens: vec![AttrToken::Other(punct("=", false))],
    };
    assert_eq!(from_cli_field(&mode_enum(vec![bad]), &f), Err(DeriveError::OnlyGroupTokens));
}

fn wrap_in_impl(text: &str) -> String {
    format!("impl X {{ {} }}", text)
}

#[test]
fn from_cli_for_enum_with_output_context() {
    let input_ctx = ic(vec![id("input_context"), punct("=", false), tok(TokenKind::Group, "()", false)]);
    let output_ctx = ic(vec![id("output_context"), punct("=", false), id("ModeContext")]);
    let ast = mode_enum(vec![input_ctx, output_ctx]);
    let variants = match &ast.data {
        Data::Enum(v) => v,
        _ => unreachable!(),
    };
    let out = from_cli_for_enum(&ast, variants).unwrap();
    let arm = |v: &str, t: &str| {
        format!("Some (CliMode :: {v} (args)) => {{ type Alias = < Mode as ToInteractiveClapContextScope > :: InteractiveClapContextScope ; let new_context_scope = Alias :: {v} ; let new_context = ModeContext :: from_previous_context (() , & new_context_scope) ; Ok (Self :: {v} ({t} :: from (Some (args) , new_context) ? ,)) }}")
    };
    let expected = format!(
        "pub fn from (optional_clap_variant : Option < CliMode > , context : () ,) -> color_eyre :: eyre :: Result < Self > {{ match optional_clap_variant {{ {} {} None => Self :: choose_variant (context . clone ()) , }} }}",
        arm("Key", "KeyArgs"),
        arm("Ledger", "LedgerArgs")
    );
    assert_eq!(out, expected);
    parses_as_items(&wrap_in_impl(&out));
}

#[test]
fn from_cli_for_enum_plain() {
    let ast = mode_enum(vec![context_attr()]);
    let variants = match &ast.data {
        Data::Enum(v) => v,
        _ => unreachable!(),
    };
    let out = from_cli_for_enum(&ast, variants).unwrap();
    assert_eq!(
        out,
        "pub fn from (optional_clap_variant : Option < CliMode > , context : crate :: common :: Context ,) -> color_eyre :: eyre :: Result < Self > { match optional_clap_variant { Some (CliMode :: Key (args)) => Ok (Self :: Key (KeyArgs :: from (Some (args) , context . clone ()) ? ,)) , Some (CliMode :: Ledger (args)) => Ok (Self :: Ledger (LedgerArgs :: from (Some (args) , context . clone ()) ? ,)) , None => Self :: choose_variant (context . clone ()) , } }"
    );
    parses_as_items(&wrap_in_impl(&out));
}

#[test]
fn default_from_is_not_generated() {
    let default_attr = ic(vec![id("fn_from_cli"), punct("=", false), id("default")]);
    let ast = mode_enum(vec![default_attr]);
    let variants = match &ast.data {
        Data::Enum(v) => v,
        _ => unreachable!(),
    };
    assert_eq!(from_cli_for_enum(&ast, variants).unwrap(), "");
    assert_eq!(fn_from_cli(&ast, variants).unwrap(), "");
    let fields = Fields::Named(vec![field("a", ty("u8"), vec![])]);
    assert_eq!(from_cli_for_struct(&ast, &fields).unwrap(), "");
}

#[test]
fn enum_from_refuses_unit_variants() {
    let ast = input(
        "E",
        vec![],
        Data::Enum(vec![Variant { ident: "A".to_string(), attrs: vec![], fields: Fields::Unit }]),
    );
    let variants = match &ast.data {
        Data::Enum(v) => v,
        _ => unreachable!(),
    };
    assert_eq!(fn_from_cli(&ast, variants), Err(DeriveError::OnlyUnnamedFields));
    assert_eq!(from_cli_for_enum(&ast, variants), Err(DeriveError::OnlyUnnamedFields));
}

fn transfer_struct() -> (DeriveInput, Fields) {
    let output_ctx = ic(vec![id("output_context"), punct("=", false), id("SenderContext")]);
    let ast = input("Sender", vec![context_attr(), output_ctx], Data::Union);
    let fields = Fields::Named(vec![
        field("sender_account_id", ty("String"), vec![]),
        field("public_key", ty("PublicKeyMode"), vec![ic(vec![id("subcommand")])]),
        field("receiver", ty("Receiver"), vec![ic(vec![id("named_arg")])]),
    ]);
    (ast, fields)
}

#[test]
fn from_cli_for_struct_with_output_context() {
    let (ast, fields) = transfer_struct();
    let out = from_cli_for_struct(&ast, &fields).unwrap();
    let value = "let sender_account_id = match optional_clap_variant . clone () . and_then (| clap_variant | clap_variant . sender_account_id) { Some (sender_account_id) => sender_account_id , None => Self :: input_sender_account_id (& context) ? , } ;";
    let named = "let new_context = SenderContext :: from_previous_context (context , & new_context_scope) ; let receiver = Receiver :: from (optional_clap_variant . and_then (| clap_variant | match clap_variant . receiver { Some (ClapNamedArgReceiverForSender :: ReceiveR (cli_arg)) => Some (cli_arg) , None => None , }) , new_context . into () ,) ? ;";
    let sub = "let new_context = SenderContext :: from_previous_context (context , & new_context_scope) ; let public_key = match optional_clap_variant . and_then (| clap_variant | clap_variant . public_key) { Some (cli_arg) => PublicKeyMode :: from (Some (cli_arg) , new_context) ? , None => PublicKeyMode :: choose_variant (new_context) ? , } ;";
    let expected = format!(
        "pub fn from (optional_clap_variant : Option < CliSender > , context : crate :: common :: Context ,) -> color_eyre :: eyre :: Result < Self > {{ {} let new_context_scope = InteractiveClapContextScopeForSender {{ sender_account_id , }} ; {} {} Ok (Self {{ sender_account_id : new_context_scope . sender_account_id , public_key , receiver , }}) }}",
        value, named, sub
    );
    assert_eq!(out, expected);
    parses_as_items(&wrap_in_impl(&out));
}

#[test]
fn struct_from_pieces() {
    let plain = field("amount", ty("u128"), vec![]);
    let sub = field("mode", ty("Mode"), vec![ic(vec![id("subcommand")])]);
    let named = field("signer_id", ty("Signer"), vec![ic(vec![id("named_arg")])]);
    let name = "Tx".to_string();
    assert_eq!(field_without_subcommand(&plain).unwrap(), "amount");
    assert_eq!(field_without_subcommand(&sub).unwrap(), "");
    assert_eq!(fields_value(&named).unwrap(), "");
    assert_eq!(
        fields_value(&plain).unwrap(),
        "let amount = match optional_clap_variant . clone () . and_then (| clap_variant | clap_variant . amount) { Some (amount) => amount , None => Self :: input_amount (& context) ? , } ;"
    );
    assert_eq!(
        field_value_named_arg(&name, &named, &String::new()).unwrap(),
        "let signer_id = Signer :: from (optional_clap_variant . and_then (| clap_variant | match clap_variant . signer_id { Some (ClapNamedArgSignerForTx :: SignerId (cli_sender)) => Some (cli_sender) , None => None , }) , context . into () ,) ? ;"
    );
    assert_eq!(field_value_named_arg(&name, &plain, &String::new()).unwrap(), "");
    assert_eq!(
        field_value_subcommand(&name, &sub, &String::new()).unwrap(),
        "let mode = match optional_clap_variant . and_then (| clap_variant | clap_variant . mode) { Some (cli_arg) => Mode :: from (Some (cli_arg) , context) ? , None => Mode :: choose_variant (context) ? , } ;"
    );
    assert_eq!(field_value_subcommand(&name, &plain, &String::new()).unwrap(), "");
    let plain_ids = vec!["amount".to_string()];
    assert_eq!(struct_field(&plain, &plain_ids), "amount : new_context_scope . amount");
    assert_eq!(struct_field(&sub, &plain_ids), "mode");
}

#[test]
fn struct_from_refuses_non_group_arguments() {
    let bad = Attribute {
        path_ident: Some("interactive_clap".to_string()),
        text: "# [interactive_clap = x]".to_string(),
        tokens: vec![AttrToken::Other(punct("=", false))],
    };
    let f = field("a", ty("u8"), vec![bad]);
    assert_eq!(field_without_subcommand(&f), Err(DeriveError::OnlyGroupTokens));
    assert_eq!(field_value_subcommand(&"S".to_string(), &f, &String::new()), Err(DeriveError::OnlyGroupTokens));
    let ast = input("S", vec![], Data::Union);
    assert_eq!(from_cli_for_struct(&ast, &Fields::Named(vec![f])), Err(DeriveError::OnlyGroupTokens));
}

#[test]
fn to_cli_args_for_struct() {
    let ast = input(
        "CliSender",
        vec![],
        Data::Struct(Fields::Named(vec![
            field("sender_account_id", option_ty("String"), vec![]),
            field("network", option_ty("String"), vec![attr("clap", vec![id("long")])]),
            field("key", option_ty("String"), vec![attr("clap", vec![id("long"), punct("=", false), lit("\"public-key\"")])]),
            field("mode", option_ty("CliMode"), vec![attr("clap", vec![id("subcommand")])]),
        ])),
    );
    let out = impl_to_cli_args(&ast).unwrap();
    let sub = "let mut args = self . mode . as_ref () . map (| subcommand | subcommand . to_cli_args ()) . unwrap_or_default () ;";
    let p3 = "if let Some (arg) = & self . key { args . push_front (arg . to_string ()) ; args . push_front (std :: concat ! (\"--\" , \"public-key\") . to_string ()) ; }";
    let p2 = "if let Some (arg) = & self . network { args . push_front (arg . to_string ()) ; args . push_front (std :: concat ! (\"--\" , \"network\") . to_string ()) ; }";
    let p1 = "if let Some (arg) = & self . sender_account_id { args . push_front (arg . to_string ()) }";
    let expected = format!(
        "impl CliSender {{ pub fn to_cli_args (& self) -> std :: collections :: VecDeque < String > {{ {} ; {} ; {} ; {} ;  ; args }} }}",
        sub, p3, p2, p1
    );
    assert_eq!(out, expected);
    parses_as_items(&out);
}

#[test]
fn to_cli_args_for_enum() {
    let ast = input(
        "CliMode",
        vec![],
        Data::Enum(vec![
            tuple_variant("SignWithKey", "CliKeyArgs", vec![]),
            Variant { ident: "Ledger".to_string(), attrs: vec![], fields: Fields::Unit },
        ]),
    );
    let out = impl_to_cli_args(&ast).unwrap();
    assert_eq!(
        out,
        "impl CliMode { pub fn to_cli_args (& self) -> std :: collections :: VecDeque < String > { match self { Self :: SignWithKey (subcommand) => { let mut args = subcommand . to_cli_args () ; args . push_front (\"sign-with-key\" . to_owned ()) ; args } , Self :: Ledger => { let mut args = std :: collections :: VecDeque :: new () ; args . push_front (\"ledger\" . to_owned ()) ; args } , } } }"
    );
    parses_as_items(&out);
}

#[test]
fn to_cli_args_refusals() {
    let named = Variant { ident: "A".to_string(), attrs: vec![], fields: Fields::Named(vec![field("x", ty("u8"), vec![])]) };
    let ast = input("E", vec![], Data::Enum(vec![named]));
    assert_eq!(impl_to_cli_args(&ast), Err(DeriveError::OnlyUnnamedOrUnitFields));
    assert_eq!(impl_to_cli_args(&input("U", vec![], Data::Union)), Err(DeriveError::OnlyStructsAndEnums));
    let bad = Attribute {
        path_ident: Some("clap".to_string()),
        text: "# [clap = x]".to_string(),
        tokens: vec![AttrToken::Other(punct("=", false))],
    };
    let ast = input("S", vec![], Data::Struct(Fields::Named(vec![field("a", ty("u8"), vec![bad])])));
    assert_eq!(impl_to_cli_args(&ast), Err(DeriveError::OnlyGroupTokens));
}

#[test]
fn error_messages() {
    assert_eq!(DeriveError::OnlyStructsAndEnums.message(), "`#[derive(InteractiveClap)]` only supports structs and enums");
    assert_eq!(DeriveError::OnlyUnnamedFields.message(), "Only option `Fields::Unnamed` is needed");
    assert_eq!(DeriveError::OnlyUnnamedOrUnitFields.message(), "Only options `Fields::Unnamed` or `Fields::Unit` are needed");
    assert_eq!(DeriveError::OnlyGroupTokens.message(), "Only option `TokenTree::Group` is needed");
    assert_eq!(DeriveError::OnlyPathSegment.message(), "Only option `PathSegment` is needed");
    assert_eq!(DeriveError::OnlyTypePath.message(), "Only option `Type::Path` is needed");
}

#[test]
fn basic_interactive_clap_struct_and_enum() {
    let ast = input(
        "X",
        vec![],
        Data::Struct(Fields::Named(vec![
            field("a", ty("String"), vec![]),
            field("b", option_ty("u64"), vec![ic(vec![id("long"), punct(",", false), id("other")])]),
        ])),
    );
    let out = interactive_clap_derive::impl_interactive_clap(&ast).unwrap();
    let expected = format!(
        "# [derive (Debug , Default , Clone , clap :: Clap)] {} pub struct CliX {{ a : Option < < String as ToCli > :: CliVariant > , # [clap (long , )] b : Option < < u64 as ToCli > :: CliVariant > , }} impl interactive_clap :: ToCli for X {{ type CliVariant = CliX ; }} impl From < X > for CliX {{ fn from (args : X) -> Self {{ Self {{ a : Some (args . a . into ()) , b : Some (args . b . into ()) , }} }} }}",
        SETTINGS
    );
    assert_eq!(out, expected);
    parses_as_items(&out);
    let out = interactive_clap_derive::impl_interactive_clap(&mode_enum(vec![])).unwrap();
    assert_eq!(
        out,
        "# [derive (Debug , Clone , clap :: Clap)] pub enum CliMode { # [doc = \" Use a key\"] Key (< KeyArgs as ToCli > :: CliVariant) , Ledger (< LedgerArgs as ToCli > :: CliVariant) , } impl interactive_clap :: ToCli for Mode { type CliVariant = CliMode ; } impl From < Mode > for CliMode { fn from (command : Mode) -> Self { match command { Mode :: Key (arg) => Self :: Key (arg . into ()) , Mode :: Ledger (arg) => Self :: Ledger (arg . into ()) , } } }"
    );
    parses_as_items(&out);
    assert_eq!(
        interactive_clap_derive::impl_interactive_clap(&input("U", vec![], Data::Union)),
        Err(DeriveError::OnlyStructsAndEnums)
    );
}

#[test]
fn basic_interactive_clap_clap_arguments() {
    let mixed = Attribute {
        path_ident: Some("interactive_clap".to_string()),
        text: "# [interactive_clap = (long)]".to_string(),
        tokens: vec![AttrToken::Other(punct("=", false)), AttrToken::Group(group(vec![id("long")]))],
    };
    let other_path = attr("clap", vec![id("long")]);
    let array_ty = FieldType { text: "[u8 ; 4]".to_string(), path: None };
    let bare_option = FieldType {
        text: "Option".to_string(),
        path: Some(vec![PathSegment { ident: "Option".to_string(), angle_args: None }]),
    };
    let ast = input(
        "Y",
        vec![],
        Data::Struct(Fields::Named(vec![
            field("s", ty("Sub"), vec![ic(vec![id("subcommand")])]),
            field("k", ty("u8"), vec![ic(vec![id("skip")])]),
            field("n", ty("Account"), vec![ic(vec![id("named_arg")])]),
            field("d", ty("u8"), vec![doc("Docs")]),
            field("m", ty("u8"), vec![mixed]),
            field("c", ty("u8"), vec![other_path]),
            field("t", ty("u8"), vec![ic(vec![id("long")]), ic(vec![id("subcommand"), punct(",", false), id("skip")])]),
            field("a", array_ty, vec![]),
            field("o", bare_option, vec![]),
        ])),
    );
    let out = interactive_clap_derive::impl_interactive_clap(&ast).unwrap();
    let expected = format!(
        "# [derive (Debug , Default , Clone , clap :: Clap)] {} pub struct CliY {{ {}}} impl interactive_clap :: ToCli for Y {{ type CliVariant = CliY ; }} impl From < Y > for CliY {{ fn from (args : Y) -> Self {{ Self {{ {}}} }} }}",
        SETTINGS,
        [
            "# [clap (subcommand , )] s : Option < < Sub as ToCli > :: CliVariant > , ",
            "# [clap (skip , )] k : Option < < u8 as ToCli > :: CliVariant > , ",
            "n : Option < < Account as ToCli > :: CliVariant > , ",
            "d : Option < < u8 as ToCli > :: CliVariant > , ",
            "# [clap (long , )] m : Option < < u8 as ToCli > :: CliVariant > , ",
            "c : Option < < u8 as ToCli > :: CliVariant > , ",
            "# [clap (long , subcommand , skip , )] t : Option < < u8 as ToCli > :: CliVariant > , ",
            "a : Option < < [u8 ; 4] as ToCli > :: CliVariant > , ",
            "o : Option < < Option as ToCli > :: CliVariant > , ",
        ]
        .concat(),
        [
            "s : Some (args . s . into ()) , ",
            "k : Some (args . k . into ()) , ",
            "n : Some (args . n . into ()) , ",
            "d : Some (args . d . into ()) , ",
            "m : Some (args . m . into ()) , ",
            "c : Some (args . c . into ()) , ",
            "t : Some (args . t . into ()) , ",
            "a : Some (args . a . into ()) , ",
            "o : Some (args . o . into ()) , ",
        ]
        .concat(),
    );
    assert_eq!(out, expected);
    parses_as_items(&out);
}

#[test]
fn basic_interactive_clap_empty_struct_and_first_doc() {
    let out = interactive_clap_derive::impl_interactive_clap(&input("Z", vec![], Data::Struct(Fields::Unit))).unwrap();
    assert_eq!(
        out,
        format!(
            "# [derive (Debug , Default , Clone , clap :: Clap)] {} pub struct CliZ {{ }} impl interactive_clap :: ToCli for Z {{ type CliVariant = CliZ ; }} impl From < Z > for CliZ {{ fn from (args : Z) -> Self {{ Self {{ }} }} }}",
            SETTINGS
        )
    );
    parses_as_items(&out);
    let e = input(
        "E",
        vec![],
        Data::Enum(vec![tuple_variant("A", "AArgs", vec![attr("clap", vec![id("x")]), doc("First"), doc("Second")])]),
    );
    let out = interactive_clap_derive::impl_interactive_clap(&e).unwrap();
    assert_eq!(
        out,
        "# [derive (Debug , Clone , clap :: Clap)] pub enum CliE { # [doc = \" First\"] A (< AArgs as ToCli > :: CliVariant) , } impl interactive_clap :: ToCli for E { type CliVariant = CliE ; } impl From < E > for CliE { fn from (command : E) -> Self { match command { E :: A (arg) => Self :: A (arg . into ()) , } } }"
    );
    parses_as_items(&out);
}

#[test]
fn basic_interactive_clap_refuses_non_tuple_variants() {
    let named = Variant { ident: "B".to_string(), attrs: vec![], fields: Fields::Named(vec![field("x", ty("u8"), vec![])]) };
    let e = input("E", vec![], Data::Enum(vec![tuple_variant("A", "AArgs", vec![]), named]));
    assert_eq!(interactive_clap_derive::impl_interactive_clap(&e), Err(DeriveError::OnlyUnnamedFields));
    let unit = Variant { ident: "C".to_string(), attrs: vec![doc("Unit")], fields: Fields::Unit };
    let e = input("E", vec![], Data::Enum(vec![unit]));
    assert_eq!(interactive_clap_derive::impl_interactive_clap(&e), Err(DeriveError::OnlyUnnamedFields));
}

#[test]
fn plain_identifier_and_field_read_agree() {
    let cases = vec![
        field("amount", ty("u64"), vec![]),
        field("receiver", ty("Account"), vec![ic(vec![id("long")])]),
        field("mode", ty("Mode"), vec![ic(vec![id("subcommand")])]),
        field("sender", ty("Account"), vec![ic(vec![id("named_arg")])]),
    ];
    for f in &cases {
        let plain = field_without_subcommand(f).unwrap();
        let read = fields_value(f).unwrap();
        assert_eq!(plain.is_empty(), read.is_empty());
        if !plain.is_empty() {
            assert_eq!(
                read,
                format!(
                    "let {0} = match optional_clap_variant . clone () . and_then (| clap_variant | clap_variant . {0}) {{ Some ({0}) => {0} , None => Self :: input_{0} (& context) ? , }} ;",
                    plain
                )
            );
        }
    }
}
