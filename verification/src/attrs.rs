//! Reading `#[interactive_clap(..)]` attributes: the argument tokens of all
//! such attributes of an item, in order, and the search for the first
//! argument group that a test accepts.
use vstd::prelude::*;

use crate::model::{path_is, AttrToken, Attribute, TokenGroup};
use crate::text::{has_substring, lemma_has_substring_part, render_tokens, render_tokens_from, text_contains, text_is};

verus! {

/// The attribute is `#[interactive_clap(..)]`.
pub open spec fn is_interactive_clap(a: Attribute) -> bool {
    path_is(a, "interactive_clap"@)
}

/// The argument tokens of all `#[interactive_clap(..)]` attributes, in order.
pub open spec fn ic_tokens(attrs: Seq<Attribute>) -> Seq<AttrToken>
    decreases attrs.len(),
{
    if attrs.len() == 0 {
        Seq::empty()
    } else if is_interactive_clap(attrs.last()) {
        ic_tokens(attrs.drop_last()) + attrs.last().tokens@
    } else {
        ic_tokens(attrs.drop_last())
    }
}

/// The tests that the derive applies to the printed stream of an argument
/// group.
#[derive(PartialEq, Eq, Structural, Clone, Copy)]
pub enum GroupTest {
    /// Mentions neither `named_arg` nor `subcommand`.
    NotNamedArgNorSubcommand,
    /// Mentions none of `subcommand`, `named_arg` and `skip`.
    NotSubcommandNamedArgNorSkip,
    /// Mentions `named_arg`.
    NamedArg,
    /// Mentions `subcommand`.
    Subcommand,
}

/// Whether the group's printed stream passes the test.
pub open spec fn group_passes(t: GroupTest, g: TokenGroup) -> bool {
    let s = g.stream_text@;
    match t {
        GroupTest::NotNamedArgNorSubcommand => !(has_substring(s, "named_arg"@) || has_substring(
            s,
            "subcommand"@,
        )),
        GroupTest::NotSubcommandNamedArgNorSkip => !(has_substring(s, "subcommand"@)
            || has_substring(s, "named_arg"@) || has_substring(s, "skip"@)),
        GroupTest::NamedArg => has_substring(s, "named_arg"@),
        GroupTest::Subcommand => has_substring(s, "subcommand"@),
    }
}

/// The outcome of a search for the first accepted group.
#[derive(PartialEq, Eq, Structural, Clone, Copy)]
pub enum Scan {
    /// An accepted group comes before any token that is not a group.
    Found,
    /// All tokens are groups, and none is accepted.
    Missing,
    /// A token that is not a group comes before any accepted group.
    Abort,
}

/// The search over the tokens, in order: it stops at the first accepted group
/// or at the first token that is not a group.
pub open spec fn scan(toks: Seq<AttrToken>, t: GroupTest) -> Scan
    decreases toks.len(),
{
    if toks.len() == 0 {
        Scan::Missing
    } else {
        let r = scan(toks.drop_last(), t);
        if r != Scan::Missing {
            r
        } else {
            match toks.last() {
                AttrToken::Group(g) => if group_passes(t, g) {
                    Scan::Found
                } else {
                    Scan::Missing
                },
                AttrToken::Other(_) => Scan::Abort,
            }
        }
    }
}

/// Whether the attribute is `#[interactive_clap(..)]`.
pub fn is_ic_attr(a: &Attribute) -> (b: bool)
    ensures
        b == is_interactive_clap(*a),
{
    match &a.path_ident {
        Some(p) => text_is(p, "interactive_clap"),
        None => false,
    }
}

/// Whether the attribute's path is the single identifier `name`.
pub fn attr_path_is(a: &Attribute, name: &str) -> (b: bool)
    ensures
        b == path_is(*a, name@),
{
    match &a.path_ident {
        Some(p) => text_is(p, name),
        None => false,
    }
}

/// Whether the group passes the test.
pub fn test_group(t: GroupTest, g: &TokenGroup) -> (b: bool)
    ensures
        b == group_passes(t, *g),
{
    let s = g.stream_text.as_str();
    match t {
        GroupTest::NotNamedArgNorSubcommand => !(text_contains(s, "named_arg") || text_contains(
            s,
            "subcommand",
        )),
        GroupTest::NotSubcommandNamedArgNorSkip => !(text_contains(s, "subcommand")
            || text_contains(s, "named_arg") || text_contains(s, "skip")),
        GroupTest::NamedArg => text_contains(s, "named_arg"),
        GroupTest::Subcommand => text_contains(s, "subcommand"),
    }
}

/// Searches the argument tokens of the `#[interactive_clap(..)]` attributes
/// for the first group that passes the test.
pub fn scan_groups(attrs: &Vec<Attribute>, t: GroupTest) -> (r: Scan)
    ensures
        r == scan(ic_tokens(attrs@), t),
{
    let mut i: usize = 0;
    while i < attrs.len()
        invariant
            i <= attrs.len(),
            scan(ic_tokens(attrs@.take(i as int)), t) == Scan::Missing,
        decreases attrs.len() - i,
    {
        let a = &attrs[i];
        let ghost before = ic_tokens(attrs@.take(i as int));
        proof {
            assert(attrs@.take(i + 1).drop_last() =~= attrs@.take(i as int));
            assert(attrs@.take(i + 1).last() == *a);
        }
        if is_ic_attr(a) {
            let mut j: usize = 0;
            while j < a.tokens.len()
                invariant
                    i < attrs.len(),
                    attrs@[i as int] == *a,
                    is_interactive_clap(*a),
                    before == ic_tokens(attrs@.take(i as int)),
                    j <= a.tokens.len(),
                    scan(before + a.tokens@.take(j as int), t) == Scan::Missing,
                decreases a.tokens.len() - j,
            {
                proof {
                    assert((before + a.tokens@.take(j + 1)).drop_last() =~= before + a.tokens@.take(
                        j as int,
                    ));
                    assert((before + a.tokens@.take(j + 1)).last() == a.tokens@[j as int]);
                }
                match &a.tokens[j] {
                    AttrToken::Group(g) => {
                        if test_group(t, g) {
                            proof {
                                lemma_scan_stops(attrs@, i as int, j as int, t);
                            }
                            return Scan::Found;
                        }
                    },
                    AttrToken::Other(_) => {
                        proof {
                            lemma_scan_stops(attrs@, i as int, j as int, t);
                        }
                        return Scan::Abort;
                    },
                }
                j = j + 1;
            }
            assert(a.tokens@.take(a.tokens.len() as int) =~= a.tokens@);
        }
        i = i + 1;
    }
    assert(attrs@.take(attrs.len() as int) =~= attrs@);
    Scan::Missing
}

/// When the search stops at the `j`-th token of the `i`-th attribute, that is
/// its outcome over the tokens of all attributes.
proof fn lemma_scan_stops(attrs: Seq<Attribute>, i: int, j: int, t: GroupTest)
    requires
        0 <= i < attrs.len(),
        is_interactive_clap(attrs[i]),
        0 <= j < attrs[i].tokens@.len(),
        scan(ic_tokens(attrs.take(i)) + attrs[i].tokens@.take(j + 1), t) != Scan::Missing,
    ensures
        scan(ic_tokens(attrs), t) == scan(ic_tokens(attrs.take(i)) + attrs[i].tokens@.take(j + 1), t),
{
    let toks = attrs[i].tokens@;
    let pre = ic_tokens(attrs.take(i)) + toks.take(j + 1);
    lemma_scan_extends(pre, toks.skip(j + 1), t);
    assert(pre + toks.skip(j + 1) =~= ic_tokens(attrs.take(i)) + toks);
    lemma_ic_tokens_extends(attrs, i);
    let rest = choose|rest: Seq<AttrToken>|
        ic_tokens(attrs) == #[trigger] (ic_tokens(attrs.take(i + 1)) + rest);
    lemma_scan_extends(ic_tokens(attrs.take(i + 1)), rest, t);
}

/// Once the search has stopped, more tokens do not change its outcome.
pub proof fn lemma_scan_extends(a: Seq<AttrToken>, b: Seq<AttrToken>, t: GroupTest)
    requires
        scan(a, t) != Scan::Missing,
    ensures
        scan(a + b, t) == scan(a, t),
    decreases b.len(),
{
    if b.len() > 0 {
        lemma_scan_extends(a, b.drop_last(), t);
        assert((a + b).drop_last() =~= a + b.drop_last());
    } else {
        assert(a + b =~= a);
    }
}

/// The argument tokens of the attributes up to and including the `i`-th
/// are those before it, then its own if it is `#[interactive_clap(..)]`;
/// the tokens of all attributes start with them.
pub proof fn lemma_ic_tokens_extends(attrs: Seq<Attribute>, i: int)
    requires
        0 <= i < attrs.len(),
    ensures
        exists|rest: Seq<AttrToken>|
            ic_tokens(attrs) == #[trigger] (ic_tokens(attrs.take(i + 1)) + rest),
        ic_tokens(attrs.take(i + 1)) == if is_interactive_clap(attrs[i]) {
            ic_tokens(attrs.take(i)) + attrs[i].tokens@
        } else {
            ic_tokens(attrs.take(i))
        },
    decreases attrs.len() - i,
{
    assert(attrs.take(i + 1).drop_last() =~= attrs.take(i));
    if i + 1 == attrs.len() {
        assert(attrs.take(i + 1) =~= attrs);
        assert(ic_tokens(attrs) =~= ic_tokens(attrs.take(i + 1)) + Seq::<AttrToken>::empty());
    } else {
        lemma_ic_tokens_extends(attrs, i + 1);
        let rest = choose|rest: Seq<AttrToken>|
            ic_tokens(attrs) == #[trigger] (ic_tokens(attrs.take(i + 2)) + rest);
        let own = if is_interactive_clap(attrs[i + 1]) {
            attrs[i + 1].tokens@
        } else {
            Seq::<AttrToken>::empty()
        };
        assert(ic_tokens(attrs.take(i + 2)) =~= ic_tokens(attrs.take(i + 1)) + own);
        assert(ic_tokens(attrs) =~= ic_tokens(attrs.take(i + 1)) + (own + rest));
    }
}

/// Some argument token of the `#[interactive_clap(..)]` attributes is not a
/// delimited group.
pub open spec fn has_non_group(attrs: Seq<Attribute>) -> bool {
    exists|k: int| 0 <= k < ic_tokens(attrs).len() && #[trigger] ic_tokens(attrs)[k] is Other
}

/// Whether some argument token of the `#[interactive_clap(..)]` attributes is
/// not a delimited group.
pub fn any_non_group(attrs: &Vec<Attribute>) -> (b: bool)
    ensures
        b == has_non_group(attrs@),
{
    let mut i: usize = 0;
    while i < attrs.len()
        invariant
            i <= attrs.len(),
            forall|k: int|
                0 <= k < ic_tokens(attrs@.take(i as int)).len() ==> !(#[trigger] ic_tokens(
                    attrs@.take(i as int),
                )[k] is Other),
        decreases attrs.len() - i,
    {
        let a = &attrs[i];
        let ghost before = ic_tokens(attrs@.take(i as int));
        proof {
            lemma_ic_tokens_extends(attrs@, i as int);
        }
        if is_ic_attr(a) {
            let mut j: usize = 0;
            while j < a.tokens.len()
                invariant
                    i < attrs.len(),
                    attrs@[i as int] == *a,
                    is_interactive_clap(*a),
                    before == ic_tokens(attrs@.take(i as int)),
                    forall|k: int| 0 <= k < before.len() ==> !(#[trigger] before[k] is Other),
                    j <= a.tokens.len(),
                    forall|k: int| 0 <= k < j ==> !(#[trigger] a.tokens@[k] is Other),
                decreases a.tokens.len() - j,
            {
                match &a.tokens[j] {
                    AttrToken::Other(_) => {
                        proof {
                            lemma_ic_tokens_extends(attrs@, i as int);
                            let rest = choose|rest: Seq<AttrToken>|
                                ic_tokens(attrs@) == #[trigger] (ic_tokens(attrs@.take(i + 1)) + rest);
                            assert(ic_tokens(attrs@)[before.len() + j] == a.tokens@[j as int]);
                        }
                        return true;
                    },
                    AttrToken::Group(_) => {},
                }
                j = j + 1;
            }
            proof {
                let after = ic_tokens(attrs@.take(i + 1));
                assert(after == before + a.tokens@);
                assert forall|k: int| 0 <= k < after.len() implies !(#[trigger] after[k] is Other) by {
                    if k >= before.len() {
                        assert(after[k] == a.tokens@[k - before.len()]);
                    } else {
                        assert(after[k] == before[k]);
                    }
                }
            }
        }
        i = i + 1;
    }
    assert(attrs@.take(attrs.len() as int) =~= attrs@);
    false
}

/// A property that holds of every argument token of every
/// `#[interactive_clap(..)]` attribute holds of those of each such attribute.
pub proof fn lemma_ic_tokens_each(attrs: Seq<Attribute>, i: int, p: spec_fn(AttrToken) -> bool)
    requires
        0 <= i < attrs.len(),
        is_interactive_clap(attrs[i]),
        forall|k: int| 0 <= k < ic_tokens(attrs).len() ==> p(#[trigger] ic_tokens(attrs)[k]),
    ensures
        forall|k: int| 0 <= k < attrs[i].tokens@.len() ==> p(#[trigger] attrs[i].tokens@[k]),
{
    lemma_ic_tokens_extends(attrs, i);
    let rest = choose|rest: Seq<AttrToken>|
        ic_tokens(attrs) == #[trigger] (ic_tokens(attrs.take(i + 1)) + rest);
    let before = ic_tokens(attrs.take(i));
    assert forall|k: int| 0 <= k < attrs[i].tokens@.len() implies p(#[trigger] attrs[i].tokens@[k]) by {
        assert(ic_tokens(attrs)[before.len() + k] == attrs[i].tokens@[k]);
    }
}

/// What the `#[interactive_clap(..)]` attributes of an item say of the
/// contexts of the `from` function that is generated for it: the printed
/// type after `context =`, after `input_context =` and after
/// `output_context =` (each empty when not given; a later attribute replaces
/// an earlier one), and whether the item asks for the default `from`.
pub struct ContextDirs {
    pub context: String,
    pub input_context: String,
    pub output_context: String,
    pub fn_from_default: bool,
}

/// The view of a `ContextDirs`.
pub open spec fn dirs_view(d: ContextDirs) -> (Seq<char>, Seq<char>, Seq<char>, bool) {
    (d.context@, d.input_context@, d.output_context@, d.fn_from_default)
}

/// A group whose stream mentions `context` has at least two tokens (the name
/// and `=`), so that the type after them can be sliced off.
pub open spec fn context_group_ok(t: AttrToken) -> bool {
    match t {
        AttrToken::Group(g) => has_substring(g.stream_text@, "context"@) ==> g.tokens@.len() >= 2,
        AttrToken::Other(_) => true,
    }
}

/// One argument token's effect on the contexts; `key` names the function
/// whose default is asked for together with `default`.
pub open spec fn context_step(
    st: (Seq<char>, Seq<char>, Seq<char>, bool),
    tok: AttrToken,
    key: Seq<char>,
) -> (Seq<char>, Seq<char>, Seq<char>, bool) {
    match tok {
        AttrToken::Group(g) => {
            let s = g.stream_text@;
            let dir = render_tokens(g.tokens@.skip(2));
            let st1 = if has_substring(s, "output_context"@) {
                (st.0, st.1, dir, st.3)
            } else if has_substring(s, "input_context"@) {
                (st.0, dir, st.2, st.3)
            } else if has_substring(s, "context"@) {
                (dir, st.1, st.2, st.3)
            } else {
                st
            };
            if has_substring(s, key) && has_substring(s, "default"@) {
                (st1.0, st1.1, st1.2, true)
            } else {
                st1
            }
        },
        AttrToken::Other(_) => st,
    }
}

/// The contexts after all the tokens, in order.
pub open spec fn context_fold(toks: Seq<AttrToken>, key: Seq<char>) -> (
    Seq<char>,
    Seq<char>,
    Seq<char>,
    bool,
)
    decreases toks.len(),
{
    if toks.len() == 0 {
        (Seq::empty(), Seq::empty(), Seq::empty(), false)
    } else {
        context_step(context_fold(toks.drop_last(), key), toks.last(), key)
    }
}

/// Every `context` group of the item's `#[interactive_clap(..)]` attributes
/// can be sliced.
pub open spec fn context_attrs_ok(attrs: Seq<Attribute>) -> bool {
    forall|k: int| 0 <= k < ic_tokens(attrs).len() ==> context_group_ok(#[trigger] ic_tokens(attrs)[k])
}

/// A stream that mentions `output_context` or `input_context` mentions
/// `context`.
pub proof fn lemma_context_mentions(s: Seq<char>)
    ensures
        has_substring(s, "output_context"@) ==> has_substring(s, "context"@),
        has_substring(s, "input_context"@) ==> has_substring(s, "context"@),
{
    reveal_strlit("output_context");
    reveal_strlit("input_context");
    reveal_strlit("context");
    if has_substring(s, "output_context"@) {
        lemma_has_substring_part(s, "output_context"@, 7, 14);
        assert("output_context"@.subrange(7, 14) =~= "context"@);
    }
    if has_substring(s, "input_context"@) {
        lemma_has_substring_part(s, "input_context"@, 6, 13);
        assert("input_context"@.subrange(6, 13) =~= "context"@);
    }
}

/// Reads the contexts from the item's `#[interactive_clap(..)]` attributes.
pub fn context_dirs(attrs: &Vec<Attribute>, key: &str) -> (d: ContextDirs)
    requires
        context_attrs_ok(attrs@),
    ensures
        dirs_view(d) == context_fold(ic_tokens(attrs@), key@),
{
    let mut d = ContextDirs {
        context: String::new(),
        input_context: String::new(),
        output_context: String::new(),
        fn_from_default: false,
    };
    let mut i: usize = 0;
    proof {
        assert(dirs_view(d) =~~= context_fold(ic_tokens(attrs@.take(0)), key@));
    }
    while i < attrs.len()
        invariant
            i <= attrs.len(),
            context_attrs_ok(attrs@),
            dirs_view(d) == context_fold(ic_tokens(attrs@.take(i as int)), key@),
        decreases attrs.len() - i,
    {
        let a = &attrs[i];
        let ghost before = ic_tokens(attrs@.take(i as int));
        proof {
            lemma_ic_tokens_extends(attrs@, i as int);
        }
        if is_ic_attr(a) {
            proof {
                lemma_ic_tokens_each(attrs@, i as int, |t: AttrToken| context_group_ok(t));
                assert(before + a.tokens@.take(0) =~= before);
            }
            let mut j: usize = 0;
            while j < a.tokens.len()
                invariant
                    i < attrs.len(),
                    attrs@[i as int] == *a,
                    forall|k: int| 0 <= k < a.tokens@.len() ==> context_group_ok(#[trigger] a.tokens@[k]),
                    j <= a.tokens.len(),
                    dirs_view(d) == context_fold(before + a.tokens@.take(j as int), key@),
                decreases a.tokens.len() - j,
            {
                proof {
                    assert((before + a.tokens@.take(j + 1)).drop_last() =~= before + a.tokens@.take(
                        j as int,
                    ));
                    assert((before + a.tokens@.take(j + 1)).last() == a.tokens@[j as int]);
                    assert(context_group_ok(a.tokens@[j as int]));
                }
                match &a.tokens[j] {
                    AttrToken::Group(g) => {
                        let s = g.stream_text.as_str();
                        proof {
                            lemma_context_mentions(g.stream_text@);
                        }
                        if text_contains(s, "output_context") {
                            d.output_context = render_tokens_from(&g.tokens, 2);
                        } else if text_contains(s, "input_context") {
                            d.input_context = render_tokens_from(&g.tokens, 2);
                        } else if text_contains(s, "context") {
                            d.context = render_tokens_from(&g.tokens, 2);
                        }
                        if text_contains(s, key) && text_contains(s, "default") {
                            d.fn_from_default = true;
                        }
                    },
                    AttrToken::Other(_) => {},
                }
                j = j + 1;
            }
            proof {
                assert(a.tokens@.take(a.tokens.len() as int) =~= a.tokens@);
            }
        }
        i = i + 1;
    }
    assert(attrs@.take(attrs.len() as int) =~= attrs@);
    d
}

} // verus!
