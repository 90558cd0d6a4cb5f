//! Identifiers turned into `kebab-case`, as command line flags and
//! subcommand names spell them.
use vstd::prelude::*;

use crate::text::{chars_of, push_char};

verus! {

/// `char::to_ascii_lowercase`: `'A'..='Z'` become `'a'..='z'`, every other
/// character stays as it is.
pub open spec fn ascii_lower(c: char) -> char {
    if 'A' <= c && c <= 'Z' {
        ((c as u32) + 32) as char
    } else {
        c
    }
}

/// What the character at place `i` becomes: `_` becomes `-`; an upper case
/// ASCII letter after the first place gets a `-` before it; letters are put
/// in lower case.
pub open spec fn kebab_piece(i: int, c: char) -> Seq<char> {
    if c == '_' {
        seq!['-']
    } else if 'A' <= c && c <= 'Z' && i > 0 {
        seq!['-', ascii_lower(c)]
    } else {
        seq![ascii_lower(c)]
    }
}

/// The text in kebab case: the pieces of all characters, in order.
pub open spec fn kebab(s: Seq<char>) -> Seq<char>
    decreases s.len(),
{
    if s.len() == 0 {
        Seq::empty()
    } else {
        kebab(s.drop_last()) + kebab_piece(s.len() - 1, s.last())
    }
}

/// The ASCII lower case of a character (see `ascii_lower`).
fn to_ascii_lowercase(c: char) -> (r: char)
    ensures
        r == ascii_lower(c),
{
    if 'A' <= c && c <= 'Z' {
        let b = (c as u32) + 32;
        assert(97 <= b <= 122);
        (b as u8) as char
    } else {
        c
    }
}

/// Converts `CamelCase` or `snake_case` to `kebab-case` (see `kebab`).
pub fn to_kebab_case(s: String) -> (res: String)
    ensures
        res@ == kebab(s@),
{
    let cs = chars_of(s.as_str());
    let mut out = String::new();
    let mut i: usize = 0;
    while i < cs.len()
        invariant
            cs@ == s@,
            i <= cs.len(),
            out@ == kebab(s@.take(i as int)),
        decreases cs.len() - i,
    {
        let c = cs[i];
        proof {
            assert(s@.take(i + 1).drop_last() =~= s@.take(i as int));
            assert(s@.take(i + 1).last() == c);
        }
        if c == '_' {
            push_char(&mut out, '-');
        } else {
            if 'A' <= c && c <= 'Z' && i > 0 {
                push_char(&mut out, '-');
            }
            push_char(&mut out, to_ascii_lowercase(c));
        }
        proof {
            assert(out@ =~= kebab(s@.take(i as int)) + kebab_piece(i as int, c));
        }
        i = i + 1;
    }
    proof {
        assert(s@.take(cs.len() as int) =~= s@);
    }
    out
}

/// A kebab-case text holds no underscore and no upper case ASCII letter.
pub proof fn lemma_kebab_is_lower(s: Seq<char>)
    ensures
        forall|k: int|
            0 <= k < kebab(s).len() ==> #[trigger] kebab(s)[k] != '_' && !('A' <= kebab(s)[k]
                && kebab(s)[k] <= 'Z'),
    decreases s.len(),
{
    if s.len() > 0 {
        lemma_kebab_is_lower(s.drop_last());
        let front = kebab(s.drop_last());
        let piece = kebab_piece(s.len() - 1, s.last());
        assert forall|k: int| 0 <= k < kebab(s).len() implies #[trigger] kebab(s)[k] != '_' && !('A'
            <= kebab(s)[k] && kebab(s)[k] <= 'Z') by {
            if k < front.len() {
                assert(kebab(s)[k] == front[k]);
            } else {
                assert(kebab(s)[k] == piece[k - front.len()]);
            }
        }
    }
}

/// A text without underscores and upper case ASCII letters is its own kebab
/// case.
pub proof fn lemma_kebab_of_lower(t: Seq<char>)
    requires
        forall|k: int| 0 <= k < t.len() ==> #[trigger] t[k] != '_' && !('A' <= t[k] && t[k] <= 'Z'),
    ensures
        kebab(t) == t,
    decreases t.len(),
{
    if t.len() > 0 {
        let front = t.drop_last();
        assert forall|k: int| 0 <= k < front.len() implies #[trigger] front[k] != '_' && !('A'
            <= front[k] && front[k] <= 'Z') by {
            assert(front[k] == t[k]);
        }
        lemma_kebab_of_lower(front);
        assert(t[t.len() - 1] != '_');
        assert(front.push(t.last()) =~= t);
    } else {
        assert(t =~= Seq::<char>::empty());
    }
}

/// Converting a kebab-case text again changes nothing.
pub proof fn lemma_kebab_idempotent(s: Seq<char>)
    ensures
        kebab(kebab(s)) == kebab(s),
{
    lemma_kebab_is_lower(s);
    lemma_kebab_of_lower(kebab(s));
}

} // verus!
