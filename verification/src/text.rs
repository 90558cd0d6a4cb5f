//! Text utilities on which the code generators are built: character access,
//! substring search, literal comparison and concatenation of pieces.
use vstd::prelude::*;

use crate::model::Token;

verus! {

/// `p` occurs in `s` as a contiguous run of characters.
pub open spec fn has_substring(s: Seq<char>, p: Seq<char>) -> bool {
    exists|i: int| 0 <= i && i + p.len() <= s.len() && #[trigger] s.subrange(i, i + p.len()) == p
}

/// A text that holds `p` holds every part of `p`.
pub proof fn lemma_has_substring_part(s: Seq<char>, p: Seq<char>, lo: int, hi: int)
    requires
        has_substring(s, p),
        0 <= lo <= hi <= p.len(),
    ensures
        has_substring(s, p.subrange(lo, hi)),
{
    let i = choose|i: int| 0 <= i && i + p.len() <= s.len() && #[trigger] s.subrange(i, i + p.len()) == p;
    assert(s.subrange(i + lo, i + lo + (hi - lo)) =~= p.subrange(lo, hi));
}

/// The concatenation of all pieces, in order.
pub open spec fn concat_all(pieces: Seq<Seq<char>>) -> Seq<char>
    decreases pieces.len(),
{
    if pieces.len() == 0 {
        Seq::empty()
    } else {
        concat_all(pieces.drop_last()) + pieces.last()
    }
}

/// Every piece followed by `sep`, as `#(#pieces, )*` lays them out.
pub open spec fn each_followed_by(pieces: Seq<Seq<char>>, sep: Seq<char>) -> Seq<char>
    decreases pieces.len(),
{
    if pieces.len() == 0 {
        Seq::empty()
    } else {
        each_followed_by(pieces.drop_last(), sep) + pieces.last() + sep
    }
}

/// The views of a sequence of strings.
pub open spec fn views(v: Seq<String>) -> Seq<Seq<char>> {
    v.map_values(|s: String| s@)
}

/// The characters of `s`, one by one.
pub fn chars_of(s: &str) -> (v: Vec<char>)
    ensures
        v@ == s@,
{
    let n = s.unicode_len();
    let mut v: Vec<char> = Vec::new();
    let mut i: usize = 0;
    while i < n
        invariant
            n == s@.len(),
            i <= n,
            v@ == s@.subrange(0, i as int),
        decreases n - i,
    {
        let c = s.get_char(i);
        v.push(c);
        i = i + 1;
        assert(v@ =~= s@.subrange(0, i as int));
    }
    assert(v@ =~= s@);
    v
}

/// Whether `p` occurs in `s` (the test that `str::contains` makes).
pub fn text_contains(s: &str, p: &str) -> (b: bool)
    ensures
        b == has_substring(s@, p@),
{
    let sc = chars_of(s);
    let pc = chars_of(p);
    let n = sc.len();
    let m = pc.len();
    if m > n {
        return false;
    }
    let mut i: usize = 0;
    while i <= n - m
        invariant
            sc@ == s@,
            pc@ == p@,
            n == s@.len(),
            m == p@.len(),
            m <= n,
            i <= n - m + 1,
            forall|k: int| 0 <= k < i ==> #[trigger] s@.subrange(k, k + m) != p@,
        decreases n - m + 1 - i,
    {
        let mut j: usize = 0;
        let mut same = true;
        while j < m
            invariant
                sc@ == s@,
                pc@ == p@,
                n == s@.len(),
                m == p@.len(),
                i + m <= n,
                j <= m,
                same ==> forall|t: int| 0 <= t < j ==> s@[i + t] == p@[t],
                !same ==> exists|t: int| 0 <= t < m && s@[i + t] != p@[t],
            decreases m - j,
        {
            if sc[i + j] != pc[j] {
                same = false;
            }
            j = j + 1;
        }
        if same {
            assert(s@.subrange(i as int, i + m) =~= p@);
            return true;
        }
        let ghost t = choose|t: int| 0 <= t < m && s@[i + t] != p@[t];
        assert(s@.subrange(i as int, i + m)[t] != p@[t]);
        i = i + 1;
    }
    false
}

/// Whether `s` is exactly the literal `lit`.
pub fn text_is(s: &String, lit: &str) -> (b: bool)
    ensures
        b == (s@ == lit@),
{
    let t = String::from_str(lit);
    *s == t
}

/// A fresh string holding `lit`.
pub fn text_from(lit: &str) -> (s: String)
    ensures
        s@ == lit@,
{
    String::from_str(lit)
}

/// `String::push` from std: the contract claims that the string afterwards
/// is the string before with `c` appended, as its documentation says.
#[verifier::external_body]
pub fn push_char(out: &mut String, c: char)
    ensures
        final(out)@ == old(out)@.push(c),
{
    out.push(c);
}

/// Appends `piece` to `out`.
pub fn push_text(out: &mut String, piece: &String)
    ensures
        final(out)@ == old(out)@ + piece@,
{
    out.append(piece.as_str());
}

/// Appends every piece followed by `sep`.
pub fn push_each_followed_by(out: &mut String, pieces: &Vec<String>, sep: &str)
    ensures
        final(out)@ == old(out)@ + each_followed_by(views(pieces@), sep@),
{
    let ghost start = out@;
    let mut i: usize = 0;
    while i < pieces.len()
        invariant
            i <= pieces.len(),
            out@ == start + each_followed_by(views(pieces@.take(i as int)), sep@),
        decreases pieces.len() - i,
    {
        push_text(out, &pieces[i]);
        out.append(sep);
        proof {
            assert(views(pieces@.take(i + 1)).drop_last() =~= views(pieces@.take(i as int)));
            assert(views(pieces@.take(i + 1)).last() == pieces@[i as int]@);
        }
        i = i + 1;
    }
    assert(pieces@.take(pieces.len() as int) =~= pieces@);
}

/// A generated text or the error that stopped the generation, as values.
pub open spec fn res_view<E>(r: Result<String, E>) -> Result<Seq<char>, E> {
    match r {
        Ok(s) => Ok(s@),
        Err(e) => Err(e),
    }
}

/// The results of a sequence of steps, in order, up to the first error.
pub open spec fn collect_ok<E>(rs: Seq<Result<Seq<char>, E>>) -> Result<Seq<Seq<char>>, E>
    decreases rs.len(),
{
    if rs.len() == 0 {
        Ok(Seq::empty())
    } else {
        match collect_ok(rs.drop_last()) {
            Err(e) => Err(e),
            Ok(v) => match rs.last() {
                Ok(x) => Ok(v.push(x)),
                Err(e) => Err(e),
            },
        }
    }
}

/// Once a step has failed, later steps do not change the outcome.
pub proof fn lemma_collect_ok_err<E>(rs: Seq<Result<Seq<char>, E>>, n: int)
    requires
        0 <= n <= rs.len(),
        collect_ok(rs.take(n)) is Err,
    ensures
        collect_ok(rs) == collect_ok(rs.take(n)),
    decreases rs.len() - n,
{
    if n < rs.len() {
        assert(rs.take(n + 1).drop_last() =~= rs.take(n));
        lemma_collect_ok_err(rs, n + 1);
    } else {
        assert(rs.take(n) =~= rs);
    }
}

/// Two collections whose steps fail at the same places fail together.
pub proof fn lemma_collect_ok_same_failures<E>(a: Seq<Result<Seq<char>, E>>, b: Seq<Result<Seq<char>, E>>)
    requires
        a.len() == b.len(),
        forall|i: int| 0 <= i < a.len() ==> (#[trigger] a[i] is Err) == (b[i] is Err),
    ensures
        (collect_ok(a) is Err) == (collect_ok(b) is Err),
    decreases a.len(),
{
    if a.len() > 0 {
        let a2 = a.drop_last();
        let b2 = b.drop_last();
        assert forall|i: int| 0 <= i < a2.len() implies (#[trigger] a2[i] is Err) == (b2[i] is Err) by {
            assert(a2[i] == a[i]);
            assert(b2[i] == b[i]);
        }
        lemma_collect_ok_same_failures(a2, b2);
        assert(a[a.len() - 1] is Err == b[b.len() - 1] is Err);
    }
}

/// One more step of a collection.
pub proof fn lemma_collect_ok_step<E>(rs: Seq<Result<Seq<char>, E>>, i: int, acc: Seq<Seq<char>>)
    requires
        0 <= i < rs.len(),
        collect_ok(rs.take(i)) == Ok::<Seq<Seq<char>>, E>(acc),
    ensures
        collect_ok(rs.take(i + 1)) == match rs[i] {
            Ok(x) => Ok::<Seq<Seq<char>>, E>(acc.push(x)),
            Err(e) => Err(e),
        },
{
    assert(rs.take(i + 1).drop_last() =~= rs.take(i));
    assert(rs.take(i + 1).last() == rs[i]);
}

/// The views of strings with one more pushed.
pub proof fn lemma_views_push(v: Seq<String>, s: String)
    ensures
        views(v.push(s)) == views(v).push(s@),
{
    assert(views(v.push(s)) =~= views(v).push(s@));
}

/// The pieces that are not empty, in order.
pub open spec fn nonempty_only(pieces: Seq<Seq<char>>) -> Seq<Seq<char>>
    decreases pieces.len(),
{
    if pieces.len() == 0 {
        Seq::empty()
    } else if pieces.last().len() > 0 {
        nonempty_only(pieces.drop_last()).push(pieces.last())
    } else {
        nonempty_only(pieces.drop_last())
    }
}

/// The first result that is an error or a non-empty piece; an empty piece
/// when there is none.
pub open spec fn first_nonempty<E>(rs: Seq<Result<Seq<char>, E>>) -> Result<Seq<char>, E>
    decreases rs.len(),
{
    if rs.len() == 0 {
        Ok(Seq::empty())
    } else {
        match rs[0] {
            Err(e) => Err(e),
            Ok(x) => if x.len() > 0 {
                Ok(x)
            } else {
                first_nonempty(rs.drop_first())
            },
        }
    }
}

/// The search for the first non-empty piece goes on past an empty one.
pub proof fn lemma_first_nonempty_skip<E>(rs: Seq<Result<Seq<char>, E>>, i: int)
    requires
        0 <= i < rs.len(),
        rs[i] matches Ok(x) && x.len() == 0,
    ensures
        first_nonempty(rs.skip(i)) == first_nonempty(rs.skip(i + 1)),
{
    assert(rs.skip(i).drop_first() =~= rs.skip(i + 1));
    assert(rs.skip(i)[0] == rs[i]);
}

/// The search stops at a non-empty piece or at an error.
pub proof fn lemma_first_nonempty_stop<E>(rs: Seq<Result<Seq<char>, E>>, i: int)
    requires
        0 <= i < rs.len(),
        !(rs[i] matches Ok(x) && x.len() == 0),
    ensures
        first_nonempty(rs.skip(i)) == rs[i],
{
    assert(rs.skip(i)[0] == rs[i]);
}

/// The printed text of a run of tokens: one space between two tokens, none
/// after a punctuation mark that is joined to the next one.
pub open spec fn render_tokens(toks: Seq<Token>) -> Seq<char>
    decreases toks.len(),
{
    if toks.len() == 0 {
        Seq::empty()
    } else if toks.len() == 1 {
        toks[0].text@
    } else {
        render_tokens(toks.drop_last()) + (if toks[toks.len() - 2].joint {
            Seq::<char>::empty()
        } else {
            " "@
        }) + toks.last().text@
    }
}

/// Prints the tokens from the `from`-th on.
pub fn render_tokens_from(toks: &Vec<Token>, from: usize) -> (s: String)
    requires
        from <= toks.len(),
    ensures
        s@ == render_tokens(toks@.skip(from as int)),
{
    let mut out = String::new();
    let mut i: usize = from;
    proof {
        assert(toks@.subrange(from as int, from as int) =~= Seq::<Token>::empty());
    }
    while i < toks.len()
        invariant
            from <= i <= toks.len(),
            out@ == render_tokens(toks@.subrange(from as int, i as int)),
        decreases toks.len() - i,
    {
        let ghost run = toks@.subrange(from as int, i + 1);
        proof {
            assert(run.drop_last() =~= toks@.subrange(from as int, i as int));
            assert(run.last() == toks@[i as int]);
        }
        if i > from {
            proof {
                assert(run[run.len() - 2] == toks@[i - 1]);
            }
            if !toks[i - 1].joint {
                out.append(" ");
            }
        } else {
            proof {
                assert(run.len() == 1);
            }
        }
        push_text(&mut out, &toks[i].text);
        i = i + 1;
    }
    assert(toks@.subrange(from as int, toks.len() as int) =~= toks@.skip(from as int));
    out
}

} // verus!
