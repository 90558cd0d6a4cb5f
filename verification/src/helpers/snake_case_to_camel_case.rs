//! `snake_case` identifiers turned into `CamelCase` ones, as the derive names
//! the variants of the enums it generates.
use vstd::prelude::*;

use crate::text::{chars_of, concat_all, push_char};

verus! {

/// The parts of `s` between the occurrences of `sep`, in order; the empty
/// text has one (empty) part, and every `sep` starts a new part.
pub open spec fn split_on(s: Seq<char>, sep: char) -> Seq<Seq<char>>
    decreases s.len(),
{
    if s.len() == 0 {
        seq![Seq::<char>::empty()]
    } else {
        let r = split_on(s.drop_last(), sep);
        if s.last() == sep {
            r.push(Seq::<char>::empty())
        } else {
            r.update(r.len() - 1, r.last().push(s.last()))
        }
    }
}

/// `char::to_ascii_uppercase`: `'a'..='z'` become `'A'..='Z'`, every other
/// character stays as it is.
pub open spec fn ascii_upper(c: char) -> char {
    if 'a' <= c && c <= 'z' {
        ((c as u32) - 32) as char
    } else {
        c
    }
}

/// One part made upper camel case: every occurrence of its first character is
/// replaced by the upper case of that character (`str::replace` of the first
/// character by its upper case).
pub open spec fn camel_part(p: Seq<char>) -> Seq<char> {
    p.map_values(|c: char| if c == p[0] { ascii_upper(p[0]) } else { c })
}

/// The parts of `s` between underscores, each made camel case, concatenated.
pub open spec fn snake_to_camel(s: Seq<char>) -> Seq<char> {
    concat_all(split_on(s, '_').map_values(|p: Seq<char>| camel_part(p)))
}

/// The inputs on which the conversion is defined: no part between underscores
/// is empty, and each part starts with an ASCII character (its first byte is
/// sliced off and upper-cased).
pub open spec fn camel_convertible(s: Seq<char>) -> bool {
    forall|i: int|
        0 <= i < split_on(s, '_').len() ==> {
            &&& #[trigger] split_on(s, '_')[i].len() > 0
            &&& (split_on(s, '_')[i][0] as u32) < 128
        }
}

/// How often `c` occurs in `s`.
pub open spec fn count_char(s: Seq<char>, c: char) -> nat
    decreases s.len(),
{
    if s.len() == 0 {
        0
    } else {
        count_char(s.drop_last(), c) + if s.last() == c {
            1nat
        } else {
            0nat
        }
    }
}

/// The ASCII upper case of a character (see `ascii_upper`).
fn to_ascii_uppercase(c: char) -> (r: char)
    ensures
        r == ascii_upper(c),
{
    if 'a' <= c && c <= 'z' {
        let b = (c as u32) - 32;
        assert(65 <= b <= 90);
        (b as u8) as char
    } else {
        c
    }
}

pub proof fn lemma_split_on_nonempty(s: Seq<char>, sep: char)
    ensures
        split_on(s, sep).len() >= 1,
    decreases s.len(),
{
    if s.len() > 0 {
        lemma_split_on_nonempty(s.drop_last(), sep);
    }
}

proof fn lemma_camel_part_push(p: Seq<char>, c: char)
    ensures
        p.len() == 0 ==> camel_part(p.push(c)) == seq![ascii_upper(c)],
        p.len() > 0 ==> camel_part(p.push(c)) == camel_part(p).push(
            if c == p[0] {
                ascii_upper(p[0])
            } else {
                c
            },
        ),
{
    if p.len() == 0 {
        assert(camel_part(p.push(c)) =~= seq![ascii_upper(c)]);
    } else {
        assert(p.push(c)[0] == p[0]);
        assert(camel_part(p.push(c)) =~= camel_part(p).push(
            if c == p[0] {
                ascii_upper(p[0])
            } else {
                c
            },
        ));
    }
}

/// Converts a `snake_case` name to `CamelCase`: the text is split at every
/// `_`, in each part every occurrence of its first character is replaced by
/// the upper case of that character, and the parts are joined.
pub fn snake_case_to_camel_case(s: String) -> (res: String)
    requires
        camel_convertible(s@),
    ensures
        res@ == snake_to_camel(s@),
{
    let cs = chars_of(s.as_str());
    let mut out = String::new();
    let mut first: Option<char> = None;
    let mut i: usize = 0;
    proof {
        assert(s@.take(0) =~= Seq::<char>::empty());
        assert(concat_all(split_on(s@.take(0), '_').drop_last().map_values(
            |p: Seq<char>| camel_part(p),
        )) =~= Seq::<char>::empty());
        assert(camel_part(Seq::<char>::empty()) =~= Seq::<char>::empty());
    }
    while i < cs.len()
        invariant
            cs@ == s@,
            i <= cs.len(),
            split_on(s@.take(i as int), '_').len() >= 1,
            out@ == concat_all(
                split_on(s@.take(i as int), '_').drop_last().map_values(
                    |p: Seq<char>| camel_part(p),
                ),
            ) + camel_part(split_on(s@.take(i as int), '_').last()),
            first == (if split_on(s@.take(i as int), '_').last().len() == 0 {
                None::<char>
            } else {
                Some(split_on(s@.take(i as int), '_').last()[0])
            }),
        decreases cs.len() - i,
    {
        let c = cs[i];
        let ghost pre = s@.take(i as int);
        let ghost r = split_on(pre, '_');
        let ghost post = s@.take(i + 1);
        proof {
            assert(post.drop_last() =~= pre);
            assert(post.last() == c);
        }
        if c == '_' {
            first = None;
            proof {
                let r2 = split_on(post, '_');
                assert(r2 == r.push(Seq::<char>::empty()));
                assert(r2.drop_last() =~= r);
                let m = r.map_values(|p: Seq<char>| camel_part(p));
                assert(m.drop_last() =~= r.drop_last().map_values(|p: Seq<char>| camel_part(p)));
                assert(camel_part(Seq::<char>::empty()) =~= Seq::<char>::empty());
                assert(concat_all(r2.drop_last().map_values(|p: Seq<char>| camel_part(p)))
                    == concat_all(m));
            }
        } else {
            let piece = match first {
                None => {
                    let u = to_ascii_uppercase(c);
                    first = Some(c);
                    u
                },
                Some(f) => {
                    if c == f {
                        to_ascii_uppercase(f)
                    } else {
                        c
                    }
                },
            };
            proof {
                lemma_camel_part_push(r.last(), c);
                let r2 = split_on(post, '_');
                assert(r2 == r.update(r.len() - 1, r.last().push(c)));
                assert(r2.drop_last() =~= r.drop_last());
                assert(r2.last() == r.last().push(c));
            }
            push_char(&mut out, piece);
        }
        i = i + 1;
    }
    proof {
        assert(s@.take(cs.len() as int) =~= s@);
        let r = split_on(s@, '_');
        let m = r.map_values(|p: Seq<char>| camel_part(p));
        assert(m.drop_last() =~= r.drop_last().map_values(|p: Seq<char>| camel_part(p)));
    }
    out
}


proof fn lemma_split_parts_avoid_sep(s: Seq<char>, sep: char)
    ensures
        forall|i: int, j: int|
            0 <= i < split_on(s, sep).len() && 0 <= j < split_on(s, sep)[i].len()
                ==> #[trigger] split_on(s, sep)[i][j] != sep,
    decreases s.len(),
{
    if s.len() > 0 {
        lemma_split_parts_avoid_sep(s.drop_last(), sep);
        lemma_split_on_nonempty(s.drop_last(), sep);
        let r = split_on(s.drop_last(), sep);
        if s.last() != sep {
            assert forall|i: int, j: int|
                0 <= i < split_on(s, sep).len() && 0 <= j < split_on(s, sep)[i].len()
                    implies #[trigger] split_on(s, sep)[i][j] != sep by {
                if i == r.len() - 1 && j == r.last().len() {
                } else if i == r.len() - 1 {
                    assert(split_on(s, sep)[i][j] == r[i][j]);
                } else {
                    assert(split_on(s, sep)[i] == r[i]);
                }
            }
        } else {
            assert forall|i: int, j: int|
                0 <= i < split_on(s, sep).len() && 0 <= j < split_on(s, sep)[i].len()
                    implies #[trigger] split_on(s, sep)[i][j] != sep by {
                if i < r.len() {
                    assert(split_on(s, sep)[i] == r[i]);
                }
            }
        }
    }
}

proof fn lemma_concat_all_avoids(pieces: Seq<Seq<char>>, c: char)
    requires
        forall|i: int, j: int|
            0 <= i < pieces.len() && 0 <= j < pieces[i].len() ==> #[trigger] pieces[i][j] != c,
    ensures
        forall|k: int| 0 <= k < concat_all(pieces).len() ==> #[trigger] concat_all(pieces)[k] != c,
    decreases pieces.len(),
{
    if pieces.len() > 0 {
        let front = pieces.drop_last();
        assert forall|i: int, j: int|
            0 <= i < front.len() && 0 <= j < front[i].len() implies #[trigger] front[i][j] != c by {
            assert(front[i] == pieces[i]);
        }
        lemma_concat_all_avoids(front, c);
        let all = concat_all(pieces);
        assert forall|k: int| 0 <= k < all.len() implies #[trigger] all[k] != c by {
            let n = concat_all(front).len();
            if k >= n {
                assert(all[k] == pieces.last()[k - n]);
                assert(pieces[pieces.len() - 1][k - n] != c);
            }
        }
    }
}

/// The sum of the lengths of some pieces, counted from the back.
pub open spec fn total_len(pieces: Seq<Seq<char>>) -> nat
    decreases pieces.len(),
{
    if pieces.len() == 0 {
        0
    } else {
        total_len(pieces.drop_last()) + pieces.last().len()
    }
}

proof fn lemma_concat_all_total_len(pieces: Seq<Seq<char>>)
    ensures
        concat_all(pieces).len() == total_len(pieces),
    decreases pieces.len(),
{
    if pieces.len() > 0 {
        lemma_concat_all_total_len(pieces.drop_last());
    }
}

proof fn lemma_split_lengths(s: Seq<char>, sep: char)
    ensures
        split_on(s, sep).len() == count_char(s, sep) + 1,
        total_len(split_on(s, sep)) + count_char(s, sep) == s.len(),
    decreases s.len(),
{
    if s.len() > 0 {
        lemma_split_lengths(s.drop_last(), sep);
        lemma_split_on_nonempty(s.drop_last(), sep);
        let r = split_on(s.drop_last(), sep);
        if s.last() == sep {
            assert(r.push(Seq::<char>::empty()).drop_last() =~= r);
            assert(total_len(r.push(Seq::<char>::empty())) == total_len(r));
        } else {
            let r2 = r.update(r.len() - 1, r.last().push(s.last()));
            assert(r2.drop_last() =~= r.drop_last());
            assert(r2.last() == r.last().push(s.last()));
            assert(total_len(r) == total_len(r.drop_last()) + r.last().len());
            assert(total_len(r2) == total_len(r2.drop_last()) + r2.last().len());
        }
    } else {
        let one = seq![Seq::<char>::empty()];
        assert(one.drop_last() =~= Seq::<Seq<char>>::empty());
        assert(total_len(one) == total_len(one.drop_last()) + one.last().len());
    }
}

proof fn lemma_camel_map_total_len(parts: Seq<Seq<char>>)
    ensures
        total_len(parts.map_values(|p: Seq<char>| camel_part(p))) == total_len(parts),
    decreases parts.len(),
{
    if parts.len() > 0 {
        lemma_camel_map_total_len(parts.drop_last());
        assert(parts.map_values(|p: Seq<char>| camel_part(p)).drop_last() =~= parts.drop_last().map_values(
            |p: Seq<char>| camel_part(p),
        ));
    }
}

/// The result of the conversion holds no underscore.
pub proof fn lemma_camel_has_no_underscore(s: Seq<char>)
    ensures
        forall|k: int| 0 <= k < snake_to_camel(s).len() ==> #[trigger] snake_to_camel(s)[k] != '_',
{
    lemma_split_parts_avoid_sep(s, '_');
    let parts = split_on(s, '_');
    let m = parts.map_values(|p: Seq<char>| camel_part(p));
    assert forall|i: int, j: int| 0 <= i < m.len() && 0 <= j < m[i].len() implies #[trigger] m[i][j]
        != '_' by {
        assert(parts[i][j] != '_');
        assert(parts[i][0] != '_');
    }
    lemma_concat_all_avoids(m, '_');
}

/// The conversion drops exactly the underscores: every other character keeps
/// its place in the count.
pub proof fn lemma_camel_length(s: Seq<char>)
    ensures
        snake_to_camel(s).len() + count_char(s, '_') == s.len(),
{
    let parts = split_on(s, '_');
    lemma_split_lengths(s, '_');
    lemma_camel_map_total_len(parts);
    lemma_concat_all_total_len(parts.map_values(|p: Seq<char>| camel_part(p)));
}

proof fn lemma_split_without_sep(s: Seq<char>, sep: char)
    requires
        forall|k: int| 0 <= k < s.len() ==> #[trigger] s[k] != sep,
    ensures
        split_on(s, sep) == seq![s],
    decreases s.len(),
{
    if s.len() > 0 {
        let front = s.drop_last();
        assert forall|k: int| 0 <= k < front.len() implies #[trigger] front[k] != sep by {
            assert(front[k] == s[k]);
        }
        lemma_split_without_sep(front, sep);
        assert(s[s.len() - 1] != sep);
        assert(front.push(s.last()) =~= s);
        assert(seq![s.drop_last()].update(0, s.drop_last().push(s.last())) =~= seq![s]);
    } else {
        assert(s =~= Seq::<char>::empty());
    }
}

/// A converted name stays convertible, and converting it again changes
/// nothing.
pub proof fn lemma_camel_idempotent(s: Seq<char>)
    requires
        camel_convertible(s),
    ensures
        camel_convertible(snake_to_camel(s)),
        snake_to_camel(snake_to_camel(s)) == snake_to_camel(s),
{
    let parts = split_on(s, '_');
    lemma_split_on_nonempty(s, '_');
    let m = parts.map_values(|p: Seq<char>| camel_part(p));
    let r = snake_to_camel(s);
    assert(parts[0].len() > 0);
    assert(m[0].len() == parts[0].len());
    lemma_first_piece_prefix(m);
    assert(r[0] == m[0][0]);
    assert(m[0][0] == ascii_upper(parts[0][0]));
    lemma_camel_has_no_underscore(s);
    lemma_split_without_sep(r, '_');
    assert(split_on(r, '_')[0] == r);
    let up = ascii_upper(parts[0][0]);
    assert(ascii_upper(up) == up);
    assert(camel_part(r) =~= r);
    let m2 = split_on(r, '_').map_values(|p: Seq<char>| camel_part(p));
    assert(m2 =~= seq![r]);
    assert(m2.drop_last() =~= Seq::<Seq<char>>::empty());
    assert(concat_all(m2) =~= concat_all(Seq::<Seq<char>>::empty()) + r);
}

/// Splitting `a`, a separator and `b` gives the parts of `a`, then those of
/// `b`.
proof fn lemma_split_on_join(a: Seq<char>, b: Seq<char>, sep: char)
    ensures
        split_on(a + seq![sep] + b, sep) == split_on(a, sep) + split_on(b, sep),
    decreases b.len(),
{
    let s = a + seq![sep] + b;
    lemma_split_on_nonempty(a, sep);
    if b.len() == 0 {
        assert(s =~= a.push(sep));
        assert(s.drop_last() =~= a);
        assert(split_on(b, sep) == seq![Seq::<char>::empty()]);
        assert(split_on(a, sep).push(Seq::<char>::empty()) =~= split_on(a, sep) + seq![Seq::<char>::empty()]);
    } else {
        let b2 = b.drop_last();
        lemma_split_on_join(a, b2, sep);
        lemma_split_on_nonempty(b2, sep);
        assert(s.drop_last() =~= a + seq![sep] + b2);
        assert(s.last() == b.last());
        let ra = split_on(a, sep);
        let rb = split_on(b2, sep);
        if b.last() == sep {
            assert((ra + rb).push(Seq::<char>::empty()) =~= ra + rb.push(Seq::<char>::empty()));
        } else {
            let r = ra + rb;
            assert(r.last() == rb.last());
            assert(r.update(r.len() - 1, r.last().push(b.last())) =~= ra + rb.update(
                rb.len() - 1,
                rb.last().push(b.last()),
            ));
        }
    }
}

/// The concatenation of two runs of pieces is the concatenation of each.
proof fn lemma_concat_all_append(x: Seq<Seq<char>>, y: Seq<Seq<char>>)
    ensures
        concat_all(x + y) == concat_all(x) + concat_all(y),
    decreases y.len(),
{
    if y.len() == 0 {
        assert(x + y =~= x);
        assert(concat_all(x) + Seq::<char>::empty() =~= concat_all(x));
    } else {
        lemma_concat_all_append(x, y.drop_last());
        assert((x + y).drop_last() =~= x + y.drop_last());
        assert((x + y).last() == y.last());
    }
}

/// Joining two names with an underscore and converting gives the two
/// converted names one after the other.
pub proof fn lemma_camel_of_joined(a: Seq<char>, b: Seq<char>)
    ensures
        snake_to_camel(a + seq!['_'] + b) == snake_to_camel(a) + snake_to_camel(b),
{
    lemma_split_on_join(a, b, '_');
    let pa = split_on(a, '_');
    let pb = split_on(b, '_');
    assert((pa + pb).map_values(|p: Seq<char>| camel_part(p)) =~= pa.map_values(
        |p: Seq<char>| camel_part(p),
    ) + pb.map_values(|p: Seq<char>| camel_part(p)));
    lemma_concat_all_append(
        pa.map_values(|p: Seq<char>| camel_part(p)),
        pb.map_values(|p: Seq<char>| camel_part(p)),
    );
}

/// A converted text joined from two convertible names is convertible.
pub proof fn lemma_camel_convertible_joined(a: Seq<char>, b: Seq<char>)
    requires
        camel_convertible(a),
        camel_convertible(b),
    ensures
        camel_convertible(a + seq!['_'] + b),
{
    lemma_split_on_join(a, b, '_');
    let pa = split_on(a, '_');
    let pb = split_on(b, '_');
    let p = split_on(a + seq!['_'] + b, '_');
    assert forall|i: int| 0 <= i < p.len() implies {
        &&& #[trigger] p[i].len() > 0
        &&& (p[i][0] as u32) < 128
    } by {
        if i < pa.len() {
            assert(p[i] == pa[i]);
        } else {
            assert(p[i] == pb[i - pa.len()]);
        }
    }
}

proof fn lemma_first_piece_prefix(pieces: Seq<Seq<char>>)
    requires
        pieces.len() > 0,
        pieces[0].len() > 0,
    ensures
        concat_all(pieces).len() > 0,
        concat_all(pieces)[0] == pieces[0][0],
    decreases pieces.len(),
{
    if pieces.len() == 1 {
        assert(pieces.drop_last() =~= Seq::<Seq<char>>::empty());
        assert(concat_all(pieces.drop_last()) =~= Seq::<char>::empty());
    } else {
        assert(pieces.drop_last()[0] == pieces[0]);
        lemma_first_piece_prefix(pieces.drop_last());
    }
}

} // verus!
