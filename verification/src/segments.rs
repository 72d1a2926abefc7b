//! Dot-separated segments of a record key or pattern, and the facts about
//! splitting and re-joining them that the matchers rely on.

use vstd::prelude::*;

verus! {

broadcast use vstd::seq_lib::group_seq_properties;

/// Splits `s` on `'.'`, continuing a segment that already holds `cur`.
pub open spec fn split_from(s: Seq<char>, cur: Seq<char>) -> Seq<Seq<char>>
    decreases s.len(),
{
    if s.len() == 0 {
        seq![cur]
    } else if s[0] == '.' {
        seq![cur] + split_from(s.drop_first(), Seq::empty())
    } else {
        split_from(s.drop_first(), cur.push(s[0]))
    }
}

/// The dot-separated segments of `s`: `"a.b"` has `["a", "b"]`, `""` has one
/// empty segment, and a `'.'` at either end yields an empty segment there.
pub open spec fn segments(s: Seq<char>) -> Seq<Seq<char>> {
    split_from(s, Seq::empty())
}

/// Joins segments back with `'.'` between neighbours.
pub open spec fn join_dots(segs: Seq<Seq<char>>) -> Seq<char>
    decreases segs.len(),
{
    if segs.len() == 0 {
        Seq::empty()
    } else if segs.len() == 1 {
        segs[0]
    } else {
        segs[0] + seq!['.'] + join_dots(segs.drop_first())
    }
}

/// The segment `"#"`.
pub open spec fn hash_seg() -> Seq<char> {
    seq!['#']
}

/// The segment `"*"`.
pub open spec fn star_seg() -> Seq<char> {
    seq!['*']
}

pub proof fn lemma_split_from_nonempty(s: Seq<char>, cur: Seq<char>)
    ensures
        split_from(s, cur).len() >= 1,
    decreases s.len(),
{
    if s.len() > 0 {
        if s[0] == '.' {
            lemma_split_from_nonempty(s.drop_first(), Seq::empty());
        } else {
            lemma_split_from_nonempty(s.drop_first(), cur.push(s[0]));
        }
    }
}

/// A string without a dot is a single segment (continuing `cur`).
pub proof fn lemma_split_no_dot(s: Seq<char>, cur: Seq<char>)
    requires
        !s.contains('.'),
    ensures
        split_from(s, cur) == seq![cur + s],
    decreases s.len(),
{
    if s.len() == 0 {
        assert(cur + s =~= cur);
    } else {
        assert(s.drop_first().len() < s.len());
        assert(!s.drop_first().contains('.')) by {
            if s.drop_first().contains('.') {
                let j = choose|j: int| 0 <= j < s.drop_first().len() && s.drop_first()[j] == '.';
                assert(s[j + 1] == '.');
            }
        }
        assert(s[0] != '.') by {
            assert(s.contains(s[0]));
        }
        lemma_split_no_dot(s.drop_first(), cur.push(s[0]));
        assert(cur.push(s[0]) + s.drop_first() =~= cur + s);
    }
}

/// Splitting `x ++ "." ++ y` splits `x` and `y` independently.
pub proof fn lemma_split_concat(x: Seq<char>, y: Seq<char>, cur: Seq<char>)
    ensures
        split_from(x + seq!['.'] + y, cur) == split_from(x, cur) + segments(y),
    decreases x.len(),
{
    let z = x + seq!['.'] + y;
    if x.len() == 0 {
        assert(z.drop_first() =~= y);
        assert(z[0] == '.');
    } else {
        assert(z.drop_first() =~= x.drop_first() + seq!['.'] + y);
        assert(z[0] == x[0]);
        if x[0] == '.' {
            lemma_split_concat(x.drop_first(), y, Seq::empty());
            assert(split_from(z, cur) == seq![cur] + split_from(z.drop_first(), Seq::empty()));
            assert(seq![cur] + (split_from(x.drop_first(), Seq::empty()) + segments(y)) =~= (seq![
                cur,
            ] + split_from(x.drop_first(), Seq::empty())) + segments(y));
        } else {
            lemma_split_concat(x.drop_first(), y, cur.push(x[0]));
        }
    }
}

/// Joining the segments of `s` gives back `s`.
pub proof fn lemma_join_split(s: Seq<char>, cur: Seq<char>)
    ensures
        join_dots(split_from(s, cur)) == cur + s,
    decreases s.len(),
{
    if s.len() == 0 {
        assert(cur + s =~= cur);
    } else if s[0] == '.' {
        let rest = split_from(s.drop_first(), Seq::empty());
        lemma_split_from_nonempty(s.drop_first(), Seq::empty());
        lemma_join_split(s.drop_first(), Seq::empty());
        let all = seq![cur] + rest;
        assert(all.drop_first() =~= rest);
        assert(all[0] == cur);
        assert(Seq::<char>::empty() + s.drop_first() =~= s.drop_first());
        assert(cur + seq!['.'] + s.drop_first() =~= cur + s);
    } else {
        lemma_join_split(s.drop_first(), cur.push(s[0]));
        assert(cur.push(s[0]) + s.drop_first() =~= cur + s);
    }
}

/// Joining a concatenation of two non-empty segment lists puts one dot
/// between the two joins.
pub proof fn lemma_join_concat(a: Seq<Seq<char>>, b: Seq<Seq<char>>)
    requires
        a.len() >= 1,
        b.len() >= 1,
    ensures
        join_dots(a + b) == join_dots(a) + seq!['.'] + join_dots(b),
    decreases a.len(),
{
    let ab = a + b;
    assert(ab[0] == a[0]);
    if a.len() == 1 {
        assert(ab.drop_first() =~= b);
    } else {
        assert(ab.drop_first() =~= a.drop_first() + b);
        lemma_join_concat(a.drop_first(), b);
        assert(a[0] + seq!['.'] + (join_dots(a.drop_first()) + seq!['.'] + join_dots(b)) =~= (a[0]
            + seq!['.'] + join_dots(a.drop_first())) + seq!['.'] + join_dots(b));
    }
}

/// If neither `s` nor `cur` holds `c`, no segment of their split holds `c`.
pub proof fn lemma_split_avoids(s: Seq<char>, cur: Seq<char>, c: char)
    requires
        !s.contains(c),
        !cur.contains(c),
    ensures
        forall|j: int| 0 <= j < split_from(s, cur).len() ==> !(#[trigger] split_from(s, cur)[j]).contains(c),
    decreases s.len(),
{
    if s.len() == 0 {
        assert(split_from(s, cur) =~= seq![cur]);
    } else {
        assert(!s.drop_first().contains(c)) by {
            if s.drop_first().contains(c) {
                let j = choose|j: int| 0 <= j < s.drop_first().len() && s.drop_first()[j] == c;
                assert(s[j + 1] == c);
            }
        }
        assert(s[0] != c) by {
            assert(s.contains(s[0]));
        }
        if s[0] == '.' {
            lemma_split_avoids(s.drop_first(), Seq::empty(), c);
            let rest = split_from(s.drop_first(), Seq::empty());
            assert forall|j: int| 0 <= j < split_from(s, cur).len() implies !(#[trigger] split_from(
                s,
                cur,
            )[j]).contains(c) by {
                assert(split_from(s, cur) == seq![cur] + rest);
                if j > 0 {
                    assert(split_from(s, cur)[j] == rest[j - 1]);
                } else {
                    assert(split_from(s, cur)[j] == cur);
                }
            }
        } else {
            assert(!cur.push(s[0]).contains(c)) by {
                if cur.push(s[0]).contains(c) {
                    let j = choose|j: int| 0 <= j < cur.push(s[0]).len() && cur.push(s[0])[j] == c;
                    if j < cur.len() {
                        assert(cur[j] == c);
                    }
                }
            }
            lemma_split_avoids(s.drop_first(), cur.push(s[0]), c);
            assert(split_from(s, cur) == split_from(s.drop_first(), cur.push(s[0])));
        }
    }
}

/// A segment that lacks `c` is not the one-character segment `c`.
pub proof fn lemma_avoid_not_single(seg: Seq<char>, c: char)
    requires
        !seg.contains(c),
    ensures
        seg != seq![c],
{
    if seg == seq![c] {
        assert(seg[0] == c);
        assert(seg.contains(c));
    }
}

/// The segments of `s`, computed.
pub fn split_segments(s: &Vec<char>) -> (r: Vec<Vec<char>>)
    ensures
        r@.map_values(|v: Vec<char>| v@) == segments(s@),
{
    let mut out: Vec<Vec<char>> = Vec::new();
    let mut cur: Vec<char> = Vec::new();
    let mut i: usize = 0;
    while i < s.len()
        invariant
            i <= s.len(),
            segments(s@) == out@.map_values(|v: Vec<char>| v@) + split_from(s@.skip(i as int), cur@),
        decreases s.len() - i,
    {
        let ghost rest = s@.skip(i as int);
        assert(rest.drop_first() =~= s@.skip(i + 1));
        assert(rest[0] == s[i as int]);
        if s[i] == '.' {
            let ghost old_out = out@.map_values(|v: Vec<char>| v@);
            let ghost old_cur = cur@;
            out.push(cur);
            cur = Vec::new();
            assert(out@.map_values(|v: Vec<char>| v@) =~= old_out.push(old_cur));
            assert(old_out + (seq![old_cur] + split_from(s@.skip(i + 1), Seq::empty())) =~= old_out.push(
                old_cur,
            ) + split_from(s@.skip(i + 1), Seq::empty()));
        } else {
            cur.push(s[i]);
        }
        i = i + 1;
    }
    assert(s@.skip(i as int) =~= Seq::<char>::empty());
    let ghost old_out = out@.map_values(|v: Vec<char>| v@);
    let ghost old_cur = cur@;
    out.push(cur);
    assert(out@.map_values(|v: Vec<char>| v@) =~= old_out.push(old_cur));
    out
}

} // verus!
