//! Topic pattern matching over dot-separated record keys.
//!
//! Grammar: dot segments, `*` covers exactly one segment, `#` absorbs zero or
//! more segments and the pattern continues after it, so a `#` in the middle
//! still has to line its suffix up. `/` is an ordinary character.

use vstd::prelude::*;

use crate::segments::{
    hash_seg, join_dots, lemma_avoid_not_single, lemma_join_concat, lemma_join_split,
    lemma_split_avoids, lemma_split_concat, lemma_split_from_nonempty, lemma_split_no_dot,
    segments, split_segments, star_seg,
};
use crate::text::chars_of;

verus! {

broadcast use vstd::seq_lib::group_seq_properties;

/// Which question a segment walk answers: whether a pattern matches a topic,
/// or whether a grant contains a requested pattern.
pub enum CoverMode {
    Topic,
    Containment,
}

/// When one pattern segment (never `#`) covers one subject segment.
pub open spec fn covers(mode: CoverMode, p: Seq<char>, s: Seq<char>) -> bool {
    match mode {
        CoverMode::Topic => p == star_seg() || p == s,
        CoverMode::Containment => if p == star_seg() {
            s != hash_seg()
        } else {
            p == s
        },
    }
}

/// Whether pattern segments `p` cover subject segments `s`: `#` absorbs zero
/// or more subject segments, every other pattern segment covers exactly one.
pub open spec fn seg_match(mode: CoverMode, p: Seq<Seq<char>>, s: Seq<Seq<char>>) -> bool
    decreases p.len(), s.len(),
{
    if p.len() == 0 {
        s.len() == 0
    } else if p[0] == hash_seg() {
        seg_match(mode, p.drop_first(), s) || (s.len() > 0 && seg_match(mode, p, s.drop_first()))
    } else {
        s.len() > 0 && covers(mode, p[0], s[0]) && seg_match(mode, p.drop_first(), s.drop_first())
    }
}

/// `topic` matches `pattern`.
pub open spec fn topic_match_spec(pattern: Seq<char>, topic: Seq<char>) -> bool {
    seg_match(CoverMode::Topic, segments(pattern), segments(topic))
}

/// `grant` contains `requested` (every topic the request matches, the grant matches).
pub open spec fn contains_spec(grant: Seq<char>, requested: Seq<char>) -> bool {
    seg_match(CoverMode::Containment, segments(grant), segments(requested))
}

/// `pattern` holds a wildcard character.
pub open spec fn is_wildcard_spec(pattern: Seq<char>) -> bool {
    pattern.contains('#') || pattern.contains('*')
}

// ---------------------------------------------------------------------------
// Facts about the segment walk
// ---------------------------------------------------------------------------

/// A `#` may absorb any leading part of the subject: matching `#·q` against a
/// later suffix implies matching it against an earlier one.
proof fn lemma_hash_absorbs(mode: CoverMode, p: Seq<Seq<char>>, s: Seq<Seq<char>>, i: int, j: int)
    requires
        p.len() > 0,
        p[0] == hash_seg(),
        0 <= i <= j <= s.len(),
        seg_match(mode, p, s.skip(j)),
    ensures
        seg_match(mode, p, s.skip(i)),
    decreases j - i,
{
    if i < j {
        lemma_hash_absorbs(mode, p, s, i + 1, j);
        assert(s.skip(i).drop_first() =~= s.skip(i + 1));
    }
}

/// A match of `#·q` against a suffix picks some later suffix that `q` matches.
proof fn lemma_hash_witness(mode: CoverMode, p: Seq<Seq<char>>, s: Seq<Seq<char>>, b: int) -> (k: int)
    requires
        p.len() > 0,
        p[0] == hash_seg(),
        0 <= b <= s.len(),
        seg_match(mode, p, s.skip(b)),
    ensures
        b <= k <= s.len(),
        seg_match(mode, p.drop_first(), s.skip(k)),
    decreases s.len() - b,
{
    if seg_match(mode, p.drop_first(), s.skip(b)) {
        b
    } else {
        assert(s.skip(b).drop_first() =~= s.skip(b + 1));
        lemma_hash_witness(mode, p, s, b + 1)
    }
}

/// Walking a run of `d` non-`#` pattern segments that matched consumes exactly
/// `d` subject segments.
proof fn lemma_literal_run_forward(
    mode: CoverMode,
    p: Seq<Seq<char>>,
    s: Seq<Seq<char>>,
    a: int,
    b: int,
    d: int,
)
    requires
        0 <= a,
        0 <= b <= s.len(),
        0 <= d,
        a + d <= p.len(),
        forall|k: int| a <= k < a + d ==> p[k] != hash_seg(),
        seg_match(mode, p.skip(a), s.skip(b)),
    ensures
        b + d <= s.len(),
        seg_match(mode, p.skip(a + d), s.skip(b + d)),
    decreases d,
{
    if d > 0 {
        assert(p.skip(a)[0] == p[a]);
        assert(p.skip(a).drop_first() =~= p.skip(a + 1));
        assert(s.skip(b).drop_first() =~= s.skip(b + 1));
        lemma_literal_run_forward(mode, p, s, a + 1, b + 1, d - 1);
    }
}

/// A run of `d` non-`#` pattern segments that each cover their subject
/// segment can be stepped over without changing the answer.
proof fn lemma_literal_run(mode: CoverMode, p: Seq<Seq<char>>, s: Seq<Seq<char>>, a: int, b: int, d: int)
    requires
        0 <= a,
        0 <= b,
        0 <= d,
        a + d <= p.len(),
        b + d <= s.len(),
        forall|k: int| a <= k < a + d ==> p[k] != hash_seg() && covers(mode, p[k], s[b + k - a]),
    ensures
        seg_match(mode, p.skip(a), s.skip(b)) == seg_match(mode, p.skip(a + d), s.skip(b + d)),
    decreases d,
{
    if d > 0 {
        assert(p.skip(a)[0] == p[a]);
        assert(s.skip(b)[0] == s[b]);
        assert(p.skip(a).drop_first() =~= p.skip(a + 1));
        assert(s.skip(b).drop_first() =~= s.skip(b + 1));
        assert(covers(mode, p[a], s[b + a - a]));
        lemma_literal_run(mode, p, s, a + 1, b + 1, d - 1);
    }
}

/// Any pattern matches itself under topic matching.
proof fn lemma_match_reflexive(p: Seq<Seq<char>>)
    ensures
        seg_match(CoverMode::Topic, p, p),
    decreases p.len(),
{
    if p.len() > 0 {
        lemma_match_reflexive(p.drop_first());
        if p[0] == hash_seg() {
            // absorb the `#` segment itself, then nothing
            assert(seg_match(CoverMode::Topic, p.drop_first(), p.drop_first()));
            assert(seg_match(CoverMode::Topic, p, p.drop_first()));
        }
    }
}

/// A lone `#` matches every subject.
proof fn lemma_lone_hash(mode: CoverMode, s: Seq<Seq<char>>)
    ensures
        seg_match(mode, seq![hash_seg()], s),
    decreases s.len(),
{
    let p = seq![hash_seg()];
    assert(p.len() == 1);
    assert(p[0] == hash_seg());
    assert(p.drop_first() =~= Seq::<Seq<char>>::empty());
    if s.len() > 0 {
        lemma_lone_hash(mode, s.drop_first());
    } else {
        assert(seg_match(mode, p.drop_first(), s));
    }
}

/// Literal segments followed by `#` match exactly the subjects that start
/// with those literals.
proof fn lemma_literals_then_hash(lits: Seq<Seq<char>>, s: Seq<Seq<char>>)
    requires
        forall|k: int| 0 <= k < lits.len() ==> lits[k] != hash_seg() && lits[k] != star_seg(),
    ensures
        seg_match(CoverMode::Topic, lits + seq![hash_seg()], s) == (lits.len() <= s.len() && s.take(
            lits.len() as int,
        ) == lits),
    decreases lits.len(),
{
    let p = lits + seq![hash_seg()];
    if lits.len() == 0 {
        assert(p =~= seq![hash_seg()]);
        lemma_lone_hash(CoverMode::Topic, s);
        assert(s.take(0) =~= lits);
    } else {
        assert(p[0] == lits[0]);
        assert(p.drop_first() =~= lits.drop_first() + seq![hash_seg()]);
        lemma_literals_then_hash(lits.drop_first(), s.drop_first());
        if lits.len() <= s.len() && s.take(lits.len() as int) == lits {
            assert(s[0] == lits[0]);
            assert(s.drop_first().take(lits.drop_first().len() as int) =~= lits.drop_first());
        }
        if seg_match(CoverMode::Topic, p, s) {
            assert(s.take(lits.len() as int) =~= seq![s[0]] + s.drop_first().take(
                lits.drop_first().len() as int,
            ));
            assert(lits =~= seq![lits[0]] + lits.drop_first());
        }
    }
}

/// Topic matching and containment agree on every subject without a `#`
/// segment.
proof fn lemma_modes_agree(p: Seq<Seq<char>>, s: Seq<Seq<char>>)
    requires
        forall|j: int| 0 <= j < s.len() ==> s[j] != hash_seg(),
    ensures
        seg_match(CoverMode::Topic, p, s) == seg_match(CoverMode::Containment, p, s),
    decreases p.len(), s.len(),
{
    if p.len() > 0 {
        if s.len() > 0 {
            assert forall|j: int| 0 <= j < s.drop_first().len() implies s.drop_first()[j]
                != hash_seg() by {
                assert(s.drop_first()[j] == s[j + 1]);
            }
        }
        if p[0] == hash_seg() {
            lemma_modes_agree(p.drop_first(), s);
            if s.len() > 0 {
                lemma_modes_agree(p, s.drop_first());
            }
        } else if s.len() > 0 {
            lemma_modes_agree(p.drop_first(), s.drop_first());
        }
    }
}

/// Soundness of containment: a grant that contains a request matches every
/// subject the request matches.
proof fn lemma_contains_sound(g: Seq<Seq<char>>, r: Seq<Seq<char>>, t: Seq<Seq<char>>)
    requires
        seg_match(CoverMode::Containment, g, r),
        seg_match(CoverMode::Topic, r, t),
    ensures
        seg_match(CoverMode::Topic, g, t),
    decreases g.len() + r.len() + t.len(),
{
    if g.len() == 0 {
    } else if g[0] == hash_seg() {
        if seg_match(CoverMode::Containment, g.drop_first(), r) {
            lemma_contains_sound(g.drop_first(), r, t);
        } else {
            let r1 = r.drop_first();
            if r[0] == hash_seg() {
                if seg_match(CoverMode::Topic, r.drop_first(), t) {
                    lemma_contains_sound(g, r1, t);
                } else {
                    lemma_contains_sound(g, r, t.drop_first());
                }
            } else {
                lemma_contains_sound(g, r1, t.drop_first());
            }
        }
    } else {
        lemma_contains_sound(g.drop_first(), r.drop_first(), t.drop_first());
    }
}

// ---------------------------------------------------------------------------
// Executable matchers
// ---------------------------------------------------------------------------

fn chars_eq(a: &Vec<char>, b: &Vec<char>) -> (r: bool)
    ensures
        r == (a@ == b@),
{
    if a.len() != b.len() {
        return false;
    }
    let mut i: usize = 0;
    while i < a.len()
        invariant
            i <= a.len(),
            a.len() == b.len(),
            forall|k: int| 0 <= k < i ==> a@[k] == b@[k],
        decreases a.len() - i,
    {
        if a[i] != b[i] {
            return false;
        }
        i = i + 1;
    }
    assert(a@ =~= b@);
    true
}

fn is_single(seg: &Vec<char>, c: char) -> (r: bool)
    ensures
        r == (seg@ == seq![c]),
{
    if seg.len() == 1 && seg[0] == c {
        assert(seg@ =~= seq![c]);
        true
    } else {
        proof {
            if seg@ == seq![c] {
                assert(seg@[0] == c);
            }
        }
        false
    }
}

fn seg_covers(mode: &CoverMode, p: &Vec<char>, s: &Vec<char>) -> (r: bool)
    ensures
        r == covers(*mode, p@, s@),
{
    match mode {
        CoverMode::Topic => is_single(p, '*') || chars_eq(p, s),
        CoverMode::Containment => if is_single(p, '*') {
            !is_single(s, '#')
        } else {
            chars_eq(p, s)
        },
    }
}

fn contains_char(s: &Vec<char>, c: char) -> (r: bool)
    ensures
        r == s@.contains(c),
{
    let mut i: usize = 0;
    while i < s.len()
        invariant
            i <= s.len(),
            forall|k: int| 0 <= k < i ==> s@[k] != c,
        decreases s.len() - i,
    {
        if s[i] == c {
            assert(s@[i as int] == c);
            return true;
        }
        i = i + 1;
    }
    false
}

/// The loop invariant of [`match_segments`]: the walk sits at `(pi, si)`; with
/// no `#` seen the answer is the match of the remaining suffixes, and after a
/// `#` the answer is the match from that `#` on, the segments walked since it
/// having each covered their subject segment.
pub open spec fn walk_inv(
    mode: CoverMode,
    p: Seq<Seq<char>>,
    s: Seq<Seq<char>>,
    pi: int,
    si: int,
    resume: Option<(int, int)>,
) -> bool {
    &&& 0 <= pi <= p.len()
    &&& 0 <= si <= s.len()
    &&& match resume {
        None => seg_match(mode, p, s) == seg_match(mode, p.skip(pi), s.skip(si)),
        Some((ph, sh)) => {
            &&& 1 <= ph <= pi
            &&& 0 <= sh <= si
            &&& si - sh == pi - ph
            &&& p[ph - 1] == hash_seg()
            &&& forall|k: int| ph <= k < pi ==> p[k] != hash_seg() && covers(mode, p[k], s[sh + k - ph])
            &&& seg_match(mode, p, s) == seg_match(mode, p.skip(ph - 1), s.skip(sh))
        },
    }
}

proof fn lemma_walk_hash(
    mode: CoverMode,
    p: Seq<Seq<char>>,
    s: Seq<Seq<char>>,
    pi: int,
    si: int,
    resume: Option<(int, int)>,
)
    requires
        walk_inv(mode, p, s, pi, si, resume),
        pi < p.len(),
        p[pi] == hash_seg(),
    ensures
        walk_inv(mode, p, s, pi + 1, si, Some((pi + 1, si))),
{
    match resume {
        None => {},
        Some((ph, sh)) => {
            let d = pi - ph;
            let q = p.skip(ph - 1);
            assert(q[0] == hash_seg());
            assert(q.drop_first() =~= p.skip(ph));
            lemma_literal_run(mode, p, s, ph, sh, d);
            let answer = seg_match(mode, p, s);
            if seg_match(mode, p.skip(pi), s.skip(si)) {
                assert(seg_match(mode, p.skip(ph), s.skip(sh)));
            }
            if answer {
                let k = lemma_hash_witness(mode, q, s, sh);
                lemma_literal_run_forward(mode, p, s, ph, k, d);
                assert(p.skip(pi)[0] == hash_seg());
                lemma_hash_absorbs(mode, p.skip(pi), s, si, k + d);
            }
        },
    }
}

proof fn lemma_walk_cover(
    mode: CoverMode,
    p: Seq<Seq<char>>,
    s: Seq<Seq<char>>,
    pi: int,
    si: int,
    resume: Option<(int, int)>,
)
    requires
        walk_inv(mode, p, s, pi, si, resume),
        pi < p.len(),
        si < s.len(),
        p[pi] != hash_seg(),
        covers(mode, p[pi], s[si]),
    ensures
        walk_inv(mode, p, s, pi + 1, si + 1, resume),
{
    assert(p.skip(pi)[0] == p[pi]);
    assert(s.skip(si)[0] == s[si]);
    assert(p.skip(pi).drop_first() =~= p.skip(pi + 1));
    assert(s.skip(si).drop_first() =~= s.skip(si + 1));
    match resume {
        None => {},
        Some((ph, sh)) => {
            assert(sh + pi - ph == si);
        },
    }
}

proof fn lemma_walk_done(
    mode: CoverMode,
    p: Seq<Seq<char>>,
    s: Seq<Seq<char>>,
    pi: int,
    si: int,
    resume: Option<(int, int)>,
)
    requires
        walk_inv(mode, p, s, pi, si, resume),
        pi == p.len(),
        si == s.len(),
    ensures
        seg_match(mode, p, s),
{
    assert(p.skip(pi) =~= Seq::<Seq<char>>::empty());
    assert(s.skip(si) =~= Seq::<Seq<char>>::empty());
    match resume {
        None => {},
        Some((ph, sh)) => {
            lemma_literal_run(mode, p, s, ph, sh, pi - ph);
            let q = p.skip(ph - 1);
            assert(q[0] == hash_seg());
            assert(q.drop_first() =~= p.skip(ph));
        },
    }
}

/// The current attempt fails: with no `#` to fall back on the answer is
/// `false`; otherwise the answer is that of letting the `#` absorb one more
/// subject segment, if there is one.
proof fn lemma_walk_mismatch(
    mode: CoverMode,
    p: Seq<Seq<char>>,
    s: Seq<Seq<char>>,
    pi: int,
    si: int,
    resume: Option<(int, int)>,
)
    requires
        walk_inv(mode, p, s, pi, si, resume),
        !(pi < p.len() && p[pi] == hash_seg()),
        !(pi < p.len() && si < s.len() && covers(mode, p[pi], s[si])),
        !(pi == p.len() && si == s.len()),
    ensures
        match resume {
            None => !seg_match(mode, p, s),
            Some((ph, sh)) => if sh < s.len() {
                walk_inv(mode, p, s, ph, sh + 1, Some((ph, sh + 1)))
            } else {
                !seg_match(mode, p, s)
            },
        },
{
    if pi < p.len() {
        assert(p.skip(pi)[0] == p[pi]);
    }
    if si < s.len() {
        assert(s.skip(si)[0] == s[si]);
    }
    assert(!seg_match(mode, p.skip(pi), s.skip(si)));
    match resume {
        None => {},
        Some((ph, sh)) => {
            lemma_literal_run(mode, p, s, ph, sh, pi - ph);
            let q = p.skip(ph - 1);
            assert(q[0] == hash_seg());
            assert(q.drop_first() =~= p.skip(ph));
            if sh < s.len() {
                assert(s.skip(sh).drop_first() =~= s.skip(sh + 1));
            }
        },
    }
}

pub open spec fn resume_view(r: Option<(usize, usize)>) -> Option<(int, int)> {
    match r {
        None => None,
        Some((a, b)) => Some((a as int, b as int)),
    }
}

/// The segment walk shared by [`topic_matches`] and [`pattern_contains`].
///
/// `#` absorbs zero or more subject segments and the pattern continues after
/// it. Only the most recent `#` is kept as a backtrack point, which bounds the
/// walk at `O(|pattern| · |subject|)` steps.
pub fn match_segments(pattern: &Vec<Vec<char>>, subject: &Vec<Vec<char>>, mode: CoverMode) -> (r:
    bool)
    ensures
        r == seg_match(
            mode,
            pattern@.map_values(|v: Vec<char>| v@),
            subject@.map_values(|v: Vec<char>| v@),
        ),
{
    let ghost p = pattern@.map_values(|v: Vec<char>| v@);
    let ghost s = subject@.map_values(|v: Vec<char>| v@);
    assert(p.skip(0) =~= p);
    assert(s.skip(0) =~= s);
    let mut pi: usize = 0;
    let mut si: usize = 0;
    // (pattern index just after the latest `#`, subject index it absorbs up to)
    let mut resume: Option<(usize, usize)> = None;
    loop
        invariant
            p == pattern@.map_values(|v: Vec<char>| v@),
            s == subject@.map_values(|v: Vec<char>| v@),
            walk_inv(mode, p, s, pi as int, si as int, resume_view(resume)),
        decreases s.len() - match resume {
            None => 0usize,
            Some((_, sh)) => sh,
        }, p.len() - pi,
    {
        let p_hash = pi < pattern.len() && is_single(&pattern[pi], '#');
        if p_hash {
            proof {
                lemma_walk_hash(mode, p, s, pi as int, si as int, resume_view(resume));
            }
            resume = Some((pi + 1, si));
            pi = pi + 1;
        } else if pi < pattern.len() && si < subject.len() && seg_covers(
            &mode,
            &pattern[pi],
            &subject[si],
        ) {
            proof {
                lemma_walk_cover(mode, p, s, pi as int, si as int, resume_view(resume));
            }
            pi = pi + 1;
            si = si + 1;
        } else if pi == pattern.len() && si == subject.len() {
            proof {
                lemma_walk_done(mode, p, s, pi as int, si as int, resume_view(resume));
            }
            return true;
        } else {
            proof {
                lemma_walk_mismatch(mode, p, s, pi as int, si as int, resume_view(resume));
            }
            match resume {
                None => {
                    return false;
                },
                Some((ph, sh)) => {
                    if sh >= subject.len() {
                        return false;
                    }
                    pi = ph;
                    si = sh + 1;
                    resume = Some((ph, sh + 1));
                },
            }
        }
    }
}

/// Returns `true` if `topic` matches `pattern`.
///
/// | Pattern  | Semantics                               |
/// |----------|-----------------------------------------|
/// | `#`      | Multi-level wildcard (all topics)       |
/// | `a.#`    | `a` and everything under `a.`           |
/// | `a.#.c`  | `a.c` and any `c` at any depth under it |
/// | `a.*.c`  | Single-level wildcard in segment        |
/// | `a.b.c`  | Exact match                             |
pub fn topic_matches(pattern: &str, topic: &str) -> (r: bool)
    ensures
        r == topic_match_spec(pattern@, topic@),
{
    let p = chars_of(pattern);
    let t = chars_of(topic);
    // Fast path: exact match.
    if chars_eq(&p, &t) {
        proof {
            lemma_match_reflexive(segments(p@));
        }
        return true;
    }
    // Multi-level wildcard: `#` matches everything.
    if is_single(&p, '#') {
        proof {
            lemma_split_no_dot(p@, Seq::empty());
            assert(Seq::<char>::empty() + p@ =~= hash_seg());
            lemma_lone_hash(CoverMode::Topic, segments(t@));
        }
        return true;
    }
    // `prefix.#` with a literal prefix: everything under the prefix, decided
    // without splitting.
    let n = p.len();
    if n >= 2 && p[n - 2] == '.' && p[n - 1] == '#' {
        let mut prefix: Vec<char> = Vec::new();
        let mut i: usize = 0;
        while i < n - 2
            invariant
                i <= n - 2,
                n == p.len(),
                n >= 2,
                prefix@ == p@.take(i as int),
            decreases n - 2 - i,
        {
            prefix.push(p[i]);
            i = i + 1;
        }
        if !contains_char(&prefix, '*') && !contains_char(&prefix, '#') {
            let m = prefix.len();
            let mut starts = t.len() >= m;
            let mut j: usize = 0;
            while starts && j < m
                invariant
                    j <= m,
                    m == prefix.len(),
                    starts ==> t.len() >= m,
                    starts ==> forall|k: int| 0 <= k < j ==> t@[k] == prefix@[k],
                    !starts ==> !(t@.len() >= m && t@.take(m as int) == prefix@),
                decreases m - j,
            {
                if t[j] != prefix[j] {
                    starts = false;
                    proof {
                        if t@.len() >= m && t@.take(m as int) == prefix@ {
                            assert(t@.take(m as int)[j as int] == t@[j as int]);
                        }
                    }
                }
                j = j + 1;
            }
            let r = starts && (t.len() == m || t[m] == '.');
            proof {
                if starts {
                    assert(t@.take(m as int) =~= prefix@);
                }
                assert(p@ =~= prefix@ + seq!['.', '#']);
                lemma_prefix_hash_fast_path(p@, prefix@, t@);
            }
            return r;
        }
    }
    let ps = split_segments(&p);
    let ts = split_segments(&t);
    match_segments(&ps, &ts, CoverMode::Topic)
}

/// The `prefix.#` fast path of [`topic_matches`] gives the same answer as the
/// segment walk whenever the prefix holds no wildcard.
pub proof fn lemma_prefix_hash_fast_path(pattern: Seq<char>, prefix: Seq<char>, topic: Seq<char>)
    requires
        pattern == prefix + seq!['.', '#'],
        !prefix.contains('*'),
        !prefix.contains('#'),
    ensures
        topic_match_spec(pattern, topic) == (topic.len() >= prefix.len() && topic.take(
            prefix.len() as int,
        ) == prefix && (topic.len() == prefix.len() || topic[prefix.len() as int] == '.')),
{
    lemma_literal_prefix_segments(pattern, prefix);
    let lits = segments(prefix);
    let ts = segments(topic);
    lemma_literals_then_hash(lits, ts);
    lemma_segment_prefix_iff(prefix, topic);
}

/// The segments of `prefix.#` are the (wildcard-free) segments of `prefix`
/// followed by `#`.
proof fn lemma_literal_prefix_segments(pattern: Seq<char>, prefix: Seq<char>)
    requires
        pattern == prefix + seq!['.', '#'],
        !prefix.contains('*'),
        !prefix.contains('#'),
    ensures
        segments(pattern) == segments(prefix) + seq![hash_seg()],
        forall|k: int|
            0 <= k < segments(prefix).len() ==> segments(prefix)[k] != hash_seg() && segments(
                prefix,
            )[k] != star_seg(),
{
    let lits = segments(prefix);
    assert(pattern =~= prefix + seq!['.'] + seq!['#']);
    lemma_split_concat(prefix, seq!['#'], Seq::empty());
    assert(!seq!['#'].contains('.')) by {
        if seq!['#'].contains('.') {
            let j = choose|j: int| 0 <= j < seq!['#'].len() && seq!['#'][j] == '.';
            assert(seq!['#'][0] == '#');
        }
    }
    lemma_split_no_dot(seq!['#'], Seq::empty());
    assert(Seq::<char>::empty() + seq!['#'] =~= hash_seg());
    assert(segments(seq!['#']) =~= seq![hash_seg()]);
    lemma_split_avoids(prefix, Seq::empty(), '*');
    lemma_split_avoids(prefix, Seq::empty(), '#');
    assert forall|k: int| 0 <= k < lits.len() implies lits[k] != hash_seg() && lits[k]
        != star_seg() by {
        lemma_avoid_not_single(lits[k], '#');
        lemma_avoid_not_single(lits[k], '*');
    }
}

/// The segments of `topic` start with those of `prefix` exactly when `topic`
/// is `prefix`, or `prefix` followed by a dot and more.
proof fn lemma_segment_prefix_iff(prefix: Seq<char>, topic: Seq<char>)
    ensures
        (segments(prefix).len() <= segments(topic).len() && segments(topic).take(
            segments(prefix).len() as int,
        ) == segments(prefix)) == (topic.len() >= prefix.len() && topic.take(prefix.len() as int)
            == prefix && (topic.len() == prefix.len() || topic[prefix.len() as int] == '.')),
{
    let lits = segments(prefix);
    let ts = segments(topic);
    lemma_split_from_nonempty(prefix, Seq::empty());
    lemma_join_split(prefix, Seq::empty());
    lemma_join_split(topic, Seq::empty());
    assert(Seq::<char>::empty() + prefix =~= prefix);
    assert(Seq::<char>::empty() + topic =~= topic);
    let fast = topic.len() >= prefix.len() && topic.take(prefix.len() as int) == prefix && (
    topic.len() == prefix.len() || topic[prefix.len() as int] == '.');
    if fast {
        if topic.len() == prefix.len() {
            assert(topic =~= prefix);
            assert(ts.take(lits.len() as int) =~= lits);
        } else {
            let rest = topic.skip(prefix.len() as int + 1);
            assert(topic =~= prefix + seq!['.'] + rest);
            lemma_split_concat(prefix, rest, Seq::empty());
            assert(ts.take(lits.len() as int) =~= lits);
        }
    }
    if lits.len() <= ts.len() && ts.take(lits.len() as int) == lits {
        let rest = ts.skip(lits.len() as int);
        assert(ts =~= lits + rest);
        if rest.len() == 0 {
            assert(ts =~= lits);
            assert(topic.take(prefix.len() as int) =~= prefix);
        } else {
            lemma_join_concat(lits, rest);
            assert(topic =~= prefix + seq!['.'] + join_dots(rest));
            assert(topic.take(prefix.len() as int) =~= prefix);
            assert(topic[prefix.len() as int] == '.');
        }
    }
}

/// Returns `true` if `pattern` contains a wildcard character — subscribing to
/// it means "match against the registry" rather than "resolve one key".
pub fn is_wildcard(pattern: &str) -> (r: bool)
    ensures
        r == is_wildcard_spec(pattern@),
{
    let p = chars_of(pattern);
    contains_char(&p, '#') || contains_char(&p, '*')
}

/// Returns `true` if every topic matched by `requested` is also matched by
/// `grant` (pattern containment, decided by one conservative left-to-right
/// walk: a grant `*` never covers a requested `#`).
pub fn pattern_contains(grant: &str, requested: &str) -> (r: bool)
    ensures
        r == contains_spec(grant@, requested@),
{
    let g = chars_of(grant);
    let q = chars_of(requested);
    let gs = split_segments(&g);
    let qs = split_segments(&q);
    match_segments(&gs, &qs, CoverMode::Containment)
}

/// For a concrete request (no wildcard character), containment is exactly
/// topic matching, so the containment check is a safe drop-in for an ACL that
/// accepts both concrete and wildcard requests.
pub proof fn law_contains_agrees_on_concrete_requests(grant: Seq<char>, requested: Seq<char>)
    requires
        !is_wildcard_spec(requested),
    ensures
        contains_spec(grant, requested) == topic_match_spec(grant, requested),
{
    let rs = segments(requested);
    lemma_split_avoids(requested, Seq::empty(), '#');
    assert forall|j: int| 0 <= j < rs.len() implies rs[j] != hash_seg() by {
        lemma_avoid_not_single(rs[j], '#');
    }
    lemma_modes_agree(segments(grant), rs);
}

/// Containment is sound: if `grant` contains `requested`, then every topic
/// that `requested` matches is matched by `grant` too. It never allows access
/// that should have been denied.
pub proof fn law_contains_is_sound(grant: Seq<char>, requested: Seq<char>, topic: Seq<char>)
    requires
        contains_spec(grant, requested),
        topic_match_spec(requested, topic),
    ensures
        topic_match_spec(grant, topic),
{
    lemma_contains_sound(segments(grant), segments(requested), segments(topic));
}

/// Every pattern matches itself as a topic, and `#` matches every topic.
pub proof fn law_reflexive_and_universal(pattern: Seq<char>, topic: Seq<char>)
    ensures
        topic_match_spec(pattern, pattern),
        topic_match_spec(seq!['#'], topic),
{
    lemma_match_reflexive(segments(pattern));
    lemma_split_no_dot(seq!['#'], Seq::empty());
    assert(Seq::<char>::empty() + seq!['#'] =~= hash_seg());
    lemma_lone_hash(CoverMode::Topic, segments(topic));
}

/// The rules of a topic pattern, segment by segment: an empty pattern
/// matches only an empty topic; `#` absorbs zero or more leading segments
/// and the rest of the pattern goes on after them; `*` matches exactly one
/// segment; any other segment matches only itself. Segments are split on
/// `.` alone, so `/` is an ordinary character.
pub proof fn law_segment_rules(p: Seq<Seq<char>>, s: Seq<Seq<char>>)
    ensures
        p.len() == 0 ==> (seg_match(CoverMode::Topic, p, s) <==> s.len() == 0),
        p.len() > 0 && p[0] == hash_seg() ==> (seg_match(CoverMode::Topic, p, s) <==> exists|k: int|
            0 <= k <= s.len() && #[trigger] seg_match(CoverMode::Topic, p.drop_first(), s.skip(k))),
        p.len() > 0 && p[0] != hash_seg() ==> (seg_match(CoverMode::Topic, p, s) <==> (s.len() > 0 && (p[0]
            == star_seg() || p[0] == s[0]) && seg_match(CoverMode::Topic, p.drop_first(), s.drop_first()))),
{
    if p.len() > 0 && p[0] == hash_seg() {
        assert(s.skip(0) =~= s);
        if seg_match(CoverMode::Topic, p, s) {
            let k = lemma_hash_witness(CoverMode::Topic, p, s, 0);
            assert(seg_match(CoverMode::Topic, p.drop_first(), s.skip(k)));
        }
        if exists|k: int| 0 <= k <= s.len() && #[trigger] seg_match(CoverMode::Topic, p.drop_first(), s.skip(k)) {
            let k = choose|k: int| 0 <= k <= s.len() && #[trigger] seg_match(CoverMode::Topic, p.drop_first(), s.skip(k));
            assert(seg_match(CoverMode::Topic, p, s.skip(k)));
            lemma_hash_absorbs(CoverMode::Topic, p, s, 0, k);
        }
    }
}

} // verus!
