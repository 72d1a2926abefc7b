//! Topic matching stated as the pattern rule it implements, segment by
//! segment.

use vstd::prelude::*;

use crate::segments::{hash_seg, segments, star_seg};
use crate::topic_match::{law_segment_rules, seg_match, topic_match_spec, CoverMode};

verus! {

/// The pattern rule written out: an empty pattern matches an empty topic;
/// `#` matches when the rest of the pattern matches what is left after
/// dropping some number of leading segments; any other pattern segment
/// matches one topic segment, `*` any and another only itself, and the rest
/// of the pattern must match the rest of the topic.
pub open spec fn pattern_rule(p: Seq<Seq<char>>, s: Seq<Seq<char>>) -> bool
    decreases p.len(), 1int,
{
    if p.len() == 0 {
        s.len() == 0
    } else if p[0] == hash_seg() {
        absorbs(p.drop_first(), s, 0)
    } else {
        s.len() > 0 && (p[0] == star_seg() || p[0] == s[0]) && pattern_rule(p.drop_first(), s.drop_first())
    }
}

/// The rest of the pattern, `ps`, matches `s` with `k` or more of its
/// leading segments dropped.
pub open spec fn absorbs(ps: Seq<Seq<char>>, s: Seq<Seq<char>>, k: int) -> bool
    decreases ps.len(), 2 + s.len() - k,
{
    if k < 0 || k > s.len() {
        false
    } else {
        pattern_rule(ps, s.skip(k)) || absorbs(ps, s, k + 1)
    }
}

/// `absorbs` is the existence of a number of dropped segments.
pub proof fn lemma_absorbs_exists(ps: Seq<Seq<char>>, s: Seq<Seq<char>>, k: int)
    requires
        0 <= k <= s.len() + 1,
    ensures
        absorbs(ps, s, k) <==> exists|j: int| k <= j <= s.len() && #[trigger] pattern_rule(ps, s.skip(j)),
    decreases s.len() + 1 - k,
{
    if k <= s.len() {
        lemma_absorbs_exists(ps, s, k + 1);
        assert(absorbs(ps, s, k) == (pattern_rule(ps, s.skip(k)) || absorbs(ps, s, k + 1)));
        if pattern_rule(ps, s.skip(k)) {
            assert(exists|j: int| k <= j <= s.len() && #[trigger] pattern_rule(ps, s.skip(j)));
        }
        if absorbs(ps, s, k + 1) {
            let j = choose|j: int| k + 1 <= j <= s.len() && #[trigger] pattern_rule(ps, s.skip(j));
            assert(exists|j2: int| k <= j2 <= s.len() && #[trigger] pattern_rule(ps, s.skip(j2)));
        }
        if exists|j: int| k <= j <= s.len() && #[trigger] pattern_rule(ps, s.skip(j)) {
            let j = choose|j: int| k <= j <= s.len() && #[trigger] pattern_rule(ps, s.skip(j));
            if j > k {
                assert(exists|j2: int| k + 1 <= j2 <= s.len() && #[trigger] pattern_rule(ps, s.skip(j2)));
            }
        }
    } else {
        assert(!absorbs(ps, s, k));
    }
}

/// Topic matching is the pattern rule over the `.`-separated segments of
/// the pattern and of the topic: `#` absorbs zero or more segments and the
/// pattern goes on after them, `*` matches exactly one, and `/` is an
/// ordinary character.
pub proof fn law_topic_match_is_the_pattern_rule(pattern: Seq<char>, topic: Seq<char>)
    ensures
        topic_match_spec(pattern, topic) == pattern_rule(segments(pattern), segments(topic)),
{
    lemma_walk_is_rule(segments(pattern), segments(topic));
}

proof fn lemma_walk_is_rule(p: Seq<Seq<char>>, s: Seq<Seq<char>>)
    ensures
        seg_match(CoverMode::Topic, p, s) == pattern_rule(p, s),
    decreases p.len(),
{
    law_segment_rules(p, s);
    if p.len() > 0 {
        if p[0] == hash_seg() {
            lemma_absorbs_exists(p.drop_first(), s, 0);
            assert forall|k: int| 0 <= k <= s.len() implies seg_match(CoverMode::Topic, p.drop_first(), s.skip(k))
                == pattern_rule(p.drop_first(), s.skip(k)) by {
                lemma_walk_is_rule(p.drop_first(), s.skip(k));
            }
            if seg_match(CoverMode::Topic, p, s) {
                let k = choose|k: int|
                    0 <= k <= s.len() && #[trigger] seg_match(CoverMode::Topic, p.drop_first(), s.skip(k));
                assert(pattern_rule(p.drop_first(), s.skip(k)));
            }
            if pattern_rule(p, s) {
                let k = choose|k: int| 0 <= k <= s.len() && #[trigger] pattern_rule(p.drop_first(), s.skip(k));
                assert(seg_match(CoverMode::Topic, p.drop_first(), s.skip(k)));
            }
        } else {
            lemma_walk_is_rule(p.drop_first(), s.drop_first());
        }
    }
}

} // verus!
