use aimdb::topic_match::{is_wildcard, pattern_contains, topic_matches};

#[test]
fn exact_match() {
    assert!(topic_matches("a.b.c", "a.b.c"));
    assert!(!topic_matches("a.b.c", "a.b.d"));
}

#[test]
fn hash_wildcard() {
    assert!(topic_matches("#", "anything.goes.here"));
    assert!(topic_matches("#", "a"));
}

#[test]
fn prefix_hash_wildcard() {
    assert!(topic_matches("sensors.#", "sensors.temperature.vienna"));
    assert!(topic_matches("sensors.#", "sensors.humidity.berlin"));
    assert!(!topic_matches("sensors.#", "commands.setpoint"));
    // Edge: prefix itself
    assert!(topic_matches("sensors.#", "sensors"));
    // A literal prefix is a whole segment — `sensors.#` must not swallow a
    // key that merely *starts with* the string "sensors".
    assert!(!topic_matches("sensors.#", "sensors_extra.temp"));
}

#[test]
fn star_wildcard() {
    assert!(topic_matches(
        "sensors.temperature.*",
        "sensors.temperature.vienna"
    ));
    assert!(topic_matches(
        "sensors.temperature.*",
        "sensors.temperature.berlin"
    ));
    assert!(!topic_matches(
        "sensors.temperature.*",
        "sensors.humidity.vienna"
    ));
    assert!(!topic_matches(
        "sensors.temperature.*",
        "sensors.temperature.a.b"
    ));
}

#[test]
fn star_matches_dotted_key_below_top_level() {
    // A single-segment-below wildcard must match a dot-separated key:
    // `temp.*` matches `temp.vienna`, not the old bug where `/`-splitting
    // compared the literals `"temp.*"` and `"temp.vienna"`.
    assert!(topic_matches("temp.*", "temp.vienna"));
    assert!(topic_matches("temp.*", "temp.berlin"));
    assert!(!topic_matches("temp.*", "temp"));
    assert!(!topic_matches("temp.*", "temp.vienna.indoor"));
    assert!(!topic_matches("temp.*", "humidity.vienna"));
}

#[test]
fn mixed_wildcards() {
    assert!(topic_matches("a.*.c.#", "a.b.c.d.e.f"));
    assert!(!topic_matches("a.*.c.#", "a.b.x.d"));
}

#[test]
fn non_terminal_hash_still_matches_its_suffix() {
    // Regression: `#` used to return `true` on sight, which made every
    // segment after it dead text — `a.#.secret` matched *anything* under
    // `a`. It absorbs zero or more segments and the suffix must still line up.
    assert!(!topic_matches("a.#.secret", "a.public"));
    assert!(!topic_matches("a.#.secret", "a.b.c.public"));
    assert!(!topic_matches("a.#.secret", "b.secret")); // prefix still binds
    assert!(!topic_matches("a.#.secret", "a.secret.tail"));
    // Zero-or-more: the `#` may absorb nothing, one segment, or many.
    assert!(topic_matches("a.#.secret", "a.secret"));
    assert!(topic_matches("a.#.secret", "a.b.secret"));
    assert!(topic_matches("a.#.secret", "a.b.c.d.secret"));
}

#[test]
fn hash_backtracks_to_find_a_later_suffix() {
    // The suffix appears twice: the `#` has to keep growing past the first
    // occurrence to line the pattern up on the last one.
    assert!(topic_matches("a.#.c", "a.c.b.c"));
    assert!(!topic_matches("a.#.c", "a.c.b.d"));
    // Several `#` in one pattern each need their own extension.
    assert!(topic_matches("a.#.b.#.c", "a.x.y.b.z.c"));
    assert!(!topic_matches("a.#.b.#.c", "a.x.y.b.z.d"));
    // A trailing `#` after an interior one still absorbs the remainder.
    assert!(topic_matches("a.#.b.#", "a.x.b.y.z"));
    assert!(topic_matches("a.#.b.#", "a.b")); // both absorb zero
    assert!(!topic_matches("a.#.b.#", "a.x.y"));
}

#[test]
fn hash_does_not_match_a_shorter_topic_than_its_suffix() {
    // `#` absorbing zero segments must not let the pattern outrun the topic.
    assert!(!topic_matches("a.#.b.c", "a.b"));
    assert!(!topic_matches("#.a", "b"));
    assert!(topic_matches("#.a", "a")); // leading `#` absorbs zero
    assert!(topic_matches("#.a", "x.y.a"));
}

#[test]
fn slash_is_not_a_separator() {
    // `/` is an ordinary character — a slash key is one literal segment, so a
    // dot wildcard doesn't reach into it and a slash "wildcard" isn't one.
    assert!(!topic_matches("sensors.#", "sensors/temp/vienna"));
    assert!(topic_matches("sensors/temp", "sensors/temp")); // exact still works
    assert!(!is_wildcard("sensors/temp")); // no `#`/`*` → literal
}

#[test]
fn wildcard_detection() {
    assert!(is_wildcard("#"));
    assert!(is_wildcard("sensors.#"));
    assert!(is_wildcard("a.*.c"));
    // Literal dotted keys are wildcards only when `#`/`*` appears.
    assert!(!is_wildcard("temp.vienna"));
    assert!(is_wildcard("temp.*"));
}

#[test]
fn containment_denies_wildcard_escalation() {
    // The bug this function exists to prevent: a one-level grant must not
    // cover an all-levels request just because `topic_matches` lets the
    // grant's `*` swallow the request's `#`.
    assert!(!pattern_contains("sensors.*", "sensors.#"));
    assert!(topic_matches("sensors.*", "sensors.#")); // the trap it avoids
                                                      // `*` also can't cover a deeper concrete request.
    assert!(!pattern_contains("sensors.*", "sensors.temp.vienna"));
}

#[test]
fn containment_allows_when_grant_is_broader_or_equal() {
    // `#` covers everything.
    assert!(pattern_contains("#", "sensors.#"));
    assert!(pattern_contains("#", "anything.deep.here"));
    // A grant `#` tail covers deeper requests and the prefix itself.
    assert!(pattern_contains("sensors.#", "sensors.temp.#"));
    assert!(pattern_contains("sensors.#", "sensors.*"));
    assert!(pattern_contains("sensors.#", "sensors.temp"));
    assert!(pattern_contains("sensors.#", "sensors")); // `a.#` contains `a`
                                                       // Equal patterns contain each other.
    assert!(pattern_contains("sensors.#", "sensors.#"));
    assert!(pattern_contains("a.*.c", "a.*.c"));
    // One-level grant covers one-level requests (literal or `*`).
    assert!(pattern_contains("sensors.*", "sensors.temp"));
    assert!(pattern_contains("sensors.*", "sensors.*"));
}

#[test]
fn containment_denies_out_of_scope_or_shallower() {
    // Different subtree.
    assert!(!pattern_contains("sensors.#", "commands.#"));
    assert!(!pattern_contains("sensors.temp", "sensors.humidity"));
    // A deeper grant does not cover a shallower request.
    assert!(!pattern_contains("a.b.c", "a.b"));
    // A literal grant is not widened by a `*`/`#` request.
    assert!(!pattern_contains("sensors.temp", "sensors.*"));
    assert!(!pattern_contains("sensors.temp", "sensors.#"));
}

#[test]
fn containment_honours_a_non_terminal_hash_in_the_grant() {
    // Regression: the grant's `#` used to return `true` on sight, so a grant
    // written to reach only `secret` leaves widened the ACL to the whole
    // subtree. The suffix after the `#` must still constrain the request.
    assert!(!pattern_contains("a.#.secret", "a.public"));
    assert!(!pattern_contains("a.#.secret", "a.b.public"));
    assert!(!pattern_contains("a.#.secret", "a.#")); // no escalation to the subtree
    assert!(!pattern_contains("a.#.secret", "a.*"));
    // What the grant genuinely covers stays covered.
    assert!(pattern_contains("a.#.secret", "a.secret"));
    assert!(pattern_contains("a.#.secret", "a.b.secret"));
    assert!(pattern_contains("a.#.secret", "a.#.secret"));
    assert!(pattern_contains("a.#.secret", "a.b.#.secret"));
}

#[test]
fn containment_denies_requests_reaching_past_an_interior_hash() {
    // A request `#` where the grant demands a concrete tail is unbounded and
    // must be denied — it would reach topics the grant's suffix excludes.
    assert!(!pattern_contains("a.#.b", "a.#"));
    assert!(!pattern_contains("a.#.b", "#"));
    assert!(!pattern_contains("a.#.b.c", "a.b"));
    // A `*` cannot stand in for a request `#`, before or after a grant `#`.
    assert!(!pattern_contains("a.#.*", "a.#"));
    assert!(pattern_contains("a.#.*", "a.b.c"));
    assert!(!pattern_contains("a.#.*", "a"));
}

#[test]
fn containment_is_conservative_where_a_grant_star_meets_a_request_hash() {
    // Pins the documented soundness/completeness trade-off so a future change
    // has to be deliberate. `a.*.#` genuinely contains `a.#.a` — every topic
    // the request admits has ≥2 segments, which is exactly what `*.#`
    // requires — but deciding that needs reasoning over every expansion of
    // the request's `#`, which this walk does not do. It denies instead.
    assert!(!pattern_contains("a.*.#", "a.#.a"));
    assert!(!pattern_contains("a.#.*", "a.b.#"));
    // The direction that matters: the denial is fail-closed, so no topic the
    // request admits is reachable in a way the grant would not have allowed.
    // (Sanity: the grant really is the broader pattern here.)
    for topic in ["a.a", "a.b.a", "a.b.c.a"] {
        assert!(topic_matches("a.#.a", topic));
        assert!(topic_matches("a.*.#", topic));
    }
    // Ordinary grants — no `*`/`#` adjacency — stay exact, not conservative.
    assert!(pattern_contains("a.#", "a.b.#"));
    assert!(pattern_contains("a.#.b", "a.x.b"));
    assert!(pattern_contains("a.*", "a.b"));
}

#[test]
fn containment_matches_topic_matches_on_concrete_requests() {
    // For a concrete (wildcard-free) request, containment must be exactly
    // `topic_matches` — the safe-drop-in property the ACL relies on.
    let grants = [
        "#",
        "sensors.#",
        "sensors.*",
        "sensors.temp",
        "*.temp",
        // Interior `#` — the shape that used to short-circuit both walks.
        "sensors.#.temp",
        "#.temp",
        "sensors.#.*",
        "a.#.b.#.c",
    ];
    let topics = [
        "sensors.temp",
        "sensors.temp.vienna",
        "sensors",
        "commands.on",
        "a.temp",
        "sensors.rack.temp",
        "sensors.rack.shelf.temp",
        "a.x.b.y.c",
        "a.b.c",
    ];
    for g in grants {
        for t in topics {
            assert_eq!(
                pattern_contains(g, t),
                topic_matches(g, t),
                "grant={g:?} topic={t:?}"
            );
        }
    }
}
