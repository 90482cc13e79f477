//! Mood organ: mechanical affect derived from operational friction.

use vstd::prelude::*;
use crate::sdk::{OrganArgs, arg_value, extract_arg};
use crate::text::{chars_of, dec, lines, parse_u64, parse_u64_str, push_dec, push_text, split_lines, string_from_chars};

verus! {

/// The friction count as the `u32` that the derivation reads (the count
/// is narrowed as `as u32` does).
pub open spec fn narrowed(friction_count: usize) -> u32 {
    (friction_count as int % 0x1_0000_0000) as u32
}

/// Twice the narrowed count, saturating at `u32::MAX`.
pub open spec fn doubled(n: u32) -> int {
    if 2 * n > u32::MAX { u32::MAX as int } else { 2 * n }
}

/// The load: twice the friction count (saturating) plus the cycles, of
/// which at most 4 count.
pub open spec fn mood_load(friction_count: usize, cycles: u32) -> int {
    doubled(narrowed(friction_count)) + if cycles < 4 { cycles as int } else { 4 }
}

/// Weight: light for a load up to 2, steady up to 6, heavy above.
pub open spec fn weight_of(load: int) -> Seq<char> {
    if load <= 2 {
        "light"@
    } else if load <= 6 {
        "steady"@
    } else {
        "heavy"@
    }
}

/// Posture: fresh with no friction (steady after 3 or more cycles),
/// steady for 1 or 2 frictions, restless for 3 to 5, agitated above.
pub open spec fn posture_of(n: u32, cycles: u32) -> Seq<char> {
    if n == 0 {
        if cycles >= 3 {
            "steady"@
        } else {
            "fresh"@
        }
    } else if n <= 2 {
        "steady"@
    } else if n <= 5 {
        "restless"@
    } else {
        "agitated"@
    }
}

/// Derive `(weight, posture)` from the friction count and the cycle count.
pub fn derive_mood(friction_count: usize, cycles: u32) -> (r: (String, String))
    requires
        mood_load(friction_count, cycles) <= u32::MAX,
    ensures
        r.0@ == weight_of(mood_load(friction_count, cycles)),
        r.1@ == posture_of(narrowed(friction_count), cycles),
        friction_count == 0 ==> r.0@ != "heavy"@,
        cycles >= 4 ==> r.0@ == weight_of(doubled(narrowed(friction_count)) + 4) && r.1@ == posture_of(
            narrowed(friction_count),
            4,
        ),
{
    proof {
        lemma_cycles_saturate(friction_count, cycles);
        assert(friction_count == 0 ==> narrowed(friction_count) == 0);
    }
    let n = friction_count as u32;
    assert(n == narrowed(friction_count)) by (bit_vector)
        requires
            n == friction_count as u32,
    ;
    let d = if n > u32::MAX / 2 { u32::MAX } else { n * 2 };
    let c = if cycles < 4 { cycles } else { 4 };
    let load = d + c;
    let weight = if load <= 2 {
        String::from_str("light")
    } else if load <= 6 {
        String::from_str("steady")
    } else {
        String::from_str("heavy")
    };
    let posture = if n == 0 {
        if cycles >= 3 {
            String::from_str("steady")
        } else {
            String::from_str("fresh")
        }
    } else if n <= 2 {
        String::from_str("steady")
    } else if n <= 5 {
        String::from_str("restless")
    } else {
        String::from_str("agitated")
    };
    (weight, posture)
}

/// The body of `memory/mood.md` for the given state and timestamp.
pub open spec fn mood_md_text(weight: Seq<char>, posture: Seq<char>, friction_recent: nat, cycles: nat, ts: nat) -> Seq<char> {
    "# mood\n\nweight: "@ + weight + "\nposture: "@ + posture + "\nfriction_since_last_boundary: "@
        + dec(friction_recent) + "\ncycles: "@ + dec(cycles) + "\nupdated_ts: "@ + dec(ts) + "\n"@
}

/// Render the body of `memory/mood.md`.
pub fn mood_md_body(weight: &str, posture: &str, friction_recent: u64, cycles: u32, ts: u64) -> (r: String)
    ensures
        r@ == mood_md_text(weight@, posture@, friction_recent as nat, cycles as nat, ts as nat),
{
    let mut out = String::new();
    push_text(&mut out, "# mood\n\nweight: ");
    push_text(&mut out, weight);
    push_text(&mut out, "\nposture: ");
    push_text(&mut out, posture);
    push_text(&mut out, "\nfriction_since_last_boundary: ");
    push_dec(&mut out, friction_recent);
    push_text(&mut out, "\ncycles: ");
    push_dec(&mut out, cycles as u64);
    push_text(&mut out, "\nupdated_ts: ");
    push_dec(&mut out, ts);
    push_text(&mut out, "\n");
    out
}

/// The grounding text of the `current_mood` sense.
pub open spec fn mood_grounding_text(weight: Seq<char>, posture: Seq<char>, recent: nat) -> Seq<char> {
    "--- mood (felt, not narrated) ---\nweight: "@ + weight + "\nposture: "@ + posture
        + "\nfriction_recent: "@ + dec(recent) + "\n"@
}

/// Render the grounding text of the `current_mood` sense.
pub fn mood_grounding(weight: &str, posture: &str, recent: u64) -> (r: String)
    ensures
        r@ == mood_grounding_text(weight@, posture@, recent as nat),
{
    let mut out = String::new();
    push_text(&mut out, "--- mood (felt, not narrated) ---\nweight: ");
    push_text(&mut out, weight);
    push_text(&mut out, "\nposture: ");
    push_text(&mut out, posture);
    push_text(&mut out, "\nfriction_recent: ");
    push_dec(&mut out, recent);
    push_text(&mut out, "\n");
    out
}


/// What `serde_json` reads as the unsigned integer field `key` of the JSON
/// text `raw`: `None` where the text is not JSON, has no such field, or
/// the field is not an unsigned integer that fits in 64 bits.
pub uninterp spec fn json_u64_field(raw: Seq<char>, key: Seq<char>) -> Option<u64>;

/// Wrapper for `serde_json::from_str` into a `Value`, followed by
/// `Value::get` and `Value::as_u64`; named `json_u64_field`.
#[verifier::external_body]
pub(crate) fn json_u64(raw: &str, key: &str) -> (r: Option<u64>)
    ensures
        r == json_u64_field(raw@, key@),
{
    match serde_json::from_str::<serde_json::Value>(raw) {
        Ok(v) => v.get(key).and_then(serde_json::Value::as_u64),
        Err(_) => None,
    }
}

/// How many log lines record a friction at or after `since`.
pub open spec fn friction_since(ls: Seq<Seq<char>>, since: u64) -> nat
    decreases ls.len(),
{
    if ls.len() == 0 {
        0
    } else {
        friction_since(ls.drop_last(), since) + (match json_u64_field(ls.last(), "ts"@) {
            Some(t) => if t >= since {
                1nat
            } else {
                0nat
            },
            None => 0nat,
        })
    }
}

/// Count the frictions a log records at or after `since`.
pub fn count_friction_in(content: &str, since: u64) -> (r: usize)
    ensures
        r == friction_since(lines(content@), since),
{
    let cs = chars_of(content);
    let ls = split_lines(cs.as_slice());
    let ghost lv = ls@.map_values(|l: Vec<char>| l@);
    let mut n: usize = 0;
    let mut i: usize = 0;
    while i < ls.len()
        invariant
            i <= ls@.len(),
            lv == ls@.map_values(|l: Vec<char>| l@),
            n == friction_since(lv.take(i as int), since),
            n <= i,
        decreases ls@.len() - i,
    {
        assert(lv.take(i + 1).drop_last() =~= lv.take(i as int));
        assert(lv.take(i + 1).last() == ls@[i as int]@);
        let line = string_from_chars(ls[i].as_slice());
        match json_u64(line.as_str(), "ts") {
            Some(t) => {
                if t >= since {
                    n = n + 1;
                }
            },
            None => {},
        }
        i = i + 1;
    }
    assert(lv.take(ls@.len() as int) =~= lv);
    n
}

/// A number argument read as `u64`, or `default`.
pub open spec fn u64_arg(a: crate::sdk::ArgsView, key: Seq<char>, default: u64) -> u64 {
    match arg_value(a, key) {
        Some(v) => match parse_u64(v) {
            Some(n) => n,
            None => default,
        },
        None => default,
    }
}

fn u64_arg_exec(args: &OrganArgs, key: &str, default: u64) -> (r: u64)
    ensures
        r == u64_arg(args@, key@, default),
{
    match extract_arg(args, key) {
        Some(v) => match parse_u64_str(v.as_str()) {
            Some(n) => n,
            None => default,
        },
        None => default,
    }
}

/// The window start of a status request: `since` when it is a number,
/// else fifteen minutes before `now`.
pub fn status_since(args: &OrganArgs, now: u64) -> (r: u64)
    ensures
        r == (match arg_value(args@, "since"@) {
            Some(v) => match parse_u64(v) {
                Some(n) => n,
                None => if now >= 900 {
                    (now - 900) as u64
                } else {
                    0
                },
            },
            None => if now >= 900 {
                (now - 900) as u64
            } else {
                0
            },
        }),
{
    let fallback = if now >= 900 { now - 900 } else { 0 };
    u64_arg_exec(args, "since", fallback)
}

/// The cycles of a status request: `cycles` when it is a number that fits
/// in 32 bits, else 1.
pub fn status_cycles(args: &OrganArgs) -> (r: u32)
    ensures
        r == (match arg_value(args@, "cycles"@) {
            Some(v) => match parse_u64(v) {
                Some(n) => if n <= u32::MAX {
                    n as u32
                } else {
                    1
                },
                None => 1,
            },
            None => 1,
        }),
{
    match extract_arg(args, "cycles") {
        Some(v) => match parse_u64_str(v.as_str()) {
            Some(n) => if n <= 0xFFFF_FFFF {
                n as u32
            } else {
                1
            },
            None => 1,
        },
        None => 1,
    }
}

/// The friction record of a request: its kind (default `tool_failed`) and
/// its detail (default `unspecified friction`) cut to 250 characters.
pub fn friction_entry(args: &OrganArgs) -> (r: (String, String))
    ensures
        r.0@ == (match arg_value(args@, "kind"@) {
            Some(k) => k,
            None => "tool_failed"@,
        }),
        r.1@ == ({
            let d = match arg_value(args@, "detail"@) {
                Some(x) => x,
                None => "unspecified friction"@,
            };
            d.take(if d.len() < 250 {
                d.len() as int
            } else {
                250
            })
        }),
{
    let kind = match extract_arg(args, "kind") {
        Some(k) => k,
        None => String::from_str("tool_failed"),
    };
    let detail = match extract_arg(args, "detail") {
        Some(d) => d,
        None => String::from_str("unspecified friction"),
    };
    let dc = chars_of(detail.as_str());
    let n: usize = if dc.len() < 250 { dc.len() } else { 250 };
    let cut = crate::text::slice_chars(dc.as_slice(), 0, n);
    assert(dc@.subrange(0, n as int) =~= detail@.take(n as int));
    (kind, string_from_chars(cut.as_slice()))
}

/// The cognitive-strain check: the request's threshold (3 when not given)
/// and window in seconds (600 when not given), and whether the count
/// reaches the threshold.
pub fn strain(args: &OrganArgs, count: u64) -> (r: (u64, u64, bool))
    ensures
        r.0 == u64_arg(args@, "threshold"@, 3),
        r.1 == u64_arg(args@, "window_seconds"@, 600),
        r.2 == (count >= r.0),
{
    let threshold = u64_arg_exec(args, "threshold", 3);
    let window = u64_arg_exec(args, "window_seconds", 600);
    (threshold, window, count >= threshold)
}


/// The rank of a weight: light, steady, heavy.
pub open spec fn weight_rank(w: Seq<char>) -> int {
    if w == "light"@ {
        0
    } else if w == "steady"@ {
        1
    } else {
        2
    }
}

/// The rank of a posture: fresh, steady, restless, agitated.
pub open spec fn posture_rank(p: Seq<char>) -> int {
    if p == "fresh"@ {
        0
    } else if p == "steady"@ {
        1
    } else if p == "restless"@ {
        2
    } else {
        3
    }
}

/// A heavier load never gives a lighter weight, and more friction never
/// gives a calmer posture.
pub proof fn lemma_mood_monotone(l1: int, l2: int, n1: u32, n2: u32, cycles: u32)
    requires
        l1 <= l2,
        n1 <= n2,
    ensures
        weight_rank(weight_of(l1)) <= weight_rank(weight_of(l2)),
        posture_rank(posture_of(n1, cycles)) <= posture_rank(posture_of(n2, cycles)),
{
    reveal_strlit("light");
    reveal_strlit("steady");
    reveal_strlit("heavy");
    reveal_strlit("fresh");
    reveal_strlit("restless");
    reveal_strlit("agitated");
    assert("light"@ != "steady"@ && "light"@ != "heavy"@ && "steady"@ != "heavy"@) by {
        assert("light"@[0] != "steady"@[0]);
        assert("light"@[0] != "heavy"@[0]);
        assert("steady"@[0] != "heavy"@[0]);
    }
    assert("fresh"@ != "steady"@ && "fresh"@ != "restless"@ && "fresh"@ != "agitated"@ && "steady"@
        != "restless"@ && "steady"@ != "agitated"@ && "restless"@ != "agitated"@) by {
        assert("fresh"@[0] != "steady"@[0]);
        assert("fresh"@[0] != "restless"@[0]);
        assert("fresh"@[0] != "agitated"@[0]);
        assert("steady"@[0] != "restless"@[0]);
        assert("steady"@[0] != "agitated"@[0]);
        assert("restless"@[0] != "agitated"@[0]);
    }
}

/// Cycles beyond four add no load: from four cycles on, the mood is the
/// one four cycles give; and without friction the weight is never heavy.
pub proof fn lemma_cycles_saturate(friction_count: usize, cycles: u32)
    ensures
        cycles >= 4 ==> mood_load(friction_count, cycles) == mood_load(friction_count, 4),
        cycles >= 4 ==> weight_of(mood_load(friction_count, cycles)) == weight_of(mood_load(friction_count, 4)),
        cycles >= 4 ==> posture_of(narrowed(friction_count), cycles) == posture_of(narrowed(friction_count), 4),
        mood_load(friction_count, cycles) <= doubled(narrowed(friction_count)) + 4,
        mood_load(friction_count, cycles) >= doubled(narrowed(friction_count)),
        narrowed(friction_count) == 0 ==> weight_of(mood_load(friction_count, cycles)) != "heavy"@,
{
    reveal_strlit("light");
    reveal_strlit("steady");
    reveal_strlit("heavy");
    assert("light"@[0] != "heavy"@[0]);
    assert("steady"@[0] != "heavy"@[0]);
}

/// More frictions within the same window never lower the count.
pub proof fn lemma_friction_count_bound(ls: Seq<Seq<char>>, since: u64)
    ensures
        friction_since(ls, since) <= ls.len(),
    decreases ls.len(),
{
    if ls.len() > 0 {
        lemma_friction_count_bound(ls.drop_last(), since);
    }
}

} // verus!
