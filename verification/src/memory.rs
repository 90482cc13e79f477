//! Memory organ: the keyword side of storing and recalling memories —
//! tokens, tags, match scores, tier rules and routing. Importance and
//! recency weights are real numbers and are applied where the scores are
//! ranked.

use vstd::prelude::*;
use crate::issues::alphanumeric;
use crate::issues::char_is_alphanumeric;
use crate::sdk::{ArgsView, OrganArgs, has_key, op_of, param_or};
use crate::text::{ascii_lower, chars_of, contains_sub, contains_text, lowercase, same_text, string_from_chars, to_ascii_lower, to_lower, trim, trim_chars};

verus! {

/// The runs of alphanumeric characters in `cur + rest`, where `cur` is the
/// run being read.
pub open spec fn alnum_runs(cur: Seq<char>, rest: Seq<char>) -> Seq<Seq<char>>
    decreases rest.len(),
{
    if rest.len() == 0 {
        if cur.len() > 0 {
            seq![cur]
        } else {
            Seq::empty()
        }
    } else if !alphanumeric(rest[0]) {
        (if cur.len() > 0 {
            seq![cur]
        } else {
            Seq::empty()
        }) + alnum_runs(Seq::empty(), rest.drop_first())
    } else {
        alnum_runs(cur.push(rest[0]), rest.drop_first())
    }
}

/// The search tokens of a text: its alphanumeric runs, lowercased.
pub open spec fn tokens(s: Seq<char>) -> Seq<Seq<char>> {
    alnum_runs(Seq::empty(), s).map_values(|w: Seq<char>| lowercase(w))
}

pub open spec fn texts(v: Seq<String>) -> Seq<Seq<char>> {
    v.map_values(|s: String| s@)
}

/// Split a text into its search tokens.
pub fn tokenize(text: &str) -> (r: Vec<String>)
    ensures
        texts(r@) == tokens(text@),
{
    let cs = chars_of(text);
    let mut runs: Vec<Vec<char>> = Vec::new();
    let mut cur: Vec<char> = Vec::new();
    let mut i: usize = 0;
    assert(cs@.skip(0) =~= cs@);
    while i < cs.len()
        invariant
            i <= cs@.len(),
            cs@ == text@,
            alnum_runs(Seq::empty(), text@) == runs@.map_values(|w: Vec<char>| w@) + alnum_runs(
                cur@,
                cs@.skip(i as int),
            ),
        decreases cs@.len() - i,
    {
        let ghost before = runs@.map_values(|w: Vec<char>| w@);
        assert(cs@.skip(i as int).drop_first() =~= cs@.skip(i + 1));
        let c = cs[i];
        if !char_is_alphanumeric(c) {
            if cur.len() > 0 {
                let ghost oc = cur@;
                runs.push(cur);
                cur = Vec::new();
                assert(runs@.map_values(|w: Vec<char>| w@) =~= before + seq![oc]);
            } else {
                assert(before + Seq::<Seq<char>>::empty() =~= before);
            }
            assert(cur@ =~= Seq::<char>::empty());
        } else {
            cur.push(c);
        }
        i = i + 1;
    }
    if cur.len() > 0 {
        runs.push(cur);
    }
    let ghost all = runs@.map_values(|w: Vec<char>| w@);
    assert(all =~= alnum_runs(Seq::empty(), text@));
    let mut out: Vec<String> = Vec::new();
    let mut k: usize = 0;
    while k < runs.len()
        invariant
            k <= runs@.len(),
            all == runs@.map_values(|w: Vec<char>| w@),
            texts(out@) == all.map_values(|w: Seq<char>| lowercase(w)).take(k as int),
        decreases runs@.len() - k,
    {
        let ghost before = texts(out@);
        let w = string_from_chars(runs[k].as_slice());
        out.push(to_lower(w.as_str()));
        assert(texts(out@) =~= before.push(lowercase(all[k as int])));
        assert(all.map_values(|w: Seq<char>| lowercase(w)).take(k as int).push(lowercase(all[k as int]))
            =~= all.map_values(|w: Seq<char>| lowercase(w)).take(k + 1));
        k = k + 1;
    }
    assert(all.map_values(|w: Seq<char>| lowercase(w)).take(runs@.len() as int) =~= all.map_values(
        |w: Seq<char>| lowercase(w),
    ));
    out
}

/// A tag separator.
pub open spec fn is_tag_sep(c: char) -> bool {
    c == ',' || c == ';' || c == ' '
}

/// The pieces of `cur + rest` between separators, empty ones included.
pub open spec fn tag_pieces(cur: Seq<char>, rest: Seq<char>) -> Seq<Seq<char>>
    decreases rest.len(),
{
    if rest.len() == 0 {
        seq![cur]
    } else if is_tag_sep(rest[0]) {
        seq![cur] + tag_pieces(Seq::empty(), rest.drop_first())
    } else {
        tag_pieces(cur.push(rest[0]), rest.drop_first())
    }
}

/// The tags that pieces give: each trimmed and lowercased, empty ones
/// dropped.
pub open spec fn clean_tags(ps: Seq<Seq<char>>) -> Seq<Seq<char>>
    decreases ps.len(),
{
    if ps.len() == 0 {
        Seq::empty()
    } else {
        let t = lowercase(trim(ps.last()));
        if t.len() > 0 {
            clean_tags(ps.drop_last()).push(t)
        } else {
            clean_tags(ps.drop_last())
        }
    }
}

/// What `serde_json` reads from a text as a list of strings, where it
/// reads one.
pub uninterp spec fn json_string_list(raw: Seq<char>) -> Option<Seq<Seq<char>>>;

/// Wrapper for `serde_json::from_str::<Vec<String>>`; what it reads is
/// named `json_string_list`.
#[verifier::external_body]
pub(crate) fn parse_string_list(raw: &str) -> (r: Option<Vec<String>>)
    ensures
        match r {
            Some(v) => json_string_list(raw@) == Some(texts(v@)),
            None => json_string_list(raw@) is None,
        },
{
    serde_json::from_str::<Vec<String>>(raw).ok()
}

/// The tags of a tag text: a JSON list where the text starts with `[` and
/// is one, else the pieces between commas, semicolons and spaces.
pub open spec fn tags_of(raw: Seq<char>) -> Seq<Seq<char>> {
    if raw.len() > 0 && raw[0] == '[' && json_string_list(raw) is Some {
        json_string_list(raw)->0
    } else {
        clean_tags(tag_pieces(Seq::empty(), raw))
    }
}

/// Read the tags of a tag text.
pub fn parse_tags(raw: &str) -> (r: Vec<String>)
    ensures
        texts(r@) == tags_of(raw@),
{
    let cs = chars_of(raw);
    if cs.len() > 0 && cs[0] == '[' {
        match parse_string_list(raw) {
            Some(v) => return v,
            None => {},
        }
    }
    let mut pieces: Vec<Vec<char>> = Vec::new();
    let mut cur: Vec<char> = Vec::new();
    let mut i: usize = 0;
    assert(cs@.skip(0) =~= cs@);
    while i < cs.len()
        invariant
            i <= cs@.len(),
            cs@ == raw@,
            tag_pieces(Seq::empty(), raw@) == pieces@.map_values(|w: Vec<char>| w@) + tag_pieces(
                cur@,
                cs@.skip(i as int),
            ),
        decreases cs@.len() - i,
    {
        let ghost before = pieces@.map_values(|w: Vec<char>| w@);
        assert(cs@.skip(i as int).drop_first() =~= cs@.skip(i + 1));
        let c = cs[i];
        if c == ',' || c == ';' || c == ' ' {
            let ghost oc = cur@;
            pieces.push(cur);
            cur = Vec::new();
            assert(pieces@.map_values(|w: Vec<char>| w@) =~= before + seq![oc]);
            assert(cur@ =~= Seq::<char>::empty());
        } else {
            cur.push(c);
        }
        i = i + 1;
    }
    let ghost before = pieces@.map_values(|w: Vec<char>| w@);
    let ghost oc = cur@;
    pieces.push(cur);
    assert(pieces@.map_values(|w: Vec<char>| w@) =~= before + seq![oc]);
    let ghost all = pieces@.map_values(|w: Vec<char>| w@);
    assert(all == tag_pieces(Seq::empty(), raw@));
    let mut out: Vec<String> = Vec::new();
    let mut k: usize = 0;
    while k < pieces.len()
        invariant
            k <= pieces@.len(),
            all == pieces@.map_values(|w: Vec<char>| w@),
            texts(out@) == clean_tags(all.take(k as int)),
        decreases pieces@.len() - k,
    {
        assert(all.take(k + 1).drop_last() =~= all.take(k as int));
        assert(all.take(k + 1).last() == all[k as int]);
        let t = trim_chars(pieces[k].as_slice());
        let ts = string_from_chars(t.as_slice());
        let l = to_lower(ts.as_str());
        if chars_of(l.as_str()).len() > 0 {
            let ghost before = texts(out@);
            let ghost lv = l@;
            out.push(l);
            assert(texts(out@) =~= before.push(lv));
        }
        k = k + 1;
    }
    assert(all.take(pieces@.len() as int) =~= all);
    out
}

/// How many of `items` contain `q`.
pub open spec fn count_containing(items: Seq<Seq<char>>, q: Seq<char>) -> nat
    decreases items.len(),
{
    if items.len() == 0 {
        0
    } else {
        count_containing(items.drop_last(), q) + (if contains_sub(items.last(), q) {
            1nat
        } else {
            0nat
        })
    }
}

/// The keyword score of a memory for query tokens `qs`: for each token,
/// three per key token, one per content token and two per tag that
/// contains it; 1 when the query has no tokens.
pub open spec fn match_score(qs: Seq<Seq<char>>, key: Seq<Seq<char>>, content: Seq<Seq<char>>, tags: Seq<Seq<char>>) -> nat
    decreases qs.len(),
{
    if qs.len() == 0 {
        0
    } else {
        match_score(qs.drop_last(), key, content, tags) + 3 * count_containing(key, qs.last())
            + count_containing(content, qs.last()) + 2 * count_containing(tags, qs.last())
    }
}

/// The keyword score, or 1 for a query without tokens.
pub open spec fn keyword_score(qs: Seq<Seq<char>>, key: Seq<Seq<char>>, content: Seq<Seq<char>>, tags: Seq<Seq<char>>) -> nat {
    if qs.len() == 0 {
        1
    } else {
        match_score(qs, key, content, tags)
    }
}

fn count_in(items: &Vec<String>, q: &str) -> (r: usize)
    ensures
        r == count_containing(texts(items@), q@),
{
    let mut n: usize = 0;
    let mut i: usize = 0;
    while i < items.len()
        invariant
            i <= items@.len(),
            n == count_containing(texts(items@).take(i as int), q@),
            n <= i,
        decreases items@.len() - i,
    {
        assert(texts(items@).take(i + 1).drop_last() =~= texts(items@).take(i as int));
        assert(texts(items@).take(i + 1).last() == items@[i as int]@);
        if contains_text(items[i].as_str(), q) {
            n = n + 1;
        }
        i = i + 1;
    }
    assert(texts(items@).take(items@.len() as int) =~= texts(items@));
    n
}

/// How many of the query tokens an item contains, counted with repeats.
pub open spec fn tokens_found(qs: Seq<Seq<char>>, item: Seq<char>) -> nat
    decreases qs.len(),
{
    if qs.len() == 0 {
        0
    } else {
        tokens_found(qs.drop_last(), item) + if contains_sub(item, qs.last()) {
            1nat
        } else {
            0nat
        }
    }
}

/// Tags count in the score: for a query with tokens, one more tag raises
/// the score by 2 for each query token it contains.
pub proof fn lemma_tag_raises_score(
    qs: Seq<Seq<char>>,
    key: Seq<Seq<char>>,
    content: Seq<Seq<char>>,
    tags: Seq<Seq<char>>,
    t: Seq<char>,
)
    requires
        qs.len() > 0,
    ensures
        keyword_score(qs, key, content, tags.push(t)) == keyword_score(qs, key, content, tags) + 2 * tokens_found(qs, t),
{
    lemma_tag_match_score(qs, key, content, tags, t);
}

proof fn lemma_tag_match_score(
    qs: Seq<Seq<char>>,
    key: Seq<Seq<char>>,
    content: Seq<Seq<char>>,
    tags: Seq<Seq<char>>,
    t: Seq<char>,
)
    ensures
        match_score(qs, key, content, tags.push(t)) == match_score(qs, key, content, tags) + 2 * tokens_found(qs, t),
    decreases qs.len(),
{
    if qs.len() > 0 {
        lemma_tag_match_score(qs.drop_last(), key, content, tags, t);
        assert(tags.push(t).drop_last() =~= tags);
    }
}

/// The weights of the score: one more key word raises it by 3, one more
/// content word by 1, for each query token it contains.
pub proof fn lemma_key_content_weights(
    qs: Seq<Seq<char>>,
    key: Seq<Seq<char>>,
    content: Seq<Seq<char>>,
    tags: Seq<Seq<char>>,
    w: Seq<char>,
)
    ensures
        match_score(qs, key.push(w), content, tags) == match_score(qs, key, content, tags) + 3 * tokens_found(qs, w),
        match_score(qs, key, content.push(w), tags) == match_score(qs, key, content, tags) + tokens_found(qs, w),
    decreases qs.len(),
{
    if qs.len() > 0 {
        lemma_key_content_weights(qs.drop_last(), key, content, tags, w);
        assert(key.push(w).drop_last() =~= key);
        assert(content.push(w).drop_last() =~= content);
    }
}

/// Key, content and tags each count for every query token: the score is
/// at least 3 per key, 1 per content word and 2 per tag that contains any
/// one of the tokens.
pub proof fn lemma_token_counts(
    qs: Seq<Seq<char>>,
    key: Seq<Seq<char>>,
    content: Seq<Seq<char>>,
    tags: Seq<Seq<char>>,
    i: int,
)
    requires
        0 <= i < qs.len(),
    ensures
        match_score(qs, key, content, tags) >= 3 * count_containing(key, qs[i]) + count_containing(content, qs[i]) + 2
            * count_containing(tags, qs[i]),
    decreases qs.len(),
{
    if i < qs.len() - 1 {
        lemma_token_counts(qs.drop_last(), key, content, tags, i);
    }
}

/// An item containing a text is counted for it.
proof fn lemma_counted(items: Seq<Seq<char>>, q: Seq<char>, j: int)
    requires
        0 <= j < items.len(),
        contains_sub(items[j], q),
    ensures
        count_containing(items, q) >= 1,
    decreases items.len(),
{
    if j < items.len() - 1 {
        lemma_counted(items.drop_last(), q, j);
    }
}

/// A memory with a tag equal to one of the query's tokens always scores
/// above zero, so it is never dropped from a recall for want of a match.
pub proof fn lemma_tag_match_positive(
    qs: Seq<Seq<char>>,
    key: Seq<Seq<char>>,
    content: Seq<Seq<char>>,
    tags: Seq<Seq<char>>,
    i: int,
    j: int,
)
    requires
        0 <= i < qs.len(),
        0 <= j < tags.len(),
        tags[j] == qs[i],
    ensures
        keyword_score(qs, key, content, tags) >= 2,
{
    assert(qs[i].skip(0) =~= qs[i]);
    crate::text::lemma_contains_at(qs[i], qs[i], 0);
    lemma_counted(tags, qs[i], j);
    lemma_token_counts(qs, key, content, tags, i);
}

/// A score held at the largest `u128`, should it ever exceed it.
pub open spec fn capped(n: nat) -> int {
    if n > u128::MAX {
        u128::MAX as int
    } else {
        n as int
    }
}

/// The keyword score of a memory for the query tokens (held at the
/// largest `u128`, which no real memory comes near).
pub fn keyword_match_score(qs: &Vec<String>, key: &Vec<String>, content: &Vec<String>, tags: &Vec<String>) -> (r: u128)
    ensures
        r == capped(keyword_score(texts(qs@), texts(key@), texts(content@), texts(tags@))),
        forall|i: int, j: int|
            0 <= i < qs@.len() && 0 <= j < tags@.len() && #[trigger] tags@[j]@ == #[trigger] qs@[i]@ ==> r >= 2,
{
    proof {
        assert forall|i: int, j: int|
            0 <= i < qs@.len() && 0 <= j < tags@.len() && #[trigger] tags@[j]@ == #[trigger] qs@[i]@ implies keyword_score(
            texts(qs@),
            texts(key@),
            texts(content@),
            texts(tags@),
        ) >= 2 by {
            lemma_tag_match_positive(texts(qs@), texts(key@), texts(content@), texts(tags@), i, j);
        }
    }
    if qs.len() == 0 {
        return 1;
    }
    let mut total: u128 = 0;
    let mut i: usize = 0;
    while i < qs.len()
        invariant
            i <= qs@.len(),
            total == capped(match_score(texts(qs@).take(i as int), texts(key@), texts(content@), texts(tags@))),
        decreases qs@.len() - i,
    {
        assert(texts(qs@).take(i + 1).drop_last() =~= texts(qs@).take(i as int));
        assert(texts(qs@).take(i + 1).last() == qs@[i as int]@);
        let q = qs[i].as_str();
        let a = count_in(key, q) as u128;
        let b = count_in(content, q) as u128;
        let c = count_in(tags, q) as u128;
        let inc: u128 = 3 * a + b + 2 * c;
        if total > u128::MAX - inc {
            total = u128::MAX;
        } else {
            total = total + inc;
        }
        i = i + 1;
    }
    assert(texts(qs@).take(qs@.len() as int) =~= texts(qs@));
    total
}

/// The tier a memory is stored in: `tier2` when asked for (in any ASCII
/// case), else `tier1`.
pub fn tier_value(tier: &str) -> (r: &'static str)
    ensures
        r@ == (if ascii_lower(tier@) == ascii_lower("tier2"@) {
            "tier2"@
        } else {
            "tier1"@
        }),
{
    let t = to_ascii_lower(tier);
    let w = to_ascii_lower("tier2");
    if t == w {
        "tier2"
    } else {
        "tier1"
    }
}

/// Whether a memory of tier `tier` passes the tier filter: an empty filter
/// or `all` passes everything, else the tiers must be equal ignoring
/// ASCII case.
pub fn tier_selected(tier: &str, filter: &str) -> (r: bool)
    ensures
        r == (filter@.len() == 0 || ascii_lower(filter@) == ascii_lower("all"@) || ascii_lower(tier@)
            == ascii_lower(filter@)),
{
    if chars_of(filter).len() == 0 {
        return true;
    }
    let f = to_ascii_lower(filter);
    let all = to_ascii_lower("all");
    if f == all {
        return true;
    }
    let t = to_ascii_lower(tier);
    t == f
}

/// Whether a memory's tags pass the tag filter: an empty filter passes
/// everything, else some filter tag must be one of the memory's tags.
pub fn tags_selected(tags: &Vec<String>, filter: &Vec<String>) -> (r: bool)
    ensures
        r == (filter@.len() == 0 || exists|i: int, j: int|
            0 <= i < filter@.len() && 0 <= j < tags@.len() && #[trigger] filter@[i]@ == #[trigger] tags@[j]@),
{
    if filter.len() == 0 {
        return true;
    }
    let mut i: usize = 0;
    while i < filter.len()
        invariant
            i <= filter@.len(),
            forall|a: int, b: int| 0 <= a < i && 0 <= b < tags@.len() ==> #[trigger] filter@[a]@ != #[trigger] tags@[b]@,
        decreases filter@.len() - i,
    {
        let mut j: usize = 0;
        while j < tags.len()
            invariant
                i < filter@.len(),
                j <= tags@.len(),
                forall|a: int, b: int| 0 <= a < i && 0 <= b < tags@.len() ==> #[trigger] filter@[a]@ != #[trigger] tags@[b]@,
                forall|b: int| 0 <= b < j ==> filter@[i as int]@ != #[trigger] tags@[b]@,
            decreases tags@.len() - j,
        {
            if same_text(filter[i].as_str(), tags[j].as_str()) {
                return true;
            }
            j = j + 1;
        }
        i = i + 1;
    }
    false
}

/// Add the new tags that a memory does not have yet, in order.
pub open spec fn merged_tags(have: Seq<Seq<char>>, new: Seq<Seq<char>>) -> Seq<Seq<char>>
    decreases new.len(),
{
    if new.len() == 0 {
        have
    } else {
        let h = merged_tags(have, new.drop_last());
        if h.contains(new.last()) {
            h
        } else {
            h.push(new.last())
        }
    }
}

/// Merge new tags into a memory's tags.
pub fn merge_tags(tags: &mut Vec<String>, new: &Vec<String>)
    ensures
        texts(final(tags)@) == merged_tags(texts(old(tags)@), texts(new@)),
{
    let ghost start = texts(tags@);
    let mut i: usize = 0;
    while i < new.len()
        invariant
            i <= new@.len(),
            texts(tags@) == merged_tags(start, texts(new@).take(i as int)),
        decreases new@.len() - i,
    {
        assert(texts(new@).take(i + 1).drop_last() =~= texts(new@).take(i as int));
        assert(texts(new@).take(i + 1).last() == new@[i as int]@);
        let mut found = false;
        let mut j: usize = 0;
        while j < tags.len()
            invariant
                j <= tags@.len(),
                found ==> texts(tags@).contains(new@[i as int]@),
                !found ==> forall|b: int| 0 <= b < j ==> texts(tags@)[b] != new@[i as int]@,
                i < new@.len(),
            decreases tags@.len() - j,
        {
            if same_text(tags[j].as_str(), new[i].as_str()) {
                assert(texts(tags@)[j as int] == new@[i as int]@);
                found = true;
            }
            j = j + 1;
        }
        if !found {
            let ghost before = texts(tags@);
            tags.push(String::from_str(new[i].as_str()));
            assert(texts(tags@) =~= before.push(new@[i as int]@));
        }
        i = i + 1;
    }
    assert(texts(new@).take(new@.len() as int) =~= texts(new@));
}

/// The position of the first memory whose key equals `key` ignoring ASCII
/// case.
pub fn find_key(keys: &Vec<String>, key: &str) -> (r: Option<usize>)
    ensures
        match r {
            Some(i) => i < keys@.len() && ascii_lower(keys@[i as int]@) == ascii_lower(key@) && forall|k: int|
                0 <= k < i ==> ascii_lower(#[trigger] keys@[k]@) != ascii_lower(key@),
            None => forall|k: int| 0 <= k < keys@.len() ==> ascii_lower(#[trigger] keys@[k]@) != ascii_lower(key@),
        },
{
    let want = to_ascii_lower(key);
    let mut i: usize = 0;
    while i < keys.len()
        invariant
            i <= keys@.len(),
            want@ == ascii_lower(key@),
            forall|k: int| 0 <= k < i ==> ascii_lower(#[trigger] keys@[k]@) != ascii_lower(key@),
        decreases keys@.len() - i,
    {
        let got = to_ascii_lower(keys[i].as_str());
        if got == want {
            return Some(i);
        }
        i = i + 1;
    }
    None
}

/// The key and content of a memory to store: both trimmed, and refused
/// when empty.
pub fn store_fields(key: &str, content: &str) -> (r: Result<(String, String), String>)
    ensures
        trim(key@).len() == 0 ==> (r matches Err(e) && e@ == "key cannot be empty"@),
        trim(key@).len() > 0 && trim(content@).len() == 0 ==> (r matches Err(e) && e@
            == "content cannot be empty"@),
        trim(key@).len() > 0 && trim(content@).len() > 0 ==> (r matches Ok(p) && p.0@ == trim(key@)
            && p.1@ == trim(content@)),
{
    let k = trim_chars(chars_of(key).as_slice());
    let c = trim_chars(chars_of(content).as_slice());
    if k.len() == 0 {
        return Err(String::from_str("key cannot be empty"));
    }
    if c.len() == 0 {
        return Err(String::from_str("content cannot be empty"));
    }
    Ok((string_from_chars(k.as_slice()), string_from_chars(c.as_slice())))
}

/// Whether consolidation promotes a memory: an episodic memory read at
/// least three times or of high importance.
pub fn promoted(tier: &str, access_count: u64, high_importance: bool) -> (r: bool)
    ensures
        r == (tier@ == "tier1"@ && (access_count >= 3 || high_importance)),
{
    same_text(tier, "tier1") && (access_count >= 3 || high_importance)
}

/// The number of episodic and semantic memories among the tiers: every
/// tier other than `tier2` counts as episodic.
pub open spec fn tier_count(tiers: Seq<Seq<char>>) -> (nat, nat)
    decreases tiers.len(),
{
    if tiers.len() == 0 {
        (0, 0)
    } else {
        let c = tier_count(tiers.drop_last());
        if tiers.last() == "tier2"@ {
            (c.0, c.1 + 1)
        } else {
            (c.0 + 1, c.1)
        }
    }
}

/// Count the episodic and semantic memories.
pub fn tier_counts(tiers: &Vec<String>) -> (r: (u64, u64))
    requires
        tiers@.len() <= u64::MAX,
    ensures
        (r.0 as nat, r.1 as nat) == tier_count(texts(tiers@)),
{
    let mut a: u64 = 0;
    let mut b: u64 = 0;
    let mut i: usize = 0;
    while i < tiers.len()
        invariant
            i <= tiers@.len() <= u64::MAX,
            (a as nat, b as nat) == tier_count(texts(tiers@).take(i as int)),
            a + b == i,
        decreases tiers@.len() - i,
    {
        assert(texts(tiers@).take(i + 1).drop_last() =~= texts(tiers@).take(i as int));
        assert(texts(tiers@).take(i + 1).last() == tiers@[i as int]@);
        if same_text(tiers[i].as_str(), "tier2") {
            b = b + 1;
        } else {
            a = a + 1;
        }
        i = i + 1;
    }
    assert(texts(tiers@).take(tiers@.len() as int) =~= texts(tiers@));
    (a, b)
}

/// How many memories a recall returns: the limit, but at least one.
pub fn recall_cap(limit: u64) -> (r: u64)
    ensures
        r == (if limit < 1 {
            1
        } else {
            limit
        }),
{
    if limit < 1 {
        1
    } else {
        limit
    }
}

/// The operations of the memory organ, with their arguments as given.
#[derive(Debug)]
pub enum MemoryOp {
    Store { key: String, content: String, tier: String, tags: String, importance: String },
    Recall { query: String, tier: String, tags: String, limit: u64 },
    Consolidate,
    Stats,
}

/// Which operation a request selects: store, recall, consolidate, stats.
pub open spec fn memory_choice(a: ArgsView) -> int {
    let op = lowercase(op_of(a));
    if op == "memory_store"@ || has_key(a, "store"@) || has_key(a, "memory_store"@) {
        0
    } else if op == "memory_recall"@ || has_key(a, "recall"@) || has_key(a, "memory_recall"@) || has_key(
        a,
        "query"@,
    ) {
        1
    } else if op == "memory_consolidate"@ || has_key(a, "consolidate"@) || has_key(a, "memory_consolidate"@) {
        2
    } else if op == "memory_stats"@ || has_key(a, "stats"@) || has_key(a, "sense"@) {
        3
    } else {
        4
    }
}

/// The message for a request that names no operation of the organ.
pub open spec fn memory_usage() -> Seq<char> {
    "unknown tool or sense operation for organ-memory. Available: memory_store, memory_recall, memory_consolidate, memory_stats"@
}

/// Route a request of the memory organ; a recall limit that is not a
/// number counts as 5.
pub fn memory_route(args: &OrganArgs) -> (r: Result<MemoryOp, String>)
    ensures
        memory_choice(args@) == 0 ==> (r matches Ok(MemoryOp::Store { key, content, tier, tags, importance })
            && key@ == param_or(args@, "key"@, ""@) && content@ == param_or(
            args@,
            "content"@,
            param_or(args@, "value"@, ""@),
        ) && tier@ == param_or(args@, "tier"@, "tier1"@) && tags@ == param_or(args@, "tags"@, ""@)
            && importance@ == param_or(args@, "importance"@, "5.0"@)),
        memory_choice(args@) == 1 ==> (r matches Ok(MemoryOp::Recall { query, tier, tags, limit })
            && query@ == param_or(args@, "query"@, param_or(args@, "q"@, ""@)) && tier@ == param_or(
            args@,
            "tier"@,
            "all"@,
        ) && tags@ == param_or(args@, "tags"@, ""@) && limit == (match crate::text::parse_u64(
            param_or(args@, "limit"@, "5"@),
        ) {
            Some(n) => n,
            None => 5,
        })),
        memory_choice(args@) == 2 ==> r matches Ok(MemoryOp::Consolidate),
        memory_choice(args@) == 3 ==> r matches Ok(MemoryOp::Stats),
        memory_choice(args@) == 4 ==> (r matches Err(e) && e@ == memory_usage()),
{
    let op = to_lower(args.op());
    let o = op.as_str();
    if same_text(o, "memory_store") || args.has("store") || args.has("memory_store") {
        Ok(MemoryOp::Store {
            key: String::from_str(args.get_or("key", "")),
            content: String::from_str(args.get_or("content", args.get_or("value", ""))),
            tier: String::from_str(args.get_or("tier", "tier1")),
            tags: String::from_str(args.get_or("tags", "")),
            importance: String::from_str(args.get_or("importance", "5.0")),
        })
    } else if same_text(o, "memory_recall") || args.has("recall") || args.has("memory_recall") || args.has("query") {
        let limit = match crate::text::parse_u64_str(args.get_or("limit", "5")) {
            Some(n) => n,
            None => 5,
        };
        Ok(MemoryOp::Recall {
            query: String::from_str(args.get_or("query", args.get_or("q", ""))),
            tier: String::from_str(args.get_or("tier", "all")),
            tags: String::from_str(args.get_or("tags", "")),
            limit,
        })
    } else if same_text(o, "memory_consolidate") || args.has("consolidate") || args.has("memory_consolidate") {
        Ok(MemoryOp::Consolidate)
    } else if same_text(o, "memory_stats") || args.has("stats") || args.has("sense") {
        Ok(MemoryOp::Stats)
    } else {
        Err(String::from_str(
            "unknown tool or sense operation for organ-memory. Available: memory_store, memory_recall, memory_consolidate, memory_stats",
        ))
    }
}


/// Merging keeps every tag the memory had, adds every new tag, and adds
/// none twice: a memory without repeated tags keeps none.
pub proof fn lemma_merged_tags(have: Seq<Seq<char>>, new: Seq<Seq<char>>)
    ensures
        have.is_prefix_of(merged_tags(have, new)),
        forall|i: int| 0 <= i < new.len() ==> merged_tags(have, new).contains(#[trigger] new[i]),
        (forall|i: int, j: int| 0 <= i < j < have.len() ==> have[i] != have[j]) ==> (forall|i: int, j: int|
            0 <= i < j < merged_tags(have, new).len() ==> merged_tags(have, new)[i] != merged_tags(have, new)[j]),
    decreases new.len(),
{
    if new.len() == 0 {
        assert(have.take(have.len() as int) =~= have);
    } else {
        lemma_merged_tags(have, new.drop_last());
        let h = merged_tags(have, new.drop_last());
        let x = new.last();
        if !h.contains(x) {
            assert(h.push(x).take(have.len() as int) =~= h.take(have.len() as int));
            assert(h.push(x)[h.len() as int] == x);
            assert forall|i: int| 0 <= i < new.len() implies h.push(x).contains(#[trigger] new[i]) by {
                if i < new.len() - 1 {
                    assert(new.drop_last()[i] == new[i]);
                    let k = choose|k: int| 0 <= k < h.len() && h[k] == new[i];
                    assert(h.push(x)[k] == new[i]);
                } else {
                    assert(h.push(x)[h.len() as int] == new[i]);
                }
            }
        } else {
            assert forall|i: int| 0 <= i < new.len() implies h.contains(#[trigger] new[i]) by {
                if i < new.len() - 1 {
                    assert(new.drop_last()[i] == new[i]);
                }
            }
        }
    }
}

/// Every memory is counted once, in one tier.
pub proof fn lemma_tier_count_total(tiers: Seq<Seq<char>>)
    ensures
        tier_count(tiers).0 + tier_count(tiers).1 == tiers.len(),
    decreases tiers.len(),
{
    if tiers.len() > 0 {
        lemma_tier_count_total(tiers.drop_last());
    }
}

} // verus!
