//! State organ: snapshot names and labels, the pause protocol's card
//! update, choosing the snapshot to restore, and reading its command line.

use vstd::prelude::*;
use crate::agent_card::{update_agent_frontmatter, updated_card, updates_view};
use crate::issues::{alphanumeric, char_is_alphanumeric};
use crate::sdk::{OrganArgs, arg_value, extract_arg, opt_view};
use crate::shell::{byte_len, fit_count, utf8_width, char_width};
use crate::text::{chars_of, contains_sub, contains_text, dec, push_dec, push_text, same_text, string_from_chars, trim, trim_chars};

verus! {

/// A snapshot label made safe for a file name: spaces become underscores,
/// and only alphanumerics and underscores are kept.
pub open spec fn cleaned_label(s: Seq<char>) -> Seq<char>
    decreases s.len(),
{
    if s.len() == 0 {
        Seq::empty()
    } else {
        let c = if s.last() == ' ' {
            '_'
        } else {
            s.last()
        };
        let rest = cleaned_label(s.drop_last());
        if alphanumeric(c) || c == '_' {
            rest.push(c)
        } else {
            rest
        }
    }
}

/// Clean a snapshot label.
pub fn clean_label(label: &str) -> (r: String)
    ensures
        r@ == cleaned_label(label@),
{
    let cs = chars_of(label);
    let mut out: Vec<char> = Vec::new();
    let mut i: usize = 0;
    while i < cs.len()
        invariant
            i <= cs@.len(),
            cs@ == label@,
            out@ == cleaned_label(label@.take(i as int)),
        decreases cs@.len() - i,
    {
        assert(label@.take(i + 1).drop_last() =~= label@.take(i as int));
        assert(label@.take(i + 1).last() == cs@[i as int]);
        let c = if cs[i] == ' ' {
            '_'
        } else {
            cs[i]
        };
        if char_is_alphanumeric(c) || c == '_' {
            out.push(c);
        }
        i = i + 1;
    }
    assert(label@.take(cs@.len() as int) =~= label@);
    string_from_chars(out.as_slice())
}

/// The label of a snapshot request: its `label` argument, else `manual`.
pub fn snapshot_label(args: &OrganArgs) -> (r: String)
    ensures
        r@ == cleaned_label(match arg_value(args@, "label"@) {
            Some(l) => l,
            None => "manual"@,
        }),
{
    let l = match extract_arg(args, "label") {
        Some(x) => x,
        None => String::from_str("manual"),
    };
    clean_label(l.as_str())
}

/// The agent's name from its card's file stem: the part before the first
/// dot.
pub open spec fn agent_slug_of(stem: Seq<char>) -> Seq<char> {
    match crate::text::find_char(stem, '.') {
        Some(i) => stem.take(i),
        None => stem,
    }
}

/// The agent's name from its card's file stem.
pub fn agent_slug(stem: &str) -> (r: String)
    ensures
        r@ == agent_slug_of(stem@),
{
    let cs = chars_of(stem);
    match crate::text::find_char_idx(cs.as_slice(), '.') {
        Some(i) => {
            proof {
                crate::text::lemma_find_char(stem@, '.');
            }
            let p = crate::text::slice_chars(cs.as_slice(), 0, i);
            assert(cs@.subrange(0, i as int) =~= stem@.take(i as int));
            string_from_chars(p.as_slice())
        },
        None => String::from_str(stem),
    }
}

/// The file name of a snapshot taken at `secs` with a cleaned label.
pub fn snapshot_filename(secs: u64, label: &str, agent: &str) -> (r: String)
    ensures
        r@ == dec(secs as nat) + "_"@ + label@ + "_"@ + agent@ + ".agent.md"@,
{
    let mut f = String::new();
    push_dec(&mut f, secs);
    push_text(&mut f, "_");
    push_text(&mut f, label);
    push_text(&mut f, "_");
    push_text(&mut f, agent);
    push_text(&mut f, ".agent.md");
    f
}

/// Whether byte offset `n` of `s` falls on a character boundary.
pub open spec fn boundary_at(s: Seq<char>, n: nat) -> bool {
    byte_len(s) <= n || byte_len(s.take(fit_count(s, n as int) as int)) == n
}

/// Whether a reason can be cut after its first fifteen bytes without
/// splitting a character (always so when it is no longer).
pub fn cut_is_clean(reason: &str) -> (r: bool)
    ensures
        r == boundary_at(reason@, 15),
{
    let cs = chars_of(reason);
    let mut i: usize = 0;
    let mut acc: u128 = 0;
    assert(cs@.skip(0) =~= cs@);
    assert(cs@.take(0) =~= Seq::<char>::empty());
    while i < cs.len() && acc + char_width(cs[i]) <= 15
        invariant
            i <= cs@.len(),
            cs@ == reason@,
            acc == byte_len(cs@.take(i as int)),
            acc <= 15,
            fit_count(reason@, 15) == i + fit_count(cs@.skip(i as int), 15 - acc),
        decreases cs@.len() - i,
    {
        assert(cs@.skip(i as int).drop_first() =~= cs@.skip(i + 1));
        proof {
            lemma_byte_len_push(cs@.take(i as int), cs@[i as int]);
            assert(cs@.take(i as int).push(cs@[i as int]) =~= cs@.take(i + 1));
        }
        acc = acc + char_width(cs[i]);
        i = i + 1;
    }
    proof {
        if i == cs@.len() {
            assert(cs@.take(i as int) =~= cs@);
            assert(cs@.skip(i as int) =~= Seq::<char>::empty());
        }
    }
    let whole = crate::shell::utf8_len(reason);
    whole <= 15 || acc == 15
}

proof fn lemma_byte_len_push(s: Seq<char>, c: char)
    ensures
        byte_len(s.push(c)) == byte_len(s) + utf8_width(c),
    decreases s.len(),
{
    if s.len() > 0 {
        assert(s.push(c).drop_first() =~= s.drop_first().push(c));
        assert(s.push(c)[0] == s[0]);
        lemma_byte_len_push(s.drop_first(), c);
    } else {
        assert(s.push(c).drop_first() =~= Seq::<char>::empty());
        assert(s.push(c)[0] == c);
        assert(byte_len(s.push(c).drop_first()) == 0);
        assert(byte_len(s) == 0);
    }
}

/// The snapshot label of a pause: `pause_` and the reason's first fifteen
/// bytes.
pub open spec fn pause_label_text(reason: Seq<char>) -> Seq<char> {
    "pause_"@ + reason.take(fit_count(reason, 15) as int)
}

/// The snapshot label of a pause. The reason must not have a character
/// that straddles its fifteenth byte.
pub fn pause_label(reason: &str) -> (r: String)
    requires
        boundary_at(reason@, 15),
    ensures
        r@ == pause_label_text(reason@),
{
    let cs = chars_of(reason);
    let mut i: usize = 0;
    let mut acc: u128 = 0;
    assert(cs@.skip(0) =~= cs@);
    while i < cs.len() && acc + char_width(cs[i]) <= 15
        invariant
            i <= cs@.len(),
            cs@ == reason@,
            acc <= 15,
            fit_count(reason@, 15) == i + fit_count(cs@.skip(i as int), 15 - acc),
        decreases cs@.len() - i,
    {
        assert(cs@.skip(i as int).drop_first() =~= cs@.skip(i + 1));
        acc = acc + char_width(cs[i]);
        i = i + 1;
    }
    proof {
        if i == cs@.len() {
            assert(cs@.skip(i as int) =~= Seq::<char>::empty());
        }
    }
    let p = crate::text::slice_chars(cs.as_slice(), 0, i);
    assert(cs@.subrange(0, i as int) =~= reason@.take(i as int));
    let mut out = String::new();
    push_text(&mut out, "pause_");
    crate::text::push_chars(&mut out, p.as_slice());
    out
}

/// The reason of a pause request: its `reason` argument, else
/// `user_pause`.
pub fn pause_reason(args: &OrganArgs) -> (r: String)
    ensures
        r@ == (match arg_value(args@, "reason"@) {
            Some(x) => x,
            None => "user_pause"@,
        }),
{
    match extract_arg(args, "reason") {
        Some(x) => x,
        None => String::from_str("user_pause"),
    }
}

/// The card as a pause leaves it: in `rest` mode, with `next` noting the
/// reason.
pub fn paused_card(content: &str, reason: &str) -> (r: String)
    ensures
        r@ == updated_card(content@, Some("rest"@), seq![("next"@, "paused: "@ + reason@)]),
{
    let mut next_val = String::new();
    push_text(&mut next_val, "paused: ");
    push_text(&mut next_val, reason);
    let ups = [("next", next_val.as_str())];
    let r = update_agent_frontmatter(content, Some("rest"), &ups);
    assert(updates_view(ups@) =~= seq![("next"@, "paused: "@ + reason@)]);
    r
}

/// A pause leaves the card in `rest` mode: reading the paused card back
/// gives the mode `rest`, for a card with frontmatter whose lines do not
/// start with `---` and set the mode only as `mode:` lines, and a one-line
/// reason.
pub proof fn lemma_pause_rests(content: Seq<char>, reason: Seq<char>)
    requires
        crate::agent_card::frontmatter_end(content) is Some,
        forall|i: int|
            0 <= i < crate::agent_card::frontmatter_lines(content).len() ==> crate::agent_card::plain_line(
                #[trigger] crate::agent_card::frontmatter_lines(content)[i],
            ),
        !reason.contains('\n'),
    ensures
        crate::agent_card::parsed_card(updated_card(content, Some("rest"@), seq![("next"@, "paused: "@ + reason)])).2
            == "rest"@,
{
    reveal_strlit("rest");
    reveal_strlit("next");
    reveal_strlit("paused: ");
    reveal_strlit("  ");
    reveal_strlit(": ");
    reveal_strlit("mode");
    reveal_strlit("next: ");
    let v = "paused: "@ + reason;
    let l = crate::agent_card::state_line("next"@, v);
    // The note line's key is `next`, so it sets no mode.
    assert(crate::text::is_ws(' '));
    assert(!crate::text::is_ws('n'));
    assert(!crate::text::is_ws(':'));
    assert(l.drop_first().drop_first() =~= "next: "@ + v);
    assert(crate::text::trim_start(l) == crate::text::trim_start(l.drop_first()));
    assert(crate::text::trim_start(l.drop_first()) == crate::text::trim_start("next: "@ + v));
    assert(crate::text::trim_start("next: "@ + v) == "next: "@ + v);
    crate::text::lemma_trim_end_keeps("next: "@ + v, 4);
    let t = trim(l);
    assert(t[0] == 'n' && t[1] == 'e' && t[2] == 'x' && t[3] == 't' && t[4] == ':');
    crate::text::lemma_find_char(t, ':');
    assert(crate::text::find_char(t, ':') == Some(4int));
    assert(t.take(4) =~= "next"@);
    assert(crate::text::trim_start("next"@) == "next"@);
    assert(crate::text::trim_end("next"@) == "next"@);
    assert(!crate::agent_card::sets_mode(l));
    // Both texts are one line.
    assert(!"paused: "@.contains('\n')) by {
        if "paused: "@.contains('\n') {
            let q = choose|q: int| 0 <= q < "paused: "@.len() && "paused: "@[q] == '\n';
        }
    }
    assert(!"next"@.contains('\n')) by {
        if "next"@.contains('\n') {
            let q = choose|q: int| 0 <= q < "next"@.len() && "next"@[q] == '\n';
        }
    }
    crate::text::lemma_no_char_concat("paused: "@, reason, '\n');
    let ups = seq![("next"@, v)];
    assert(crate::agent_card::plain_update(ups[0]));
    assert(!"rest"@.contains('\n')) by {
        if "rest"@.contains('\n') {
            let q = choose|q: int| 0 <= q < "rest"@.len() && "rest"@[q] == '\n';
        }
    }
    assert(!crate::text::is_ws('r'));
    assert(!crate::text::is_ws('t'));
    assert(crate::text::trim_start("rest"@) == "rest"@);
    assert(crate::text::trim_end("rest"@) == "rest"@);
    crate::agent_card::lemma_mode_reads_back(content, "rest"@, ups);
}

/// Whether `a` comes before `b` in code-point order.
pub open spec fn text_lt(a: Seq<char>, b: Seq<char>) -> bool
    decreases a.len(),
{
    if b.len() == 0 {
        false
    } else if a.len() == 0 {
        true
    } else if a[0] != b[0] {
        a[0] < b[0]
    } else {
        text_lt(a.drop_first(), b.drop_first())
    }
}

/// Whether `a` comes before `b` in code-point order.
pub fn text_less_than(a: &[char], b: &[char]) -> (r: bool)
    ensures
        r == text_lt(a@, b@),
{
    let mut i: usize = 0;
    assert(a@.skip(0) =~= a@);
    assert(b@.skip(0) =~= b@);
    while i < a.len() && i < b.len() && a[i] == b[i]
        invariant
            i <= a@.len(),
            i <= b@.len(),
            text_lt(a@, b@) == text_lt(a@.skip(i as int), b@.skip(i as int)),
        decreases a@.len() - i,
    {
        assert(a@.skip(i as int).drop_first() =~= a@.skip(i + 1));
        assert(b@.skip(i as int).drop_first() =~= b@.skip(i + 1));
        i = i + 1;
    }
    if i == b.len() {
        false
    } else if i == a.len() {
        true
    } else {
        a[i] < b[i]
    }
}

/// Whether a snapshot name is a candidate for a label: every name for a
/// blank label, else the names that contain it.
pub open spec fn candidate(name: Seq<char>, label: Seq<char>) -> bool {
    trim(label).len() == 0 || contains_sub(name, label)
}

/// Choose the snapshot to restore: the last, in name order, of the
/// candidates for the label; none when there is none.
pub fn select_snapshot(names: &Vec<String>, label: &str) -> (r: Option<usize>)
    ensures
        match r {
            Some(i) => i < names@.len() && candidate(names@[i as int]@, label@) && forall|j: int|
                0 <= j < names@.len() && j != i && candidate(#[trigger] names@[j]@, label@) ==> !text_lt(
                    names@[i as int]@,
                    names@[j]@,
                ),
            None => forall|j: int| 0 <= j < names@.len() ==> !candidate(#[trigger] names@[j]@, label@),
        },
{
    let blank = trim_chars(chars_of(label).as_slice()).len() == 0;
    let mut best: Option<usize> = None;
    let mut i: usize = 0;
    while i < names.len()
        invariant
            i <= names@.len(),
            blank == (trim(label@).len() == 0),
            match best {
                Some(b) => b < i && candidate(names@[b as int]@, label@) && forall|j: int|
                    0 <= j < i && j != b && candidate(#[trigger] names@[j]@, label@) ==> !text_lt(
                        names@[b as int]@,
                        names@[j]@,
                    ),
                None => forall|j: int| 0 <= j < i ==> !candidate(#[trigger] names@[j]@, label@),
            },
        decreases names@.len() - i,
    {
        let is_cand = blank || contains_text(names[i].as_str(), label);
        if is_cand {
            match best {
                None => {
                    best = Some(i);
                },
                Some(b) => {
                    let nb = chars_of(names[b].as_str());
                    let ni = chars_of(names[i].as_str());
                    if text_less_than(nb.as_slice(), ni.as_slice()) {
                        proof {
                            assert forall|j: int|
                                0 <= j < i + 1 && j != i && candidate(#[trigger] names@[j]@, label@) implies !text_lt(
                                names@[i as int]@,
                                names@[j]@,
                            ) by {
                                if j != b {
                                    lemma_text_lt_trans_not(names@[j]@, names@[b as int]@, names@[i as int]@);
                                } else {
                                    lemma_text_lt_asym(names@[b as int]@, names@[i as int]@);
                                }
                            }
                        }
                        best = Some(i);
                    }
                },
            }
        }
        i = i + 1;
    }
    best
}

/// `text_lt` is asymmetric.
pub proof fn lemma_text_lt_asym(a: Seq<char>, b: Seq<char>)
    ensures
        text_lt(a, b) ==> !text_lt(b, a),
    decreases a.len(),
{
    if a.len() > 0 && b.len() > 0 && a[0] == b[0] {
        lemma_text_lt_asym(a.drop_first(), b.drop_first());
    }
}

/// If `j` is not after `b` and `b` comes before `i`, then `i` is not
/// before `j`.
pub proof fn lemma_text_lt_trans_not(j: Seq<char>, b: Seq<char>, i: Seq<char>)
    requires
        !text_lt(b, j),
        text_lt(b, i),
    ensures
        !text_lt(i, j),
    decreases j.len(),
{
    if j.len() > 0 && i.len() > 0 && b.len() > 0 {
        if b[0] == j[0] && b[0] == i[0] {
            lemma_text_lt_trans_not(j.drop_first(), b.drop_first(), i.drop_first());
        }
    }
}

/// A snapshot taken with a label (its file named with the cleaned label) is
/// among those that restoring by that label chooses from, for a label that
/// cleaning leaves as it is.
pub proof fn lemma_snapshot_restorable(secs: nat, label: Seq<char>, agent: Seq<char>)
    requires
        cleaned_label(label) == label,
    ensures
        candidate(dec(secs) + "_"@ + cleaned_label(label) + "_"@ + agent + ".agent.md"@, label),
{
    let head = dec(secs) + "_"@;
    let name = head + label + "_"@ + agent + ".agent.md"@;
    assert(name.skip(head.len() as int).subrange(0, label.len() as int) =~= label);
    crate::text::lemma_contains_at(name, label, head.len() as int);
}

/// The error when no snapshot matches a label.
pub fn snapshot_missing(label: &str, dir: &str) -> (r: String)
    ensures
        r@ == "No snapshot found matching label '"@ + label@ + "' in "@ + dir@,
{
    let mut e = String::new();
    push_text(&mut e, "No snapshot found matching label '");
    push_text(&mut e, label);
    push_text(&mut e, "' in ");
    push_text(&mut e, dir);
    e
}

/// The file names an agent's card may have, in the order they are tried:
/// the agent's own card, then `arche`'s.
pub fn agent_card_names(agent: &str) -> (r: (String, String))
    ensures
        r.0@ == agent@ + ".agent.md"@,
        r.1@ == "arche.agent.md"@,
{
    let mut own = String::new();
    push_text(&mut own, agent);
    push_text(&mut own, ".agent.md");
    (own, String::from_str("arche.agent.md"))
}

/// The error when no card is found for an agent.
pub fn card_missing(agent: &str, dir: &str) -> (r: String)
    ensures
        r@ == "No agent card found for agent '"@ + agent@ + "' in "@ + dir@,
{
    let mut e = String::new();
    push_text(&mut e, "No agent card found for agent '");
    push_text(&mut e, agent);
    push_text(&mut e, "' in ");
    push_text(&mut e, dir);
    e
}

/// Whether a goals file still lists an unfinished goal (`- [ ]`).
pub fn has_unfinished_goals(content: &str) -> (r: bool)
    ensures
        r == contains_sub(content@, "- [ ]"@),
{
    contains_text(content, "- [ ]")
}

/// What the state organ's command line asks for.
#[derive(Debug)]
pub enum StateRequest {
    Meta,
    Tools,
    StaleGoal,
    SleepState,
    Pause,
    Snapshot,
    Restore,
    Unknown { message: String },
}

/// The word after the first `flag` in `args`, or empty when the flag is
/// last; none when the flag is absent.
pub open spec fn flag_word(args: Seq<Seq<char>>, flag: Seq<char>) -> Option<Seq<char>>
    decreases args.len(),
{
    if args.len() == 0 {
        None
    } else if args[0] == flag {
        Some(if args.len() > 1 {
            args[1]
        } else {
            Seq::empty()
        })
    } else {
        flag_word(args.drop_first(), flag)
    }
}

pub open spec fn words_view(args: Seq<&str>) -> Seq<Seq<char>> {
    args.map_values(|s: &str| s@)
}

/// The word after a flag in the command line.
pub fn flag_value(args: &[&str], flag: &str) -> (r: Option<String>)
    ensures
        opt_view(r) == flag_word(words_view(args@), flag@),
{
    let ghost w = words_view(args@);
    let mut i: usize = 0;
    assert(w.skip(0) =~= w);
    while i < args.len()
        invariant
            i <= args@.len(),
            w == words_view(args@),
            flag_word(w, flag@) == flag_word(w.skip(i as int), flag@),
        decreases args@.len() - i,
    {
        assert(w.skip(i as int).drop_first() =~= w.skip(i + 1));
        assert(w.skip(i as int)[0] == args@[i as int]@);
        if same_text(args[i], flag) {
            if i + 1 < args.len() {
                assert(w.skip(i as int)[1] == args@[i + 1]@);
                return Some(String::from_str(args[i + 1]));
            } else {
                proof {
                    reveal_strlit("");
                }
                return Some(String::new());
            }
        }
        i = i + 1;
    }
    assert(w.skip(i as int) =~= Seq::<Seq<char>>::empty());
    None
}

/// Whether one of the words is `w`.
pub open spec fn has_word(args: Seq<Seq<char>>, w: Seq<char>) -> bool {
    args.contains(w)
}

fn any_word(args: &[&str], w: &str) -> (r: bool)
    ensures
        r == has_word(words_view(args@), w@),
{
    let mut i: usize = 0;
    while i < args.len()
        invariant
            i <= args@.len(),
            forall|k: int| 0 <= k < i ==> words_view(args@)[k] != w@,
        decreases args@.len() - i,
    {
        if same_text(args[i], w) {
            assert(words_view(args@)[i as int] == w@);
            return true;
        }
        i = i + 1;
    }
    false
}

/// What the state organ's command line asks for: the manifest with no
/// arguments or a help flag, the tool list, then the stimulus, the sense
/// and the tool named after their flags (each defaulting to its only
/// kind where no name follows), else the manifest.
pub open spec fn state_request_of(args: Seq<Seq<char>>) -> (int, Seq<char>) {
    if args.len() == 1 || has_word(args, "--help"@) || has_word(args, "-h"@) || has_word(args, "--meta"@) {
        (0, Seq::empty())
    } else if has_word(args, "--tools"@) {
        (1, Seq::empty())
    } else if flag_word(args, "--stimulus"@) is Some {
        let s = flag_word(args, "--stimulus"@)->0;
        if s == "stale_goal"@ || s.len() == 0 {
            (2, Seq::empty())
        } else {
            (7, "Unknown stimulus: "@ + s)
        }
    } else if flag_word(args, "--sense"@) is Some {
        let s = flag_word(args, "--sense"@)->0;
        if s == "sleep_state"@ || s.len() == 0 {
            (3, Seq::empty())
        } else {
            (7, "Unknown sense: "@ + s)
        }
    } else if flag_word(args, "--tool"@) is Some {
        let t = flag_word(args, "--tool"@)->0;
        if t == "pause_session"@ {
            (4, Seq::empty())
        } else if t == "snapshot"@ {
            (5, Seq::empty())
        } else if t == "restore"@ {
            (6, Seq::empty())
        } else {
            (7, "Unknown tool: "@ + t)
        }
    } else {
        (0, Seq::empty())
    }
}

pub open spec fn request_view(r: StateRequest) -> (int, Seq<char>) {
    match r {
        StateRequest::Meta => (0, Seq::empty()),
        StateRequest::Tools => (1, Seq::empty()),
        StateRequest::StaleGoal => (2, Seq::empty()),
        StateRequest::SleepState => (3, Seq::empty()),
        StateRequest::Pause => (4, Seq::empty()),
        StateRequest::Snapshot => (5, Seq::empty()),
        StateRequest::Restore => (6, Seq::empty()),
        StateRequest::Unknown { message } => (7, message@),
    }
}

fn unknown(prefix: &str, name: &str) -> (r: StateRequest)
    ensures
        request_view(r) == (7int, prefix@ + name@),
{
    let mut m = String::new();
    push_text(&mut m, prefix);
    push_text(&mut m, name);
    StateRequest::Unknown { message: m }
}

/// Read the state organ's command line (program name first).
pub fn state_request(args: &[&str]) -> (r: StateRequest)
    ensures
        request_view(r) == state_request_of(words_view(args@)),
{
    if args.len() == 1 || any_word(args, "--help") || any_word(args, "-h") || any_word(args, "--meta") {
        return StateRequest::Meta;
    }
    if any_word(args, "--tools") {
        return StateRequest::Tools;
    }
    match flag_value(args, "--stimulus") {
        Some(s) => {
            if same_text(s.as_str(), "stale_goal") || chars_of(s.as_str()).len() == 0 {
                return StateRequest::StaleGoal;
            }
            return unknown("Unknown stimulus: ", s.as_str());
        },
        None => {},
    }
    match flag_value(args, "--sense") {
        Some(s) => {
            if same_text(s.as_str(), "sleep_state") || chars_of(s.as_str()).len() == 0 {
                return StateRequest::SleepState;
            }
            return unknown("Unknown sense: ", s.as_str());
        },
        None => {},
    }
    match flag_value(args, "--tool") {
        Some(t) => {
            if same_text(t.as_str(), "pause_session") {
                StateRequest::Pause
            } else if same_text(t.as_str(), "snapshot") {
                StateRequest::Snapshot
            } else if same_text(t.as_str(), "restore") {
                StateRequest::Restore
            } else {
                unknown("Unknown tool: ", t.as_str())
            }
        },
        None => StateRequest::Meta,
    }
}

} // verus!
