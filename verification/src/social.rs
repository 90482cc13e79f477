//! Social organ: interlocutor profiles, the habits and boundaries noted of
//! them, their communication register, the grounding text, and the
//! absence alarm.

use vstd::prelude::*;
use crate::ids::now_secs;
use crate::sdk::{OrganArgs, arg_value, extract_arg, opt_view};
use crate::state::{flag_value, flag_word, has_word, words_view};
use crate::text::{chars_of, dec, parse_u64, parse_u64_str, push_text, same_text};

verus! {

/// One observation of a person's habits.
#[derive(Debug)]
pub struct HabitItem {
    pub category: String,
    pub observation: String,
    pub recorded_ts: u64,
}

/// How to speak with a person.
#[derive(Debug)]
pub struct RegisterConfig {
    pub tone: String,
    pub brevity: String,
    pub directness: String,
}

/// What is known of a person.
#[derive(Debug)]
pub struct PersonProfile {
    pub person_id: String,
    pub name: String,
    pub role: String,
    pub language: String,
    pub register: RegisterConfig,
    pub habits: Vec<HabitItem>,
    pub boundaries: Vec<String>,
    pub last_seen_ts: u64,
    pub interaction_count: u64,
}

pub open spec fn habit_view(h: HabitItem) -> (Seq<char>, Seq<char>, u64) {
    (h.category@, h.observation@, h.recorded_ts)
}

pub open spec fn habits_view(hs: Seq<HabitItem>) -> Seq<(Seq<char>, Seq<char>, u64)> {
    hs.map_values(|h: HabitItem| habit_view(h))
}

pub open spec fn texts(v: Seq<String>) -> Seq<Seq<char>> {
    v.map_values(|s: String| s@)
}

/// The owner's profile as it is first created at time `now`.
pub open spec fn is_owner_default(p: PersonProfile, now: u64) -> bool {
    &&& p.person_id@ == "owner"@
    &&& p.name@ == "Owner"@
    &&& p.role@ == "creator"@
    &&& p.language@ == "Russian dialogue, English code/artifacts"@
    &&& p.register.tone@ == "pragmatic"@
    &&& p.register.brevity@ == "concise"@
    &&& p.register.directness@ == "high"@
    &&& habits_view(p.habits@) == seq![
        ("preference"@, "Prefers deterministic execution over narration"@, now),
        ("preference"@, "Values pure hermeneutic core with zero hardcoded bloat"@, now),
        ("lexicon"@, "Uses Russian for conversation, English for commits and manuals"@, now),
    ]
    &&& texts(p.boundaries@) == seq!["Never delete project code files without explicit approval"@]
    &&& p.last_seen_ts == now
    &&& p.interaction_count == 1
}

/// The profile of anyone else when first met at time `now`.
pub open spec fn is_fallback(p: PersonProfile, person_id: Seq<char>, now: u64) -> bool {
    &&& p.person_id@ == person_id
    &&& p.name@ == person_id
    &&& p.role@ == "interlocutor"@
    &&& p.language@ == "auto"@
    &&& p.register.tone@ == "formal"@
    &&& p.register.brevity@ == "normal"@
    &&& p.register.directness@ == "medium"@
    &&& p.habits@.len() == 0
    &&& p.boundaries@.len() == 0
    &&& p.last_seen_ts == now
    &&& p.interaction_count == 1
}

fn habit(category: &str, observation: &str, ts: u64) -> (r: HabitItem)
    ensures
        habit_view(r) == (category@, observation@, ts),
{
    HabitItem { category: String::from_str(category), observation: String::from_str(observation), recorded_ts: ts }
}

impl PersonProfile {
    /// The owner's profile as first created at time `now`.
    pub fn owner(now: u64) -> (r: Self)
        ensures
            is_owner_default(r, now),
    {
        let mut habits: Vec<HabitItem> = Vec::new();
        habits.push(habit("preference", "Prefers deterministic execution over narration", now));
        habits.push(habit("preference", "Values pure hermeneutic core with zero hardcoded bloat", now));
        habits.push(habit("lexicon", "Uses Russian for conversation, English for commits and manuals", now));
        let mut boundaries: Vec<String> = Vec::new();
        boundaries.push(String::from_str("Never delete project code files without explicit approval"));
        let r = PersonProfile {
            person_id: String::from_str("owner"),
            name: String::from_str("Owner"),
            role: String::from_str("creator"),
            language: String::from_str("Russian dialogue, English code/artifacts"),
            register: RegisterConfig {
                tone: String::from_str("pragmatic"),
                brevity: String::from_str("concise"),
                directness: String::from_str("high"),
            },
            habits,
            boundaries,
            last_seen_ts: now,
            interaction_count: 1,
        };
        assert(habits_view(r.habits@) =~= seq![
            ("preference"@, "Prefers deterministic execution over narration"@, now),
            ("preference"@, "Values pure hermeneutic core with zero hardcoded bloat"@, now),
            ("lexicon"@, "Uses Russian for conversation, English for commits and manuals"@, now),
        ]);
        assert(texts(r.boundaries@) =~= seq!["Never delete project code files without explicit approval"@]);
        r
    }

    /// The profile of someone other than the owner, first met at `now`.
    pub fn fallback(person_id: &str, now: u64) -> (r: Self)
        ensures
            is_fallback(r, person_id@, now),
    {
        PersonProfile {
            person_id: String::from_str(person_id),
            name: String::from_str(person_id),
            role: String::from_str("interlocutor"),
            language: String::from_str("auto"),
            register: RegisterConfig {
                tone: String::from_str("formal"),
                brevity: String::from_str("normal"),
                directness: String::from_str("medium"),
            },
            habits: Vec::new(),
            boundaries: Vec::new(),
            last_seen_ts: now,
            interaction_count: 1,
        }
    }

    /// The profile a person gets when none is stored: the owner's default
    /// for `owner`, the generic one for anyone else.
    pub fn fresh(person_id: &str, now: u64) -> (r: Self)
        ensures
            person_id@ == "owner"@ ==> is_owner_default(r, now),
            person_id@ != "owner"@ ==> is_fallback(r, person_id@, now),
    {
        if same_text(person_id, "owner") {
            PersonProfile::owner(now)
        } else {
            PersonProfile::fallback(person_id, now)
        }
    }

    /// Note a visit at time `now`.
    pub fn visit(&mut self, now: u64)
        requires
            old(self).interaction_count < u64::MAX,
        ensures
            final(self).last_seen_ts == now,
            final(self).interaction_count == old(self).interaction_count + 1,
            final(self).person_id == old(self).person_id,
            final(self).language == old(self).language,
            final(self).register == old(self).register,
            final(self).habits == old(self).habits,
            final(self).boundaries == old(self).boundaries,
    {
        self.last_seen_ts = now;
        self.interaction_count = self.interaction_count + 1;
    }

    /// Note an observation at time `now`: a boundary is added once, any
    /// other category is added as a habit. Gives the number of habits.
    pub fn note_habit(&mut self, category: &str, observation: &str, now: u64) -> (r: usize)
        ensures
            category@ == "boundary"@ ==> {
                &&& texts(final(self).boundaries@) == if texts(old(self).boundaries@).contains(observation@) {
                    texts(old(self).boundaries@)
                } else {
                    texts(old(self).boundaries@).push(observation@)
                }
                &&& final(self).habits == old(self).habits
            },
            category@ != "boundary"@ ==> {
                &&& habits_view(final(self).habits@) == habits_view(old(self).habits@).push(
                    (category@, observation@, now),
                )
                &&& final(self).boundaries == old(self).boundaries
            },
            r == final(self).habits@.len(),
            final(self).register == old(self).register,
            final(self).language == old(self).language,
    {
        if same_text(category, "boundary") {
            let mut i: usize = 0;
            let mut found = false;
            while i < self.boundaries.len()
                invariant
                    i <= self.boundaries@.len(),
                    found ==> texts(self.boundaries@).contains(observation@),
                    !found ==> forall|k: int| 0 <= k < i ==> texts(self.boundaries@)[k] != observation@,
                decreases self.boundaries@.len() - i,
            {
                if same_text(self.boundaries[i].as_str(), observation) {
                    assert(texts(self.boundaries@)[i as int] == observation@);
                    found = true;
                }
                i = i + 1;
            }
            if !found {
                let ghost before = texts(self.boundaries@);
                self.boundaries.push(String::from_str(observation));
                assert(texts(self.boundaries@) =~= before.push(observation@));
            }
        } else {
            let ghost before = habits_view(self.habits@);
            self.habits.push(habit(category, observation, now));
            assert(habits_view(self.habits@) =~= before.push((category@, observation@, now)));
        }
        self.habits.len()
    }

    /// Tune the register and language where new values are given.
    pub fn tune_register(&mut self, tone: Option<String>, brevity: Option<String>, language: Option<String>)
        ensures
            final(self).register.tone@ == (match tone {
                Some(t) => t@,
                None => old(self).register.tone@,
            }),
            final(self).register.brevity@ == (match brevity {
                Some(b) => b@,
                None => old(self).register.brevity@,
            }),
            final(self).language@ == (match language {
                Some(l) => l@,
                None => old(self).language@,
            }),
            final(self).register.directness == old(self).register.directness,
            final(self).habits == old(self).habits,
            final(self).boundaries == old(self).boundaries,
    {
        match tone {
            Some(t) => self.register.tone = t,
            None => {},
        }
        match brevity {
            Some(b) => self.register.brevity = b,
            None => {},
        }
        match language {
            Some(l) => self.language = l,
            None => {},
        }
    }
}

/// The lines for the most recent habits: up to five, newest first.
pub open spec fn habit_lines(hs: Seq<(Seq<char>, Seq<char>, u64)>) -> Seq<Seq<char>>
    decreases hs.len(),
{
    if hs.len() == 0 {
        Seq::empty()
    } else {
        let h = hs.last();
        let rest = habit_lines(hs.drop_last());
        seq!["- ["@ + h.0 + "] "@ + h.1] + (if rest.len() >= 4 {
            rest.take(4)
        } else {
            rest
        })
    }
}

/// The lines listing the boundaries.
pub open spec fn boundary_lines(bs: Seq<Seq<char>>) -> Seq<Seq<char>> {
    bs.map_values(|b: Seq<char>| "- [boundary] "@ + b)
}

/// The grounding text that presents a person to the agent.
pub open spec fn grounding_text(p: PersonProfile) -> Seq<char> {
    let hl = habit_lines(habits_view(p.habits@));
    let bl = boundary_lines(texts(p.boundaries@));
    "--- active interlocutor: "@ + p.person_id@ + " ---\nlanguage: "@ + p.language@ + "\nregister: tone="@
        + p.register.tone@ + ", brevity="@ + p.register.brevity@ + ", directness="@ + p.register.directness@
        + "\nhabits:\n"@ + (if hl.len() == 0 {
        "(none yet)"@
    } else {
        crate::text::join_nl(hl)
    }) + "\nboundaries:\n"@ + (if bl.len() == 0 {
        "(none)"@
    } else {
        crate::text::join_nl(bl)
    }) + "\n"@
}

proof fn lemma_habit_lines_len(hs: Seq<(Seq<char>, Seq<char>, u64)>)
    ensures
        habit_lines(hs).len() == if hs.len() < 5 {
            hs.len()
        } else {
            5
        },
    decreases hs.len(),
{
    if hs.len() > 0 {
        lemma_habit_lines_len(hs.drop_last());
    }
}

fn join_texts(ls: &Vec<String>) -> (r: String)
    ensures
        r@ == crate::text::join_nl(texts(ls@)),
{
    let mut out = String::new();
    let mut i: usize = 0;
    while i < ls.len()
        invariant
            i <= ls@.len(),
            out@ == crate::text::join_nl(texts(ls@).take(i as int)),
        decreases ls@.len() - i,
    {
        assert(texts(ls@).take(i + 1).drop_last() =~= texts(ls@).take(i as int));
        assert(texts(ls@).take(i + 1).last() == ls@[i as int]@);
        if i > 0 {
            proof {
                reveal_strlit("\n");
            }
            push_text(&mut out, "\n");
        } else {
            assert(texts(ls@).take(0) =~= Seq::<Seq<char>>::empty());
        }
        push_text(&mut out, ls[i].as_str());
        proof {
            if i == 0 {
                assert(texts(ls@).take(1) =~= seq![ls@[0]@]);
                assert(out@ =~= ls@[0]@);
            } else {
                assert(out@ =~= crate::text::join_nl(texts(ls@).take(i as int)) + seq!['\n'] + ls@[i as int]@);
            }
        }
        i = i + 1;
    }
    assert(texts(ls@).take(ls@.len() as int) =~= texts(ls@));
    out
}

fn habit_block(p: &PersonProfile) -> (r: Vec<String>)
    ensures
        texts(r@) == habit_lines(habits_view(p.habits@)),
{
    let ghost hv = habits_view(p.habits@);
    let mut hl: Vec<String> = Vec::new();
    let n = p.habits.len();
    let mut k: usize = 0;
    proof {
        lemma_habit_lines_len(hv);
    }
    while k < n && k < 5
        invariant
            k <= n,
            n == p.habits@.len(),
            hv == habits_view(p.habits@),
            k <= 5,
            texts(hl@) == habit_lines(hv).take(k as int),
            habit_lines(hv).len() == if n < 5 {
                n as int
            } else {
                5
            },
        decreases n - k,
    {
        let h = &p.habits[n - 1 - k];
        let mut line = String::new();
        push_text(&mut line, "- [");
        push_text(&mut line, h.category.as_str());
        push_text(&mut line, "] ");
        push_text(&mut line, h.observation.as_str());
        proof {
            lemma_habit_lines_index(hv, k as int);
        }
        let ghost before = texts(hl@);
        hl.push(line);
        assert(texts(hl@) =~= before.push(habit_lines(hv)[k as int]));
        assert(habit_lines(hv).take(k as int).push(habit_lines(hv)[k as int]) =~= habit_lines(hv).take(k + 1));
        k = k + 1;
    }
    assert(habit_lines(hv).take(k as int) =~= habit_lines(hv));
    hl
}

fn boundary_block(p: &PersonProfile) -> (r: Vec<String>)
    ensures
        texts(r@) == boundary_lines(texts(p.boundaries@)),
{
    let mut bl: Vec<String> = Vec::new();
    let mut j: usize = 0;
    while j < p.boundaries.len()
        invariant
            j <= p.boundaries@.len(),
            texts(bl@) == boundary_lines(texts(p.boundaries@)).take(j as int),
        decreases p.boundaries@.len() - j,
    {
        let mut line = String::new();
        push_text(&mut line, "- [boundary] ");
        push_text(&mut line, p.boundaries[j].as_str());
        let ghost before = texts(bl@);
        bl.push(line);
        assert(texts(bl@) =~= before.push("- [boundary] "@ + p.boundaries@[j as int]@));
        assert(boundary_lines(texts(p.boundaries@)).take(j as int).push("- [boundary] "@ + p.boundaries@[j as int]@)
            =~= boundary_lines(texts(p.boundaries@)).take(j + 1));
        j = j + 1;
    }
    assert(boundary_lines(texts(p.boundaries@)).take(p.boundaries@.len() as int) =~= boundary_lines(
        texts(p.boundaries@),
    ));
    bl
}

fn block_text(lines: &Vec<String>, empty: &str) -> (r: String)
    ensures
        r@ == if lines@.len() == 0 {
            empty@
        } else {
            crate::text::join_nl(texts(lines@))
        },
{
    if lines.len() == 0 {
        String::from_str(empty)
    } else {
        join_texts(lines)
    }
}

/// Build the grounding text for a person.
pub fn grounding(p: &PersonProfile) -> (r: String)
    ensures
        r@ == grounding_text(*p),
{
    let hl = habit_block(p);
    let bl = boundary_block(p);
    let ht = block_text(&hl, "(none yet)");
    let bt = block_text(&bl, "(none)");
    let mut out = String::new();
    push_text(&mut out, "--- active interlocutor: ");
    push_text(&mut out, p.person_id.as_str());
    push_text(&mut out, " ---\nlanguage: ");
    push_text(&mut out, p.language.as_str());
    push_text(&mut out, "\nregister: tone=");
    push_text(&mut out, p.register.tone.as_str());
    push_text(&mut out, ", brevity=");
    push_text(&mut out, p.register.brevity.as_str());
    push_text(&mut out, ", directness=");
    push_text(&mut out, p.register.directness.as_str());
    push_text(&mut out, "\nhabits:\n");
    push_text(&mut out, ht.as_str());
    push_text(&mut out, "\nboundaries:\n");
    push_text(&mut out, bt.as_str());
    push_text(&mut out, "\n");
    out
}

proof fn lemma_habit_lines_index(hs: Seq<(Seq<char>, Seq<char>, u64)>, k: int)
    requires
        0 <= k < hs.len(),
        k < 5,
    ensures
        habit_lines(hs)[k] == "- ["@ + hs[hs.len() - 1 - k].0 + "] "@ + hs[hs.len() - 1 - k].1,
    decreases k,
{
    lemma_habit_lines_len(hs.drop_last());
    if k > 0 {
        lemma_habit_lines_index(hs.drop_last(), k - 1);
    }
}

/// Whether a person has been away for at least `threshold` seconds at
/// time `now`.
pub fn absence_triggered(last_seen: u64, now: u64, threshold: u64) -> (r: (u64, bool))
    ensures
        r.0 == (if now >= last_seen {
            now - last_seen
        } else {
            0
        }),
        r.1 == (r.0 >= threshold),
{
    let elapsed = if now >= last_seen { now - last_seen } else { 0 };
    (elapsed, elapsed >= threshold)
}

/// The absence threshold of a request: `threshold_seconds` when it is a
/// number, else a day.
pub fn absence_threshold(args: &OrganArgs) -> (r: u64)
    ensures
        r == (match arg_value(args@, "threshold_seconds"@) {
            Some(t) => match parse_u64(t) {
                Some(v) => v,
                None => 86400,
            },
            None => 86400,
        }),
{
    match extract_arg(args, "threshold_seconds") {
        Some(t) => match parse_u64_str(t.as_str()) {
            Some(v) => v,
            None => 86400,
        },
        None => 86400,
    }
}

/// The person a request is about: `person_id`, else the owner.
pub fn person_of(args: &OrganArgs) -> (r: String)
    ensures
        r@ == (match arg_value(args@, "person_id"@) {
            Some(p) => p,
            None => "owner"@,
        }),
{
    match extract_arg(args, "person_id") {
        Some(p) => p,
        None => String::from_str("owner"),
    }
}

/// What the social organ's command line asks for, as a tag (0 manifest,
/// 1 tool list, 2 interlocutor sense, 3 absence stimulus, 4 profile, 5 note
/// habit, 6 tune register, 7 error) and the error message.
pub open spec fn social_request_of(args: Seq<Seq<char>>) -> (int, Seq<char>) {
    if args.len() == 1 || has_word(args, "--help"@) || has_word(args, "-h"@) || has_word(args, "--meta"@) {
        (0, Seq::empty())
    } else if has_word(args, "--tools"@) {
        (1, Seq::empty())
    } else if flag_word(args, "--sense"@) is Some {
        let s = flag_word(args, "--sense"@)->0;
        if s == "active_interlocutor"@ || s.len() == 0 {
            (2, Seq::empty())
        } else {
            (7, "Unknown sense: "@ + s)
        }
    } else if flag_word(args, "--stimulus"@) is Some {
        let s = flag_word(args, "--stimulus"@)->0;
        if s == "prolonged_absence"@ || s.len() == 0 {
            (3, Seq::empty())
        } else {
            (7, "Unknown stimulus: "@ + s)
        }
    } else if flag_word(args, "--tool"@) is Some {
        let t = flag_word(args, "--tool"@)->0;
        if t == "social_profile"@ {
            (4, Seq::empty())
        } else if t == "social_note_habit"@ {
            (5, Seq::empty())
        } else if t == "social_tune_register"@ {
            (6, Seq::empty())
        } else {
            (7, "Unknown tool: "@ + t)
        }
    } else {
        (0, Seq::empty())
    }
}

fn has_arg(args: &[&str], w: &str) -> (r: bool)
    ensures
        r == has_word(words_view(args@), w@),
{
    let mut i: usize = 0;
    while i < args.len()
        invariant
            i <= args@.len(),
            forall|k: int| 0 <= k < i ==> words_view(args@)[k] != w@,
        decreases args@.len() - i,
    {
        if same_text(args[i], w) {
            assert(words_view(args@)[i as int] == w@);
            return true;
        }
        i = i + 1;
    }
    false
}

fn prefixed(prefix: &str, name: &str) -> (r: String)
    ensures
        r@ == prefix@ + name@,
{
    let mut m = String::new();
    push_text(&mut m, prefix);
    push_text(&mut m, name);
    m
}

/// Read the social organ's command line (program name first): the tag of
/// the request and, for an error, its message.
pub fn social_request(args: &[&str]) -> (r: (u8, String))
    ensures
        (r.0 as int, r.1@) == social_request_of(words_view(args@)),
{
    proof {
        reveal_strlit("");
    }
    if args.len() == 1 || has_arg(args, "--help") || has_arg(args, "-h") || has_arg(args, "--meta") {
        return (0, String::new());
    }
    if has_arg(args, "--tools") {
        return (1, String::new());
    }
    match flag_value(args, "--sense") {
        Some(s) => {
            if same_text(s.as_str(), "active_interlocutor") || chars_of(s.as_str()).len() == 0 {
                return (2, String::new());
            }
            return (7, prefixed("Unknown sense: ", s.as_str()));
        },
        None => {},
    }
    match flag_value(args, "--stimulus") {
        Some(s) => {
            if same_text(s.as_str(), "prolonged_absence") || chars_of(s.as_str()).len() == 0 {
                return (3, String::new());
            }
            return (7, prefixed("Unknown stimulus: ", s.as_str()));
        },
        None => {},
    }
    match flag_value(args, "--tool") {
        Some(t) => {
            if same_text(t.as_str(), "social_profile") {
                (4, String::new())
            } else if same_text(t.as_str(), "social_note_habit") {
                (5, String::new())
            } else if same_text(t.as_str(), "social_tune_register") {
                (6, String::new())
            } else {
                (7, prefixed("Unknown tool: ", t.as_str()))
            }
        },
        None => (0, String::new()),
    }
}

} // verus!
