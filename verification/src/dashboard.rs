//! Dashboard telemetry: what the dashboard shows of the triad's logs and
//! of the organs it finds, and its colour palette.

use vstd::prelude::*;
use crate::issues::nonblank;
use crate::sdk::{json_str_field, json_string_field, opt_view};
use crate::text::{chars_of, contains_sub, contains_text, lines, same_text, split_lines, string_from_chars, trim, trim_chars};

verus! {

/// A colour as red, green and blue.
#[derive(Clone, Copy, Debug, PartialEq, Eq, Structural)]
pub struct Rgb {
    pub r: u8,
    pub g: u8,
    pub b: u8,
}

/// The palette's colours.
#[derive(Clone, Copy, Debug, PartialEq, Eq, Structural)]
pub enum ThemeColor {
    BgApp,
    BgPanel,
    BgTile,
    BgCode,
    Border,
    BorderBright,
    TextBright,
    TextMuted,
    TextDim,
    NeonCyan,
    NeonGreen,
    NeonAmber,
    NeonMagenta,
    NeonPurple,
}

/// The dashboard's palette: neutral editor greys with neon accents.
pub struct Theme;

/// The value of each colour of the palette.
pub open spec fn color_value(c: ThemeColor) -> (u8, u8, u8) {
    match c {
        ThemeColor::BgApp => (0x16, 0x16, 0x18),
        ThemeColor::BgPanel => (0x1c, 0x1c, 0x1f),
        ThemeColor::BgTile => (0x22, 0x22, 0x26),
        ThemeColor::BgCode => (0x14, 0x14, 0x16),
        ThemeColor::Border => (0x32, 0x32, 0x38),
        ThemeColor::BorderBright => (0x45, 0x45, 0x50),
        ThemeColor::TextBright => (0xee, 0xee, 0xf0),
        ThemeColor::TextMuted => (0x8a, 0x8a, 0x94),
        ThemeColor::TextDim => (0x5a, 0x5a, 0x64),
        ThemeColor::NeonCyan => (0x00, 0xf0, 0xff),
        ThemeColor::NeonGreen => (0x00, 0xff, 0x88),
        ThemeColor::NeonAmber => (0xff, 0xaa, 0x00),
        ThemeColor::NeonMagenta => (0xff, 0x00, 0x66),
        ThemeColor::NeonPurple => (0xbf, 0x00, 0xff),
    }
}

fn rgb(r: u8, g: u8, b: u8) -> (c: Rgb)
    ensures
        c == (Rgb { r, g, b }),
{
    Rgb { r, g, b }
}

impl Theme {
    /// The value of a palette colour.
    pub fn color(c: ThemeColor) -> (r: Rgb)
        ensures
            (r.r, r.g, r.b) == color_value(c),
    {
        match c {
            ThemeColor::BgApp => rgb(0x16, 0x16, 0x18),
            ThemeColor::BgPanel => rgb(0x1c, 0x1c, 0x1f),
            ThemeColor::BgTile => rgb(0x22, 0x22, 0x26),
            ThemeColor::BgCode => rgb(0x14, 0x14, 0x16),
            ThemeColor::Border => rgb(0x32, 0x32, 0x38),
            ThemeColor::BorderBright => rgb(0x45, 0x45, 0x50),
            ThemeColor::TextBright => rgb(0xee, 0xee, 0xf0),
            ThemeColor::TextMuted => rgb(0x8a, 0x8a, 0x94),
            ThemeColor::TextDim => rgb(0x5a, 0x5a, 0x64),
            ThemeColor::NeonCyan => rgb(0x00, 0xf0, 0xff),
            ThemeColor::NeonGreen => rgb(0x00, 0xff, 0x88),
            ThemeColor::NeonAmber => rgb(0xff, 0xaa, 0x00),
            ThemeColor::NeonMagenta => rgb(0xff, 0x00, 0x66),
            ThemeColor::NeonPurple => rgb(0xbf, 0x00, 0xff),
        }
    }
}

pub open spec fn texts(v: Seq<String>) -> Seq<Seq<char>> {
    v.map_values(|s: String| s@)
}

/// The last `n` non-blank lines of a log, newest first.
pub open spec fn newest_first(content: Seq<char>, n: nat) -> Seq<Seq<char>> {
    let ls = nonblank(lines(content));
    let r = ls.reverse();
    if r.len() > n {
        r.take(n as int)
    } else {
        r
    }
}

/// The non-blank lines of a log, in order.
pub fn nonblank_lines(content: &str) -> (r: Vec<String>)
    ensures
        texts(r@) == nonblank(lines(content@)),
{
    let cs = chars_of(content);
    let ls = split_lines(cs.as_slice());
    let ghost lv = ls@.map_values(|l: Vec<char>| l@);
    let mut kept: Vec<String> = Vec::new();
    let mut i: usize = 0;
    while i < ls.len()
        invariant
            i <= ls@.len(),
            lv == ls@.map_values(|l: Vec<char>| l@),
            texts(kept@) == nonblank(lv.take(i as int)),
        decreases ls@.len() - i,
    {
        assert(lv.take(i + 1).drop_last() =~= lv.take(i as int));
        assert(lv.take(i + 1).last() == ls@[i as int]@);
        let t = trim_chars(ls[i].as_slice());
        if t.len() > 0 {
            let ghost before = texts(kept@);
            kept.push(string_from_chars(ls[i].as_slice()));
            assert(texts(kept@) =~= before.push(lv[i as int]));
        }
        i = i + 1;
    }
    assert(lv.take(ls@.len() as int) =~= lv);
    kept
}

/// The last `n` non-blank lines of a log, newest first.
pub fn recent_lines(content: &str, n: usize) -> (r: Vec<String>)
    ensures
        texts(r@) == newest_first(content@, n as nat),
{
    let all = nonblank_lines(content);
    let ghost av = texts(all@);
    let mut out: Vec<String> = Vec::new();
    let mut k: usize = 0;
    let len = all.len();
    while k < len && k < n
        invariant
            len == all@.len(),
            av == texts(all@),
            k <= len,
            k <= n,
            texts(out@) == av.reverse().take(k as int),
        decreases len - k,
    {
        let ghost before = texts(out@);
        out.push(String::from_str(all[len - 1 - k].as_str()));
        assert(av.reverse()[k as int] == av[len - 1 - k]);
        assert(texts(out@) =~= before.push(av.reverse()[k as int]));
        assert(av.reverse().take(k as int).push(av.reverse()[k as int]) =~= av.reverse().take(k + 1));
        k = k + 1;
    }
    proof {
        if k == len {
            assert(av.reverse().take(k as int) =~= av.reverse());
        }
    }
    out
}

/// Whether a transcript entry states a goal: its `content` starts with
/// `Goal:` or mentions `goal_done`.
pub open spec fn goal_entry(line: Seq<char>) -> Option<Seq<char>> {
    match json_str_field(line, "content"@) {
        Some(c) => if "Goal:"@.is_prefix_of(c) || contains_sub(c, "goal_done"@) {
            Some(c)
        } else {
            None
        },
        None => None,
    }
}

/// The goal shown: the newest goal entry cut to 90 characters, or the
/// standing-by text.
pub open spec fn shown_goal(ls: Seq<Seq<char>>) -> Seq<char>
    decreases ls.len(),
{
    if ls.len() == 0 {
        "Standing by for conscious inquiry"@
    } else {
        match goal_entry(ls.last()) {
            Some(c) => {
                let g = c.take(if c.len() < 90 { c.len() as int } else { 90 });
                if g.len() == 0 {
                    "Standing by for conscious inquiry"@
                } else {
                    g
                }
            },
            None => shown_goal(ls.drop_last()),
        }
    }
}

/// The goal the dashboard shows for a transcript's non-blank lines.
pub fn current_goal(lines_in: &Vec<String>) -> (r: String)
    ensures
        r@ == shown_goal(texts(lines_in@)),
{
    let ghost lv = texts(lines_in@);
    let mut k: usize = lines_in.len();
    assert(lv.take(k as int) =~= lv);
    while k > 0
        invariant
            k <= lines_in@.len(),
            lv == texts(lines_in@),
            shown_goal(lv) == shown_goal(lv.take(k as int)),
        decreases k,
    {
        assert(lv.take(k as int).drop_last() =~= lv.take(k - 1));
        assert(lv.take(k as int).last() == lines_in@[k - 1]@);
        let line = lines_in[k - 1].as_str();
        match json_string_field(line, "content") {
            Some(c) => {
                let starts = crate::issues::starts_with_text(c.as_str(), "Goal:");
                if starts || contains_text(c.as_str(), "goal_done") {
                    let cs = chars_of(c.as_str());
                    let n: usize = if cs.len() < 90 { cs.len() } else { 90 };
                    let cut = crate::text::slice_chars(cs.as_slice(), 0, n);
                    assert(cs@.subrange(0, n as int) =~= c@.take(n as int));
                    if n == 0 {
                        return String::from_str("Standing by for conscious inquiry");
                    }
                    return string_from_chars(cut.as_slice());
                }
            },
            None => {},
        }
        k = k - 1;
    }
    assert(lv.take(0) =~= Seq::<Seq<char>>::empty());
    String::from_str("Standing by for conscious inquiry")
}

/// What the dashboard shows of the triad's logs.
#[derive(Debug)]
pub struct TriadSummary {
    pub active_agent: String,
    pub current_goal: String,
    pub current_phase: String,
    pub transcript_count: usize,
    pub recent_transcript: Vec<String>,
    pub friction_count: usize,
    pub recent_friction: Vec<String>,
    pub outbox_lines: Vec<String>,
    pub inbox_lines: Vec<String>,
}

/// The active agent: the trimmed text of its file, else `arche`.
pub fn active_agent(file: Option<&str>) -> (r: String)
    ensures
        r@ == (match file {
            Some(t) => trim(t@),
            None => "arche"@,
        }),
{
    match file {
        Some(t) => string_from_chars(trim_chars(chars_of(t).as_slice()).as_slice()),
        None => String::from_str("arche"),
    }
}

/// The text of a log that may be missing: a missing log reads as empty.
pub open spec fn log_text(t: Option<&str>) -> Seq<char> {
    match t {
        Some(x) => x@,
        None => Seq::empty(),
    }
}

/// Summarize the triad's logs as the dashboard shows them: the active agent
/// (from its file, else `arche`), the transcript's non-blank line count, its
/// newest 15 lines and the goal it states last, the friction count and its
/// newest 8 lines, and the newest 6 lines of the outbox and of the inbox.
/// A missing log reads as empty.
pub fn summarize_triad(
    agent_file: Option<&str>,
    transcript: Option<&str>,
    friction: Option<&str>,
    outbox: Option<&str>,
    inbox: Option<&str>,
) -> (r: TriadSummary)
    ensures
        r.active_agent@ == (match agent_file {
            Some(t) => trim(t@),
            None => "arche"@,
        }),
        r.current_goal@ == shown_goal(nonblank(lines(log_text(transcript)))),
        r.current_phase@ == "Vollzug (Active)"@,
        r.transcript_count == nonblank(lines(log_text(transcript))).len(),
        texts(r.recent_transcript@) == newest_first(log_text(transcript), 15),
        r.friction_count == nonblank(lines(log_text(friction))).len(),
        texts(r.recent_friction@) == newest_first(log_text(friction), 8),
        texts(r.outbox_lines@) == newest_first(log_text(outbox), 6),
        texts(r.inbox_lines@) == newest_first(log_text(inbox), 6),
{
    proof {
        reveal_strlit("");
    }
    let tr: &str = match transcript {
        Some(t) => t,
        None => "",
    };
    let fr: &str = match friction {
        Some(t) => t,
        None => "",
    };
    let ob: &str = match outbox {
        Some(t) => t,
        None => "",
    };
    let ib: &str = match inbox {
        Some(t) => t,
        None => "",
    };
    let tr_lines = nonblank_lines(tr);
    let fr_lines = nonblank_lines(fr);
    TriadSummary {
        active_agent: active_agent(agent_file),
        current_goal: current_goal(&tr_lines),
        current_phase: String::from_str("Vollzug (Active)"),
        transcript_count: tr_lines.len(),
        recent_transcript: recent_lines(tr, 15),
        friction_count: fr_lines.len(),
        recent_friction: recent_lines(fr, 8),
        outbox_lines: recent_lines(ob, 6),
        inbox_lines: recent_lines(ib, 6),
    }
}

/// A manifest's organ as the dashboard lists it: name, version and type
/// defaulting to `unknown`, `0.1.0` and `cli`, and the manifest text.
#[derive(Debug)]
pub struct DiscoveredOrganInfo {
    pub name: String,
    pub version: String,
    pub organ_type: String,
    pub description: String,
    pub compatible: bool,
    pub raw_yaml: String,
}

/// List an organ from the string fields of its manifest.
pub fn organ_info(
    name: Option<&str>,
    version: Option<&str>,
    organ_type: Option<&str>,
    description: Option<&str>,
    raw_yaml: &str,
) -> (r: DiscoveredOrganInfo)
    ensures
        r.name@ == (match name {
            Some(x) => x@,
            None => "unknown"@,
        }),
        r.version@ == (match version {
            Some(x) => x@,
            None => "0.1.0"@,
        }),
        r.organ_type@ == (match organ_type {
            Some(x) => x@,
            None => "cli"@,
        }),
        r.description@ == (match description {
            Some(x) => x@,
            None => Seq::<char>::empty(),
        }),
        r.compatible,
        r.raw_yaml@ == raw_yaml@,
{
    proof {
        reveal_strlit("");
        assert(""@ =~= Seq::<char>::empty());
    }
    DiscoveredOrganInfo {
        name: String::from_str(match name {
            Some(x) => x,
            None => "unknown",
        }),
        version: String::from_str(match version {
            Some(x) => x,
            None => "0.1.0",
        }),
        organ_type: String::from_str(match organ_type {
            Some(x) => x,
            None => "cli",
        }),
        description: String::from_str(match description {
            Some(x) => x,
            None => "",
        }),
        compatible: true,
        raw_yaml: String::from_str(raw_yaml),
    }
}

/// What `serde_yaml::from_str` makes of an organ manifest's text read as a
/// JSON value: its `name`, `version`, `type` and `description`, each where
/// it is a string; nothing where the text is no YAML.
pub uninterp spec fn yaml_organ_summary(text: Seq<char>) -> Option<
    (Option<Seq<char>>, Option<Seq<char>>, Option<Seq<char>>, Option<Seq<char>>),
>;

pub open spec fn summary_view(r: Option<(Option<String>, Option<String>, Option<String>, Option<String>)>) -> Option<
    (Option<Seq<char>>, Option<Seq<char>>, Option<Seq<char>>, Option<Seq<char>>),
> {
    match r {
        Some((n, v, t, d)) => Some((opt_view(n), opt_view(v), opt_view(t), opt_view(d))),
        None => None,
    }
}

/// Parse a manifest with `serde_yaml::from_str` into a JSON value and pick
/// its `name`, `version`, `type` and `description` strings; the result is
/// named `yaml_organ_summary`.
#[verifier::external_body]
fn read_organ_summary(text: &str) -> (r: Option<(Option<String>, Option<String>, Option<String>, Option<String>)>)
    ensures
        summary_view(r) == yaml_organ_summary(text@),
{
    let v: serde_json::Value = serde_yaml::from_str(text).ok()?;
    let f = |k: &str| v.get(k).and_then(serde_json::Value::as_str).map(String::from);
    Some((f("name"), f("version"), f("type"), f("description")))
}

pub open spec fn opt_or(o: Option<Seq<char>>, d: Seq<char>) -> Seq<char> {
    match o {
        Some(x) => x,
        None => d,
    }
}

/// The organ a manifest describes, where its text parses: its fields as
/// `organ_info` takes them, with the text itself.
pub fn organ_info_of(text: &str) -> (r: Option<DiscoveredOrganInfo>)
    ensures
        r is None <==> yaml_organ_summary(text@) is None,
        r matches Some(o) ==> ({
            let (n, v, t, d) = yaml_organ_summary(text@)->0;
            &&& o.name@ == opt_or(n, "unknown"@)
            &&& o.version@ == opt_or(v, "0.1.0"@)
            &&& o.organ_type@ == opt_or(t, "cli"@)
            &&& o.description@ == opt_or(d, Seq::empty())
            &&& o.compatible
            &&& o.raw_yaml@ == text@
        }),
{
    match read_organ_summary(text) {
        None => None,
        Some((n, v, t, d)) => {
            let n_ref: Option<&str> = match &n {
                Some(x) => Some(x.as_str()),
                None => None,
            };
            let v_ref: Option<&str> = match &v {
                Some(x) => Some(x.as_str()),
                None => None,
            };
            let t_ref: Option<&str> = match &t {
                Some(x) => Some(x.as_str()),
                None => None,
            };
            let d_ref: Option<&str> = match &d {
                Some(x) => Some(x.as_str()),
                None => None,
            };
            Some(organ_info(n_ref, v_ref, t_ref, d_ref, text))
        },
    }
}

/// Add an organ to the list unless one of the same name is listed.
pub fn list_organ(organs: &mut Vec<DiscoveredOrganInfo>, info: DiscoveredOrganInfo) -> (added: bool)
    ensures
        added == forall|i: int| 0 <= i < old(organs)@.len() ==> #[trigger] old(organs)@[i].name@ != info.name@,
        added ==> final(organs)@ == old(organs)@.push(info),
        !added ==> final(organs)@ == old(organs)@,
{
    let mut i: usize = 0;
    while i < organs.len()
        invariant
            i <= organs@.len(),
            organs@ == old(organs)@,
            forall|k: int| 0 <= k < i ==> #[trigger] organs@[k].name@ != info.name@,
        decreases organs@.len() - i,
    {
        if same_text(organs[i].name.as_str(), info.name.as_str()) {
            return false;
        }
        i = i + 1;
    }
    organs.push(info);
    true
}

} // verus!
