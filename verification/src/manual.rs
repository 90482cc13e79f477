//! Manual organ: splitting a MANUAL.md into `## ` sections, finding a
//! topic among them, and searching manual lines.

use vstd::prelude::*;
use serde_json::Value;
use crate::sdk::{OrganArgs, arg_value, extract_arg, has_key, op_of, opt_view};
use crate::state::{lemma_text_lt_asym, text_lt};
use crate::text::{
    ascii_lower, chars_of, contains_sub, contains_text, debug_strings, has_prefix, join_lines, join_nl,
    lines, lowercase, push_text, same_text, skip_chars, split_lines, string_from_chars, strings_debug,
    to_ascii_lower, to_lower, trim, trim_chars,
};

verus! {

/// The heading marker `"## "`.
pub open spec fn heading_marker() -> Seq<char> {
    seq!['#', '#', ' ']
}

/// The title given to text that stands before the first heading.
pub open spec fn header_title() -> Seq<char> {
    seq!['H', 'e', 'a', 'd', 'e', 'r']
}

/// The section that the lines `body` under `title` form when the next
/// heading (or the end) is reached: the body is the lines joined with
/// `'\n'` and trimmed; an untitled section is kept, as "Header", only
/// when its body is not empty.
pub open spec fn close_section(title: Seq<char>, body: Seq<Seq<char>>) -> Seq<(Seq<char>, Seq<char>)> {
    let b = trim(join_nl(body));
    if title.len() > 0 {
        seq![(title, b)]
    } else if b.len() > 0 {
        seq![(header_title(), b)]
    } else {
        Seq::empty()
    }
}

/// The sections of the remaining lines `rest`, given the current section's
/// title and the body lines collected so far.
pub open spec fn sections_from(title: Seq<char>, body: Seq<Seq<char>>, rest: Seq<Seq<char>>) -> Seq<(Seq<char>, Seq<char>)>
    decreases rest.len(),
{
    if rest.len() == 0 {
        close_section(title, body)
    } else if heading_marker().is_prefix_of(rest[0]) {
        close_section(title, body) + sections_from(
            trim(rest[0].skip(3)),
            Seq::empty(),
            rest.drop_first(),
        )
    } else {
        sections_from(title, body.push(rest[0]), rest.drop_first())
    }
}

/// The `(title, body)` sections of a Markdown manual: a line that starts
/// with `"## "` opens a section titled by the rest of the line, trimmed.
pub open spec fn manual_sections(content: Seq<char>) -> Seq<(Seq<char>, Seq<char>)> {
    sections_from(Seq::empty(), Seq::empty(), lines(content))
}

pub open spec fn pair_view(p: (String, String)) -> (Seq<char>, Seq<char>) {
    (p.0@, p.1@)
}

fn close_section_exec(title: &Vec<char>, body: &Vec<Vec<char>>, out: &mut Vec<(String, String)>)
    ensures
        final(out)@.map_values(|p: (String, String)| pair_view(p)) == old(out)@.map_values(
            |p: (String, String)| pair_view(p),
        ) + close_section(title@, body@.map_values(|l: Vec<char>| l@)),
{
    let joined = join_lines(body.as_slice());
    let b = trim_chars(joined.as_slice());
    let ghost before = old(out)@.map_values(|p: (String, String)| pair_view(p));
    if title.len() > 0 {
        out.push((string_from_chars(title.as_slice()), string_from_chars(b.as_slice())));
        assert(out@.map_values(|p: (String, String)| pair_view(p)) =~= before + seq![(title@, b@)]);
    } else if b.len() > 0 {
        proof {
            reveal_strlit("Header");
        }
        let h = String::from_str("Header");
        assert(h@ =~= header_title());
        out.push((h, string_from_chars(b.as_slice())));
        assert(out@.map_values(|p: (String, String)| pair_view(p)) =~= before + seq![
            (header_title(), b@),
        ]);
    } else {
        assert(out@.map_values(|p: (String, String)| pair_view(p)) =~= before);
    }
}

/// Split a Markdown manual into its `## ` sections, in order.
pub fn parse_manual_sections(content: &str) -> (r: Vec<(String, String)>)
    ensures
        r@.map_values(|p: (String, String)| pair_view(p)) == manual_sections(content@),
{
    let cs = chars_of(content);
    let ls = split_lines(cs.as_slice());
    let ghost lv = ls@.map_values(|l: Vec<char>| l@);
    let marker: Vec<char> = vec!['#', '#', ' '];
    assert(marker@ =~= heading_marker());
    let mut out: Vec<(String, String)> = Vec::new();
    let mut title: Vec<char> = Vec::new();
    let mut body: Vec<Vec<char>> = Vec::new();
    let mut i: usize = 0;
    assert(lv.skip(0) =~= lv);
    assert(body@.map_values(|l: Vec<char>| l@) =~= Seq::<Seq<char>>::empty());
    assert(out@.map_values(|p: (String, String)| pair_view(p)) =~= Seq::<(Seq<char>, Seq<char>)>::empty());
    while i < ls.len()
        invariant
            i <= ls@.len(),
            lv == ls@.map_values(|l: Vec<char>| l@),
            lv == lines(content@),
            marker@ == heading_marker(),
            manual_sections(content@) == out@.map_values(|p: (String, String)| pair_view(p))
                + sections_from(title@, body@.map_values(|l: Vec<char>| l@), lv.skip(i as int)),
        decreases ls@.len() - i,
    {
        assert(lv.skip(i as int).drop_first() =~= lv.skip(i + 1));
        assert(lv.skip(i as int)[0] == ls@[i as int]@);
        let line = &ls[i];
        if has_prefix(line.as_slice(), marker.as_slice()) {
            close_section_exec(&title, &body, &mut out);
            let rest = skip_chars(line.as_slice(), 3);
            title = trim_chars(rest.as_slice());
            body = Vec::new();
            assert(body@.map_values(|l: Vec<char>| l@) =~= Seq::<Seq<char>>::empty());
        } else {
            let ghost old_body = body@.map_values(|l: Vec<char>| l@);
            body.push(line.clone());
            assert(body@.map_values(|l: Vec<char>| l@) =~= old_body.push(lv[i as int]));
        }
        i = i + 1;
    }
    close_section_exec(&title, &body, &mut out);
    out
}


/// What is known of an organ's manual: its name, version and description
/// from its manifest, whether it has a MANUAL.md and where, and its
/// section titles.
#[derive(Debug)]
pub struct OrganManualEntry {
    pub name: String,
    pub version: String,
    pub description: String,
    pub manual_found: bool,
    pub path: Option<String>,
    pub topics: Vec<String>,
}

/// A manual line that matches a search.
#[derive(Debug)]
pub struct ManualMatch {
    pub organ: String,
    pub section: String,
    pub line: usize,
    pub snippet: String,
}

/// The section titles of a manual.
pub fn manual_topics(content: &str) -> (r: Vec<String>)
    ensures
        r@.map_values(|s: String| s@) == manual_sections(content@).map_values(
            |p: (Seq<char>, Seq<char>)| p.0,
        ),
{
    let secs = parse_manual_sections(content);
    let ghost sv = secs@.map_values(|p: (String, String)| pair_view(p));
    let mut out: Vec<String> = Vec::new();
    let mut i: usize = 0;
    while i < secs.len()
        invariant
            i <= secs@.len(),
            sv == secs@.map_values(|p: (String, String)| pair_view(p)),
            out@.map_values(|s: String| s@) == sv.map_values(|p: (Seq<char>, Seq<char>)| p.0).take(i as int),
        decreases secs@.len() - i,
    {
        let ghost before = out@.map_values(|s: String| s@);
        out.push(String::from_str(secs[i].0.as_str()));
        assert(out@.map_values(|s: String| s@) =~= before.push(sv[i as int].0));
        assert(sv.map_values(|p: (Seq<char>, Seq<char>)| p.0).take(i as int).push(sv[i as int].0) =~= sv.map_values(
            |p: (Seq<char>, Seq<char>)| p.0,
        ).take(i + 1));
        i = i + 1;
    }
    assert(sv.map_values(|p: (Seq<char>, Seq<char>)| p.0).take(secs@.len() as int) =~= sv.map_values(
        |p: (Seq<char>, Seq<char>)| p.0,
    ));
    out
}

/// What `serde_yaml::from_str` makes of an organ manifest's text read as a
/// JSON value: its `version` and its `description`, each where it is a
/// string; nothing where the text is no YAML.
pub uninterp spec fn yaml_manifest_info(text: Seq<char>) -> Option<(Option<Seq<char>>, Option<Seq<char>>)>;

pub open spec fn info_view(r: Option<(Option<String>, Option<String>)>) -> Option<(Option<Seq<char>>, Option<Seq<char>>)> {
    match r {
        Some((v, d)) => Some((opt_view(v), opt_view(d))),
        None => None,
    }
}

/// Parse a manifest with `serde_yaml::from_str` into a JSON value and pick
/// its `version` and `description` strings; the result is named
/// `yaml_manifest_info`.
#[verifier::external_body]
fn read_manifest_info(text: &str) -> (r: Option<(Option<String>, Option<String>)>)
    ensures
        info_view(r) == yaml_manifest_info(text@),
{
    let v: Value = serde_yaml::from_str(text).ok()?;
    let version = v.get("version").and_then(Value::as_str).map(String::from);
    let description = v.get("description").and_then(Value::as_str).map(String::from);
    Some((version, description))
}

/// The version a manifest gives, `0.3.0` where it gives none.
pub open spec fn entry_version(info: Option<(Option<Seq<char>>, Option<Seq<char>>)>) -> Seq<char> {
    match info {
        Some((Some(v), _)) => v,
        _ => "0.3.0"@,
    }
}

/// The description a manifest gives, empty where it gives none.
pub open spec fn entry_description(info: Option<(Option<Seq<char>>, Option<Seq<char>>)>) -> Seq<char> {
    match info {
        Some((_, Some(d))) => d,
        _ => Seq::empty(),
    }
}

/// An organ directory name that is listed: not empty, not hidden.
pub open spec fn listed_name(name: Seq<char>) -> bool {
    name.len() > 0 && name[0] != '.'
}

pub open spec fn opt_str_view(o: Option<&str>) -> Option<Seq<char>> {
    match o {
        Some(s) => Some(s@),
        None => None,
    }
}

/// The topics of a manual that may be missing.
pub open spec fn manual_titles(manual_text: Option<&str>) -> Seq<Seq<char>> {
    match manual_text {
        Some(m) => titles(manual_sections(m@)),
        None => Seq::empty(),
    }
}

/// What an entry built from a parsed manifest holds.
pub open spec fn entry_from(
    e: OrganManualEntry,
    name: Seq<char>,
    info: Option<(Option<Seq<char>>, Option<Seq<char>>)>,
    manual_text: Option<&str>,
    manual_path: Option<&str>,
) -> bool {
    &&& e.name@ == name
    &&& e.version@ == entry_version(info)
    &&& e.description@ == entry_description(info)
    &&& e.manual_found == manual_path is Some
    &&& opt_view(e.path) == opt_str_view(manual_path)
    &&& e.topics@.map_values(|s: String| s@) == manual_titles(manual_text)
}

/// The catalog entry for an organ directory, given what its manifest was
/// parsed into: none for an empty or hidden name; else the manifest's
/// version (`0.3.0` by default) and description (empty by default), the
/// manual's path where it has one, and the titles of the manual's sections.
pub fn organ_entry_with(
    name: &str,
    info: Option<(Option<String>, Option<String>)>,
    manual_text: Option<&str>,
    manual_path: Option<&str>,
) -> (r: Option<OrganManualEntry>)
    ensures
        r is None <==> !listed_name(name@),
        r matches Some(e) ==> entry_from(e, name@, info_view(info), manual_text, manual_path),
{
    let cs = chars_of(name);
    if cs.len() == 0 || cs[0] == '.' {
        return None;
    }
    let ghost iv = info_view(info);
    let (version, description) = match info {
        Some((v, d)) => (
            match v {
                Some(v) => v,
                None => String::from_str("0.3.0"),
            },
            match d {
                Some(d) => d,
                None => String::new(),
            },
        ),
        None => (String::from_str("0.3.0"), String::new()),
    };
    proof {
        reveal_strlit("0.3.0");
    }
    let topics = match manual_text {
        Some(m) => manual_topics(m),
        None => Vec::new(),
    };
    assert(topics@.map_values(|s: String| s@) =~= manual_titles(manual_text));
    let path = match manual_path {
        Some(p) => Some(String::from_str(p)),
        None => None,
    };
    Some(OrganManualEntry {
        name: String::from_str(name),
        version,
        description,
        manual_found: manual_path.is_some(),
        path,
        topics,
    })
}

/// The catalog entry for an organ directory from the text of its
/// `organ.yaml`, where it could be read, and of its manual: the manifest is
/// parsed with `serde_yaml` and the entry built as `organ_entry_with`
/// builds it.
pub fn organ_entry(
    name: &str,
    manifest_text: Option<&str>,
    manual_text: Option<&str>,
    manual_path: Option<&str>,
) -> (r: Option<OrganManualEntry>)
    ensures
        r is None <==> !listed_name(name@),
        r matches Some(e) ==> entry_from(
            e,
            name@,
            match manifest_text {
                Some(t) => yaml_manifest_info(t@),
                None => None,
            },
            manual_text,
            manual_path,
        ),
{
    let info = match manifest_text {
        Some(t) => read_manifest_info(t),
        None => None,
    };
    organ_entry_with(name, info, manual_text, manual_path)
}

/// The organs whose manuals are known, ordered by name, one entry per
/// name.
pub struct ManualCatalog {
    entries: Vec<OrganManualEntry>,
}

/// Names in strictly increasing order.
pub open spec fn sorted_names(es: Seq<OrganManualEntry>) -> bool {
    forall|i: int, j: int| 0 <= i < j < es.len() ==> text_lt(#[trigger] es[i].name@, #[trigger] es[j].name@)
}

/// `text_lt` is transitive.
pub proof fn lemma_text_lt_trans(a: Seq<char>, b: Seq<char>, c: Seq<char>)
    requires
        text_lt(a, b),
        text_lt(b, c),
    ensures
        text_lt(a, c),
    decreases a.len(),
{
    if a.len() > 0 && b.len() > 0 && c.len() > 0 && a[0] == b[0] && b[0] == c[0] {
        lemma_text_lt_trans(a.drop_first(), b.drop_first(), c.drop_first());
    }
}

/// Two different texts are ordered one way or the other.
pub proof fn lemma_text_lt_total(a: Seq<char>, b: Seq<char>)
    requires
        a != b,
    ensures
        text_lt(a, b) || text_lt(b, a),
    decreases a.len(),
{
    if a.len() > 0 && b.len() > 0 && a[0] == b[0] {
        if a.drop_first() == b.drop_first() {
            assert(a =~= seq![a[0]] + a.drop_first());
            assert(b =~= seq![b[0]] + b.drop_first());
        }
        lemma_text_lt_total(a.drop_first(), b.drop_first());
    } else if a.len() == 0 && b.len() == 0 {
        assert(a =~= b);
    }
}

/// No text comes before itself.
pub proof fn lemma_text_lt_irrefl(a: Seq<char>)
    ensures
        !text_lt(a, a),
    decreases a.len(),
{
    if a.len() > 0 {
        lemma_text_lt_irrefl(a.drop_first());
    }
}

fn name_lt(a: &str, b: &str) -> (r: bool)
    ensures
        r == text_lt(a@, b@),
{
    let x = chars_of(a);
    let y = chars_of(b);
    crate::state::text_less_than(x.as_slice(), y.as_slice())
}

impl ManualCatalog {
    /// The entries, in name order.
    pub closed spec fn view_entries(&self) -> Seq<OrganManualEntry> {
        self.entries@
    }

    /// The catalog's invariant: names strictly increasing.
    pub closed spec fn wf(&self) -> bool {
        sorted_names(self.entries@)
    }

    /// An empty catalog.
    pub fn new() -> (r: Self)
        ensures
            r.wf(),
            r.view_entries().len() == 0,
    {
        ManualCatalog { entries: Vec::new() }
    }

    /// Offer an entry: a new name is added in its place; a known name is
    /// replaced only when the new entry has a manual and the known one has
    /// none.
    pub fn offer(&mut self, entry: OrganManualEntry)
        requires
            old(self).wf(),
        ensures
            final(self).wf(),
            ({
                let es = old(self).view_entries();
                if exists|i: int| 0 <= i < es.len() && #[trigger] es[i].name@ == entry.name@ {
                    let i = choose|i: int| 0 <= i < es.len() && #[trigger] es[i].name@ == entry.name@;
                    final(self).view_entries() == if entry.manual_found && !es[i].manual_found {
                        es.update(i, entry)
                    } else {
                        es
                    }
                } else {
                    exists|k: int|
                        0 <= k <= es.len() && final(self).view_entries() == es.insert(k, entry)
                }
            }),
    {
        let ghost es = self.entries@;
        let mut pos: usize = 0;
        while pos < self.entries.len() && name_lt(self.entries[pos].name.as_str(), entry.name.as_str())
            invariant
                pos <= self.entries@.len(),
                self.entries@ == es,
                sorted_names(es),
                forall|k: int| 0 <= k < pos ==> text_lt(#[trigger] es[k].name@, entry.name@),
            decreases self.entries@.len() - pos,
        {
            pos = pos + 1;
        }
        if pos < self.entries.len() && same_text(self.entries[pos].name.as_str(), entry.name.as_str()) {
            proof {
                assert forall|j: int| 0 <= j < es.len() && es[j].name@ == entry.name@ implies j == pos by {
                    if j < pos {
                        lemma_text_lt_irrefl(entry.name@);
                    } else if j > pos {
                        lemma_text_lt_irrefl(es[j].name@);
                    }
                }
            }
            if entry.manual_found && !self.entries[pos].manual_found {
                self.entries.set(pos, entry);
                proof {
                    assert forall|i: int, j: int| 0 <= i < j < self.entries@.len() implies text_lt(
                        #[trigger] self.entries@[i].name@,
                        #[trigger] self.entries@[j].name@,
                    ) by {
                        assert(es[i].name@ == self.entries@[i].name@ || i == pos);
                        assert(es[j].name@ == self.entries@[j].name@ || j == pos);
                    }
                }
            }
        } else {
            proof {
                if pos < es.len() {
                    assert(!text_lt(es[pos as int].name@, entry.name@));
                    assert(es[pos as int].name@ != entry.name@);
                    lemma_text_lt_total(es[pos as int].name@, entry.name@);
                }
                assert forall|j: int| 0 <= j < es.len() implies es[j].name@ != entry.name@ by {
                    if j < pos {
                        lemma_text_lt_irrefl(entry.name@);
                    } else if j > pos {
                        lemma_text_lt_trans(entry.name@, es[pos as int].name@, es[j].name@);
                        lemma_text_lt_irrefl(entry.name@);
                    }
                }
            }
            let ghost e = entry;
            self.entries.insert(pos, entry);
            proof {
                let ns = self.entries@;
                assert(ns == es.insert(pos as int, e));
                assert forall|i: int, j: int| 0 <= i < j < ns.len() implies text_lt(
                    #[trigger] ns[i].name@,
                    #[trigger] ns[j].name@,
                ) by {
                    if j < pos {
                    } else if j == pos {
                    } else if i < pos {
                        assert(ns[j] == es[j - 1]);
                        lemma_text_lt_trans(es[i].name@, e.name@, es[pos as int].name@);
                        if j - 1 > pos {
                        }
                        if j - 1 == pos {
                        } else {
                            lemma_text_lt_trans(es[i].name@, es[pos as int].name@, es[j - 1].name@);
                        }
                    } else if i == pos {
                        assert(ns[j] == es[j - 1]);
                        if j - 1 > pos {
                            lemma_text_lt_trans(e.name@, es[pos as int].name@, es[j - 1].name@);
                        }
                    } else {
                        assert(ns[i] == es[i - 1]);
                        assert(ns[j] == es[j - 1]);
                    }
                }
                assert(0 <= pos <= es.len() && self.entries@ == es.insert(pos as int, e));
            }
        }
    }

    /// The entries, in name order.
    pub fn entries(&self) -> (r: &Vec<OrganManualEntry>)
        ensures
            r@ == self.view_entries(),
    {
        &self.entries
    }

    /// The entry for an organ, if known.
    pub fn get(&self, name: &str) -> (r: Option<&OrganManualEntry>)
        ensures
            match r {
                Some(e) => e.name@ == name@ && self.view_entries().contains(*e),
                None => forall|i: int| 0 <= i < self.view_entries().len() ==> #[trigger] self.view_entries()[i].name@ != name@,
            },
    {
        let mut i: usize = 0;
        while i < self.entries.len()
            invariant
                i <= self.entries@.len(),
                forall|k: int| 0 <= k < i ==> #[trigger] self.entries@[k].name@ != name@,
            decreases self.entries@.len() - i,
        {
            if same_text(self.entries[i].name.as_str(), name) {
                assert(self.entries@[i as int] == self.entries[i as int]);
                return Some(&self.entries[i]);
            }
            i = i + 1;
        }
        None
    }
}

/// Whether a section heading answers a topic: they are equal, or one
/// contains the other, compared in lowercase.
pub open spec fn heading_answers(heading: Seq<char>, topic: Seq<char>) -> bool {
    let h = lowercase(heading);
    let t = lowercase(topic);
    h == t || contains_sub(h, t) || contains_sub(t, h)
}

/// The first section whose heading answers the topic.
pub fn find_topic(sections: &Vec<(String, String)>, topic: &str) -> (r: Option<usize>)
    ensures
        match r {
            Some(i) => i < sections@.len() && heading_answers(sections@[i as int].0@, topic@) && forall|k: int|
                0 <= k < i ==> !heading_answers(#[trigger] sections@[k].0@, topic@),
            None => forall|k: int| 0 <= k < sections@.len() ==> !heading_answers(#[trigger] sections@[k].0@, topic@),
        },
{
    let t = to_lower(topic);
    let mut i: usize = 0;
    while i < sections.len()
        invariant
            i <= sections@.len(),
            t@ == lowercase(topic@),
            forall|k: int| 0 <= k < i ==> !heading_answers(#[trigger] sections@[k].0@, topic@),
        decreases sections@.len() - i,
    {
        let h = to_lower(sections[i].0.as_str());
        if same_text(h.as_str(), t.as_str()) || contains_text(h.as_str(), t.as_str()) || contains_text(
            t.as_str(),
            h.as_str(),
        ) {
            return Some(i);
        }
        i = i + 1;
    }
    None
}

/// What a manual read gives: the topic found, if one was asked for, and
/// the text.
#[derive(Debug)]
pub struct ManualReading {
    pub topic: Option<String>,
    pub content: String,
}

/// The titles of a list of sections.
pub open spec fn titles(secs: Seq<(Seq<char>, Seq<char>)>) -> Seq<Seq<char>> {
    secs.map_values(|p: (Seq<char>, Seq<char>)| p.0)
}

/// Read a manual: all of it without a topic or for `all` (in any ASCII
/// case), else the first section that answers the topic, or an error
/// listing the topics there are.
pub fn read_manual(organ: &str, content: &str, topic: Option<&str>) -> (r: Result<ManualReading, String>)
    ensures
        match topic {
            None => r matches Ok(m) && m.topic is None && m.content@ == content@,
            Some(t) => if ascii_lower(t@) == ascii_lower("all"@) {
                r matches Ok(m) && m.topic is None && m.content@ == content@
            } else {
                let secs = manual_sections(content@);
                if exists|i: int| 0 <= i < secs.len() && heading_answers(#[trigger] secs[i].0, t@) {
                    r matches Ok(m) && m.topic matches Some(h) && exists|i: int|
                        0 <= i < secs.len() && heading_answers(#[trigger] secs[i].0, t@) && (forall|k: int|
                            0 <= k < i ==> !heading_answers(#[trigger] secs[k].0, t@)) && h@ == secs[i].0
                            && m.content@ == secs[i].1
                } else {
                    r matches Err(e) && e@ == "Topic '"@ + t@ + "' not found in organ '"@ + organ@
                        + "'. Available topics: "@ + debug_strings(titles(secs))
                }
            },
        },
{
    match topic {
        None => Ok(ManualReading { topic: None, content: String::from_str(content) }),
        Some(t) => read_topic(organ, content, t),
    }
}

fn read_topic(organ: &str, content: &str, t: &str) -> (r: Result<ManualReading, String>)
    ensures
        if ascii_lower(t@) == ascii_lower("all"@) {
            r matches Ok(m) && m.topic is None && m.content@ == content@
        } else {
            let secs = manual_sections(content@);
            if exists|i: int| 0 <= i < secs.len() && heading_answers(#[trigger] secs[i].0, t@) {
                r matches Ok(m) && m.topic matches Some(h) && exists|i: int|
                    0 <= i < secs.len() && heading_answers(#[trigger] secs[i].0, t@) && (forall|k: int|
                        0 <= k < i ==> !heading_answers(#[trigger] secs[k].0, t@)) && h@ == secs[i].0
                        && m.content@ == secs[i].1
            } else {
                r matches Err(e) && e@ == "Topic '"@ + t@ + "' not found in organ '"@ + organ@
                    + "'. Available topics: "@ + debug_strings(titles(secs))
            }
        },
{
    let tl = to_ascii_lower(t);
    let all = to_ascii_lower("all");
    if tl == all {
        return Ok(ManualReading { topic: None, content: String::from_str(content) });
    }
    let secs = parse_manual_sections(content);
    let ghost sv = secs@.map_values(|p: (String, String)| pair_view(p));
    match find_topic(&secs, t) {
        Some(i) => {
            assert(sv == manual_sections(content@));
            assert(sv[i as int] == pair_view(secs@[i as int]));
            assert(heading_answers(sv[i as int].0, t@));
            assert forall|k: int| 0 <= k < i implies !heading_answers(#[trigger] sv[k].0, t@) by {
                assert(sv[k] == pair_view(secs@[k]));
            }
            Ok(ManualReading {
                topic: Some(String::from_str(secs[i].0.as_str())),
                content: String::from_str(secs[i].1.as_str()),
            })
        },
        None => {
            assert(sv == manual_sections(content@));
            assert forall|k: int| 0 <= k < sv.len() implies !heading_answers(#[trigger] sv[k].0, t@) by {
                assert(sv[k] == pair_view(secs@[k]));
            }
            let mut names: Vec<String> = Vec::new();
            let mut k: usize = 0;
            while k < secs.len()
                invariant
                    k <= secs@.len(),
                    sv == secs@.map_values(|p: (String, String)| pair_view(p)),
                    names@.map_values(|s: String| s@) == titles(sv).take(k as int),
                decreases secs@.len() - k,
            {
                let ghost before = names@.map_values(|s: String| s@);
                names.push(String::from_str(secs[k].0.as_str()));
                assert(names@.map_values(|s: String| s@) =~= before.push(sv[k as int].0));
                assert(titles(sv).take(k as int).push(sv[k as int].0) =~= titles(sv).take(k + 1));
                k = k + 1;
            }
            assert(titles(sv).take(secs@.len() as int) =~= titles(sv));
            let listed = strings_debug(&names);
            let mut e = String::new();
            push_text(&mut e, "Topic '");
            push_text(&mut e, t);
            push_text(&mut e, "' not found in organ '");
            push_text(&mut e, organ);
            push_text(&mut e, "'. Available topics: ");
            push_text(&mut e, listed.as_str());
            Err(e)
        },
    }
}

/// The error for an organ without a manual entry.
pub fn organ_missing(organ: &str, names: &Vec<String>) -> (r: String)
    ensures
        r@ == "Organ '"@ + organ@ + "' not found. Available organs: "@ + debug_strings(
            names@.map_values(|s: String| s@),
        ),
{
    let listed = strings_debug(names);
    let mut e = String::new();
    push_text(&mut e, "Organ '");
    push_text(&mut e, organ);
    push_text(&mut e, "' not found. Available organs: ");
    push_text(&mut e, listed.as_str());
    e
}

/// The error for an organ whose manual file is missing.
pub fn manual_missing(organ: &str) -> (r: String)
    ensures
        r@ == "Organ '"@ + organ@ + "' has no MANUAL.md"@,
{
    let mut e = String::new();
    push_text(&mut e, "Organ '");
    push_text(&mut e, organ);
    push_text(&mut e, "' has no MANUAL.md");
    e
}

/// The matches of a search in one manual, with the section each line
/// stands in (`Header` before the first heading), numbered from 1.
pub open spec fn search_from(organ: Seq<char>, section: Seq<char>, ls: Seq<Seq<char>>, first: int, q: Seq<char>) -> Seq<(Seq<char>, Seq<char>, int, Seq<char>)>
    decreases ls.len(),
{
    if ls.len() == 0 {
        Seq::empty()
    } else {
        let l = ls[0];
        let sec = if heading_marker().is_prefix_of(l) {
            trim(l.skip(3))
        } else {
            section
        };
        let here: Seq<(Seq<char>, Seq<char>, int, Seq<char>)> = if contains_sub(lowercase(l), q) {
            seq![(organ, sec, first, trim(l))]
        } else {
            Seq::empty()
        };
        here + search_from(organ, sec, ls.drop_first(), first + 1, q)
    }
}

/// The matches of a search are the lines whose lowercase contains the
/// (lowercased) query, each once, numbered from `first`, with the line
/// trimmed as its snippet, in line order.
pub proof fn lemma_search_lines(
    organ: Seq<char>,
    section: Seq<char>,
    ls: Seq<Seq<char>>,
    first: int,
    q: Seq<char>,
)
    ensures
        ({
            let r = search_from(organ, section, ls, first, q);
            &&& forall|k: int|
                0 <= k < ls.len() ==> (contains_sub(lowercase(#[trigger] ls[k]), q) <==> exists|i: int|
                    0 <= i < r.len() && r[i].2 == first + k)
            &&& forall|i: int|
                0 <= i < r.len() ==> first <= #[trigger] r[i].2 < first + ls.len() && r[i].0 == organ && r[i].3
                    == trim(ls[r[i].2 - first]) && contains_sub(lowercase(ls[r[i].2 - first]), q)
            &&& forall|i: int, j: int| 0 <= i < j < r.len() ==> #[trigger] r[i].2 < #[trigger] r[j].2
        }),
    decreases ls.len(),
{
    if ls.len() > 0 {
        let l = ls[0];
        let sec = if heading_marker().is_prefix_of(l) {
            trim(l.skip(3))
        } else {
            section
        };
        let tail = search_from(organ, sec, ls.drop_first(), first + 1, q);
        lemma_search_lines(organ, sec, ls.drop_first(), first + 1, q);
        let r = search_from(organ, section, ls, first, q);
        let here: Seq<(Seq<char>, Seq<char>, int, Seq<char>)> = if contains_sub(lowercase(ls[0]), q) {
            seq![(organ, sec, first, trim(l))]
        } else {
            Seq::empty()
        };
        assert(r == here + tail);
        let h = here.len() as int;
        assert forall|i: int| 0 <= i < r.len() implies first <= #[trigger] r[i].2 < first + ls.len() && r[i].0 == organ
            && r[i].3 == trim(ls[r[i].2 - first]) && contains_sub(lowercase(ls[r[i].2 - first]), q) by {
            if i >= h {
                assert(r[i] == tail[i - h]);
                assert(ls.drop_first()[tail[i - h].2 - (first + 1)] == ls[r[i].2 - first]);
            }
        }
        assert forall|k: int|
            0 <= k < ls.len() implies (contains_sub(lowercase(#[trigger] ls[k]), q) <==> exists|i: int|
            0 <= i < r.len() && r[i].2 == first + k) by {
            if k == 0 {
                if contains_sub(lowercase(ls[0]), q) {
                    assert(r[0].2 == first);
                }
                if exists|i: int| 0 <= i < r.len() && r[i].2 == first + k {
                    let i = choose|i: int| 0 <= i < r.len() && r[i].2 == first + k;
                    if i >= h {
                        assert(r[i] == tail[i - h]);
                    }
                }
            } else {
                assert(ls.drop_first()[k - 1] == ls[k]);
                if contains_sub(lowercase(ls[k]), q) {
                    let i = choose|i: int| 0 <= i < tail.len() && tail[i].2 == first + 1 + (k - 1);
                    assert(r[i + h] == tail[i]);
                }
                if exists|i: int| 0 <= i < r.len() && r[i].2 == first + k {
                    let i = choose|i: int| 0 <= i < r.len() && r[i].2 == first + k;
                    assert(i >= h);
                    assert(r[i] == tail[i - h]);
                }
            }
        }
        assert forall|i: int, j: int| 0 <= i < j < r.len() implies #[trigger] r[i].2 < #[trigger] r[j].2 by {
            assert(r[j] == tail[j - h]);
            if i >= h {
                assert(r[i] == tail[i - h]);
            }
        }
    }
}

/// A manual search ignores case: the matches are exactly the lines of the
/// manual whose lowercase contains the lowercased query, in order, each
/// with its line number (from 1) and the line trimmed.
pub proof fn lemma_search_ignores_case(organ: Seq<char>, content: Seq<char>, query: Seq<char>)
    ensures
        ({
            let ls = lines(content);
            let r = search_from(organ, header_title(), ls, 1, lowercase(query));
            &&& forall|k: int|
                0 <= k < ls.len() ==> (contains_sub(lowercase(#[trigger] ls[k]), lowercase(query)) <==> exists|i: int|
                    0 <= i < r.len() && r[i].2 == k + 1)
            &&& forall|i: int|
                0 <= i < r.len() ==> 1 <= #[trigger] r[i].2 <= ls.len() && r[i].3 == trim(ls[r[i].2 - 1])
        }),
{
    lemma_search_lines(organ, header_title(), lines(content), 1, lowercase(query));
}

pub open spec fn match_view(m: ManualMatch) -> (Seq<char>, Seq<char>, int, Seq<char>) {
    (m.organ@, m.section@, m.line as int, m.snippet@)
}

/// Search one organ's manual for a query, ignoring case.
pub fn search_manual(organ: &str, content: &str, query: &str) -> (r: Vec<ManualMatch>)
    ensures
        r@.map_values(|m: ManualMatch| match_view(m)) == search_from(
            organ@,
            header_title(),
            lines(content@),
            1,
            lowercase(query@),
        ),
        forall|k: int|
            0 <= k < lines(content@).len() ==> (contains_sub(lowercase(#[trigger] lines(content@)[k]), lowercase(query@))
                <==> exists|i: int| 0 <= i < r@.len() && r@[i].line == k + 1),
        forall|i: int|
            0 <= i < r@.len() ==> 1 <= #[trigger] r@[i].line <= lines(content@).len() && r@[i].organ@ == organ@
                && r@[i].snippet@ == trim(lines(content@)[r@[i].line - 1]),
{
    let q = to_lower(query);
    let cs = chars_of(content);
    let ls = split_lines(cs.as_slice());
    let ghost lv = ls@.map_values(|l: Vec<char>| l@);
    let marker: Vec<char> = vec!['#', '#', ' '];
    assert(marker@ =~= heading_marker());
    proof {
        reveal_strlit("Header");
    }
    let mut section = chars_of("Header");
    assert(section@ =~= header_title());
    let mut out: Vec<ManualMatch> = Vec::new();
    let mut i: usize = 0;
    assert(lv.skip(0) =~= lv);
    while i < ls.len()
        invariant
            i <= ls@.len(),
            lv == ls@.map_values(|l: Vec<char>| l@),
            marker@ == heading_marker(),
            q@ == lowercase(query@),
            search_from(organ@, header_title(), lv, 1, q@) == out@.map_values(|m: ManualMatch| match_view(m))
                + search_from(organ@, section@, lv.skip(i as int), i + 1, q@),
        decreases ls@.len() - i,
    {
        assert(lv.skip(i as int).drop_first() =~= lv.skip(i + 1));
        assert(lv.skip(i as int)[0] == ls@[i as int]@);
        let line = &ls[i];
        if has_prefix(line.as_slice(), marker.as_slice()) {
            let rest = skip_chars(line.as_slice(), 3);
            section = trim_chars(rest.as_slice());
        }
        let ls_text = string_from_chars(line.as_slice());
        let low = to_lower(ls_text.as_str());
        if contains_text(low.as_str(), q.as_str()) {
            let ghost before = out@.map_values(|m: ManualMatch| match_view(m));
            let snippet = trim_chars(line.as_slice());
            let m = ManualMatch {
                organ: String::from_str(organ),
                section: string_from_chars(section.as_slice()),
                line: i + 1,
                snippet: string_from_chars(snippet.as_slice()),
            };
            out.push(m);
            assert(out@.map_values(|m: ManualMatch| match_view(m)) =~= before + seq![
                (organ@, section@, i + 1, trim(lv[i as int])),
            ]);
        }
        i = i + 1;
    }
    assert(lv.skip(i as int) =~= Seq::<Seq<char>>::empty());
    proof {
        let mv = out@.map_values(|m: ManualMatch| match_view(m));
        lemma_search_lines(organ@, header_title(), lv, 1, q@);
        assert forall|i: int| 0 <= i < out@.len() implies #[trigger] out@[i].line == mv[i].2 && out@[i].organ@ == mv[i].0
            && out@[i].snippet@ == mv[i].3 by {}
        assert forall|k: int|
            0 <= k < lv.len() implies (contains_sub(lowercase(#[trigger] lv[k]), q@) <==> exists|i: int|
            0 <= i < out@.len() && out@[i].line == k + 1) by {
            if contains_sub(lowercase(lv[k]), q@) {
                let i = choose|i: int| 0 <= i < mv.len() && mv[i].2 == 1 + k;
                assert(out@[i].line == mv[i].2);
            }
            if exists|i: int| 0 <= i < out@.len() && out@[i].line == k + 1 {
                let i = choose|i: int| 0 <= i < out@.len() && out@[i].line == k + 1;
                assert(mv[i].2 == out@[i].line);
            }
        }
    }
    out
}

/// What a manual request asks for.
#[derive(Debug)]
pub enum ManualOp {
    List,
    Read { organ: String, topic: Option<String> },
    Search { query: String },
    Invalid { message: String },
}

pub open spec fn first_of2(a: crate::sdk::ArgsView, k1: Seq<char>, k2: Seq<char>) -> Option<Seq<char>> {
    match arg_value(a, k1) {
        Some(v) => Some(v),
        None => arg_value(a, k2),
    }
}

pub open spec fn or_empty(o: Option<Seq<char>>) -> Seq<char> {
    match o {
        Some(v) => v,
        None => Seq::empty(),
    }
}

/// A manual request as values: a tag (0 list, 1 read, 2 search, 3 error),
/// the organ or query or message, and the topic.
pub open spec fn manual_request_of(a: crate::sdk::ArgsView) -> (int, Seq<char>, Option<Seq<char>>) {
    let op = lowercase(op_of(a));
    if op == "manual_list"@ || op == "list"@ {
        (0, Seq::empty(), None)
    } else if op == "manual_read"@ || op == "read"@ {
        let organ = or_empty(first_of2(a, "organ"@, "name"@));
        if organ.len() == 0 {
            (3, "Missing required parameter: 'organ'"@, None)
        } else {
            (1, organ, first_of2(a, "topic"@, "section"@))
        }
    } else if op == "manual_search"@ || op == "search"@ {
        let q = or_empty(first_of2(a, "query"@, "q"@));
        if q.len() == 0 {
            (3, "Missing required parameter: 'query'"@, None)
        } else {
            (2, q, None)
        }
    } else if has_key(a, "organ"@) {
        (1, or_empty(arg_value(a, "organ"@)), arg_value(a, "topic"@))
    } else if has_key(a, "query"@) {
        (2, or_empty(arg_value(a, "query"@)), None)
    } else if op.len() == 0 || op == "help"@ {
        (0, Seq::empty(), None)
    } else {
        (3, "Unknown tool or action: "@ + op, None)
    }
}

pub open spec fn manual_op_view(m: ManualOp) -> (int, Seq<char>, Option<Seq<char>>) {
    match m {
        ManualOp::List => (0, Seq::empty(), None),
        ManualOp::Read { organ, topic } => (1, organ@, opt_view(topic)),
        ManualOp::Search { query } => (2, query@, None),
        ManualOp::Invalid { message } => (3, message@, None),
    }
}

fn first_arg2(args: &OrganArgs, k1: &str, k2: &str) -> (r: Option<String>)
    ensures
        opt_view(r) == first_of2(args@, k1@, k2@),
{
    match extract_arg(args, k1) {
        Some(v) => Some(v),
        None => extract_arg(args, k2),
    }
}

fn value_or_empty(o: Option<String>) -> (r: String)
    ensures
        r@ == or_empty(opt_view(o)),
{
    proof {
        reveal_strlit("");
    }
    match o {
        Some(v) => v,
        None => String::new(),
    }
}

/// Route a manual request.
pub fn manual_route(args: &OrganArgs) -> (r: ManualOp)
    ensures
        manual_op_view(r) == manual_request_of(args@),
{
    let op = to_lower(args.op());
    let o = op.as_str();
    if same_text(o, "manual_list") || same_text(o, "list") {
        ManualOp::List
    } else if same_text(o, "manual_read") || same_text(o, "read") {
        let organ = value_or_empty(first_arg2(args, "organ", "name"));
        if chars_of(organ.as_str()).len() == 0 {
            ManualOp::Invalid { message: String::from_str("Missing required parameter: 'organ'") }
        } else {
            ManualOp::Read { organ, topic: first_arg2(args, "topic", "section") }
        }
    } else if same_text(o, "manual_search") || same_text(o, "search") {
        let q = value_or_empty(first_arg2(args, "query", "q"));
        if chars_of(q.as_str()).len() == 0 {
            ManualOp::Invalid { message: String::from_str("Missing required parameter: 'query'") }
        } else {
            ManualOp::Search { query: q }
        }
    } else if args.has("organ") {
        ManualOp::Read { organ: value_or_empty(extract_arg(args, "organ")), topic: extract_arg(args, "topic") }
    } else if args.has("query") {
        ManualOp::Search { query: value_or_empty(extract_arg(args, "query")) }
    } else if chars_of(o).len() == 0 || same_text(o, "help") {
        ManualOp::List
    } else {
        let mut m = String::new();
        push_text(&mut m, "Unknown tool or action: ");
        push_text(&mut m, o);
        ManualOp::Invalid { message: m }
    }
}

} // verus!
