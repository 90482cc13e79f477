//! State organ: agent cards, Markdown files that open with a `---`
//! frontmatter block holding the agent's mode, organs and state.

use vstd::prelude::*;
use crate::dict::StrMap;
use crate::text::{
    chars_eq, chars_of, find_char_idx, find_sub, find_sub_idx, has_prefix, lemma_find_char,
    lemma_find_sub_bound, lines, skip_chars,
    slice_chars, split_lines, split_once, string_from_chars, strip_leading, strip_leading_chars, trim,
    trim_chars,
};

verus! {

/// The byte order mark that may open a card.
pub open spec fn bom() -> char {
    '\u{feff}'
}

/// The scanner state while reading frontmatter lines: inside the `state:`
/// block, inside the `organs:` list, the state entries, the organs, the mode.
pub type CardScan = (bool, bool, Map<Seq<char>, Seq<char>>, Seq<Seq<char>>, Seq<char>);

/// Whether a raw line starts with a space or a tab.
pub open spec fn indented(line: Seq<char>) -> bool {
    line.len() > 0 && (line[0] == ' ' || line[0] == '\t')
}

/// One frontmatter line read by the card parser.
pub open spec fn scan_line(st: CardScan, line: Seq<char>) -> CardScan {
    let (in_state, in_organs, dict, organs, mode) = st;
    let t = trim(line);
    if "state:"@.is_prefix_of(t) {
        (true, false, dict, organs, mode)
    } else if "organs:"@.is_prefix_of(t) {
        (false, true, dict, organs, mode)
    } else if in_state && split_once(t, ':') is Some && indented(line) {
        let kv = split_once(t, ':')->0;
        (true, in_organs, dict.insert(trim(kv.0), trim(kv.1)), organs, mode)
    } else {
        let in_state2 = if in_state && split_once(t, ':') is Some {
            false
        } else {
            in_state
        };
        if in_organs && seq!['-'].is_prefix_of(t) {
            (in_state2, true, dict, organs.push(trim(strip_leading(t, '-'))), mode)
        } else {
            let in_organs2 = in_organs && indented(line);
            let mode2 = match split_once(t, ':') {
                Some(kv) => if trim(kv.0) == "mode"@ {
                    trim(kv.1)
                } else {
                    mode
                },
                None => mode,
            };
            (in_state2, in_organs2, dict, organs, mode2)
        }
    }
}

/// The scanner state after reading `ls` from `st`.
pub open spec fn scan_lines(st: CardScan, ls: Seq<Seq<char>>) -> CardScan
    decreases ls.len(),
{
    if ls.len() == 0 {
        st
    } else {
        scan_lines(scan_line(st, ls[0]), ls.drop_first())
    }
}

/// A parsed card: the state entries, the organs, the mode and the body.
pub type CardView = (Map<Seq<char>, Seq<char>>, Seq<Seq<char>>, Seq<char>, Seq<char>);

/// The card text with its leading byte order marks removed.
pub open spec fn card_text(content: Seq<char>) -> Seq<char> {
    strip_leading(content, bom())
}

/// Where the frontmatter ends: the index, in the text after the opening
/// `"---"`, of the first `"\n---"`; `None` when the card has no frontmatter.
pub open spec fn frontmatter_end(content: Seq<char>) -> Option<int> {
    let tr = card_text(content);
    if !"---"@.is_prefix_of(tr) {
        None
    } else {
        find_sub(tr.skip(3), "\n---"@)
    }
}

/// What `parse_agent_card` returns for `content`: without frontmatter, no
/// state, no organs, an empty mode and the whole text as body; otherwise
/// what scanning the frontmatter lines gives (the mode defaulting to
/// "active") and the text after the closing `"\n---"`, without its
/// leading newlines and then its leading carriage returns.
pub open spec fn parsed_card(content: Seq<char>) -> CardView {
    let tr = card_text(content);
    match frontmatter_end(content) {
        None => (Map::empty(), Seq::empty(), Seq::empty(), tr),
        Some(e) => {
            let rest = tr.skip(3);
            let st = scan_lines(
                (false, false, Map::empty(), Seq::empty(), "active"@),
                lines(rest.take(e)),
            );
            (st.2, st.3, st.4, strip_leading(strip_leading(rest.skip(e + 4), '\n'), '\r'))
        },
    }
}

pub open spec fn strings_view(v: Seq<String>) -> Seq<Seq<char>> {
    v.map_values(|s: String| s@)
}

fn scan_step(
    line: &Vec<char>,
    in_state: &mut bool,
    in_organs: &mut bool,
    dict: &mut StrMap,
    organs: &mut Vec<String>,
    mode: &mut Vec<char>,
)
    ensures
        ((*final(in_state), *final(in_organs), final(dict)@, strings_view(final(organs)@), final(mode)@)
            == scan_line(
            (*old(in_state), *old(in_organs), old(dict)@, strings_view(old(organs)@), old(mode)@),
            line@,
        )),
{
    let t = trim_chars(line.as_slice());
    let state_kw = chars_of("state:");
    let organs_kw = chars_of("organs:");
    let is_indented = line.len() > 0 && (line[0] == ' ' || line[0] == '\t');
    assert(is_indented == indented(line@));
    let colon = find_char_idx(t.as_slice(), ':');
    proof {
        lemma_find_char(t@, ':');
    }
    if has_prefix(t.as_slice(), state_kw.as_slice()) {
        *in_state = true;
        *in_organs = false;
        return ;
    }
    if has_prefix(t.as_slice(), organs_kw.as_slice()) {
        *in_state = false;
        *in_organs = true;
        return ;
    }
    if *in_state && colon.is_some() && is_indented {
        let c = colon.unwrap();
        let tl = t.len();
        assert(c < tl);
        let k = slice_chars(t.as_slice(), 0, c);
        let v = skip_chars(t.as_slice(), c + 1);
        assert(k@ =~= t@.take(c as int));
        let kt = trim_chars(k.as_slice());
        let vt = trim_chars(v.as_slice());
        dict.insert(string_from_chars(kt.as_slice()), string_from_chars(vt.as_slice()));
        return ;
    }
    if *in_state && colon.is_some() {
        *in_state = false;
    }
    let dash: Vec<char> = vec!['-'];
    assert(dash@ =~= seq!['-']);
    if *in_organs && has_prefix(t.as_slice(), dash.as_slice()) {
        let stripped = strip_leading_chars(t.as_slice(), '-');
        let name = trim_chars(stripped.as_slice());
        let ghost before = strings_view(organs@);
        organs.push(string_from_chars(name.as_slice()));
        assert(strings_view(organs@) =~= before.push(name@));
        return ;
    }
    *in_organs = *in_organs && is_indented;
    match colon {
        Some(c) => {
            let tl = t.len();
            assert(c < tl);
            let k = slice_chars(t.as_slice(), 0, c);
            assert(k@ =~= t@.take(c as int));
            let kt = trim_chars(k.as_slice());
            let mode_kw = chars_of("mode");
            if chars_eq(kt.as_slice(), mode_kw.as_slice()) {
                let v = skip_chars(t.as_slice(), c + 1);
                *mode = trim_chars(v.as_slice());
            }
        },
        None => {},
    }
}

/// Parse an agent card into its state entries, organs, mode and body.
pub fn parse_agent_card(content: &str) -> (r: (StrMap, Vec<String>, String, String))
    ensures
        (r.0@, strings_view(r.1@), r.2@, r.3@) == parsed_card(content@),
{
    let cs = chars_of(content);
    let tr = strip_leading_chars(cs.as_slice(), '\u{feff}');
    let dashes = chars_of("---");
    let closing = chars_of("\n---");
    proof {
        reveal_strlit("---");
        reveal_strlit("\n---");
    }
    if !has_prefix(tr.as_slice(), dashes.as_slice()) {
        let organs: Vec<String> = Vec::new();
        assert(strings_view(organs@) =~= Seq::<Seq<char>>::empty());
        return (StrMap::new(), organs, String::new(), string_from_chars(tr.as_slice()));
    }
    let rest = skip_chars(tr.as_slice(), 3);
    let end = find_sub_idx(rest.as_slice(), closing.as_slice());
    match end {
        None => {
            let organs: Vec<String> = Vec::new();
            assert(strings_view(organs@) =~= Seq::<Seq<char>>::empty());
            (StrMap::new(), organs, String::new(), string_from_chars(tr.as_slice()))
        },
        Some(e) => {
            proof {
                assert(find_sub(rest@, closing@) == Some(e as int));
            }
            assert(e + 4 <= rest@.len()) by {
                lemma_find_sub_bound(rest@, closing@);
            }
            let rl = rest.len();
            assert(e + 4 <= rl);
            let fm = slice_chars(rest.as_slice(), 0, e);
            assert(fm@ =~= rest@.take(e as int));
            let after = skip_chars(rest.as_slice(), e + 4);
            let b1 = strip_leading_chars(after.as_slice(), '\n');
            let body = strip_leading_chars(b1.as_slice(), '\r');
            let ls = split_lines(fm.as_slice());
            let ghost lv = ls@.map_values(|l: Vec<char>| l@);
            let mut in_state = false;
            let mut in_organs = false;
            let mut dict = StrMap::new();
            let mut organs: Vec<String> = Vec::new();
            let mut mode = chars_of("active");
            let ghost init: CardScan = (false, false, Map::empty(), Seq::empty(), "active"@);
            assert(strings_view(organs@) =~= Seq::<Seq<char>>::empty());
            assert(lv.skip(0) =~= lv);
            let mut i: usize = 0;
            while i < ls.len()
                invariant
                    i <= ls@.len(),
                    lv == ls@.map_values(|l: Vec<char>| l@),
                    scan_lines(init, lv) == scan_lines(
                        (in_state, in_organs, dict@, strings_view(organs@), mode@),
                        lv.skip(i as int),
                    ),
                decreases ls@.len() - i,
            {
                assert(lv.skip(i as int).drop_first() =~= lv.skip(i + 1));
                scan_step(&ls[i], &mut in_state, &mut in_organs, &mut dict, &mut organs, &mut mode);
                i = i + 1;
            }
            assert(lv.skip(i as int) =~= Seq::<Seq<char>>::empty());
            (dict, organs, string_from_chars(mode.as_slice()), string_from_chars(body.as_slice()))
        },
    }
}


/// The scanner state while rewriting frontmatter lines: the lines written,
/// whether a `mode:` line was seen, inside the `state:` block, the state
/// keys that were rewritten.
pub type UpdateScan = (Seq<Seq<char>>, bool, bool, Set<Seq<char>>);

/// The value of the first update for `key`, if any.
pub open spec fn first_update(ups: Seq<(Seq<char>, Seq<char>)>, key: Seq<char>) -> Option<Seq<char>>
    decreases ups.len(),
{
    if ups.len() == 0 {
        None
    } else if ups[0].0 == key {
        Some(ups[0].1)
    } else {
        first_update(ups.drop_first(), key)
    }
}

/// The frontmatter line `mode: <m>`.
pub open spec fn mode_line(m: Seq<char>) -> Seq<char> {
    "mode: "@ + m
}

/// The frontmatter line `  <key>: <value>` of the state block.
pub open spec fn state_line(key: Seq<char>, value: Seq<char>) -> Seq<char> {
    "  "@ + key + ": "@ + value
}

/// One frontmatter line read by the card updater: a `mode:` line is
/// replaced by the new mode (when one is given); inside the state block a
/// `key:` line is replaced by the first update for that key.
pub open spec fn update_line(
    st: UpdateScan,
    line: Seq<char>,
    new_mode: Option<Seq<char>>,
    ups: Seq<(Seq<char>, Seq<char>)>,
) -> UpdateScan {
    let (out, has_mode, in_state, upd) = st;
    let t = trim(line);
    if "mode:"@.is_prefix_of(t) {
        let l = match new_mode {
            Some(m) => mode_line(m),
            None => line,
        };
        (out.push(l), true, in_state, upd)
    } else if "state:"@.is_prefix_of(t) {
        (out.push(line), has_mode, true, upd)
    } else if in_state {
        match split_once(t, ':') {
            Some(kv) => {
                let key = trim(kv.0);
                match first_update(ups, key) {
                    Some(nv) => (out.push(state_line(key, nv)), has_mode, in_state, upd.insert(key)),
                    None => (out.push(line), has_mode, in_state, upd),
                }
            },
            None => (out.push(line), has_mode, indented(line), upd),
        }
    } else {
        (out.push(line), has_mode, in_state, upd)
    }
}

/// The updater state after reading `ls` from `st`.
pub open spec fn update_lines(
    st: UpdateScan,
    ls: Seq<Seq<char>>,
    new_mode: Option<Seq<char>>,
    ups: Seq<(Seq<char>, Seq<char>)>,
) -> UpdateScan
    decreases ls.len(),
{
    if ls.len() == 0 {
        st
    } else {
        update_lines(update_line(st, ls[0], new_mode, ups), ls.drop_first(), new_mode, ups)
    }
}

/// The state lines appended for the updates whose key no line carried, in
/// the order of the updates.
pub open spec fn appended(ups: Seq<(Seq<char>, Seq<char>)>, upd: Set<Seq<char>>) -> Seq<Seq<char>>
    decreases ups.len(),
{
    if ups.len() == 0 {
        Seq::empty()
    } else {
        (if upd.contains(ups[0].0) {
            Seq::empty()
        } else {
            seq![state_line(ups[0].0, ups[0].1)]
        }) + appended(ups.drop_first(), upd)
    }
}

/// Where a new mode line goes among the rewritten lines: after the empty
/// line that the newline ending the opening `---` leaves first, so that the
/// `---` stays on a line of its own; at the very start otherwise.
pub open spec fn mode_slot(out: Seq<Seq<char>>) -> int {
    if out.len() > 0 && out[0].len() == 0 {
        1
    } else {
        0
    }
}

/// The rewritten lines, or one empty line where there are none, so that
/// whatever is written follows the opening `---` on a line of its own.
pub open spec fn framed(out: Seq<Seq<char>>) -> Seq<Seq<char>> {
    if out.len() == 0 {
        seq![Seq::empty()]
    } else {
        out
    }
}

/// The rewritten lines with the new mode line put in its slot when `put`.
pub open spec fn head_lines(out: Seq<Seq<char>>, put: bool, new_mode: Option<Seq<char>>) -> Seq<Seq<char>> {
    let pre: Seq<Seq<char>> = if put {
        seq![mode_line(new_mode->0)]
    } else {
        Seq::empty()
    };
    out.take(mode_slot(out)) + pre + out.skip(mode_slot(out))
}

/// A line of the rewritten lines with the mode line put in its slot: the
/// mode line itself, or the rewritten line at the index returned.
proof fn lemma_head_at(out: Seq<Seq<char>>, put: bool, nm: Option<Seq<char>>, i: int) -> (j: int)
    requires
        put ==> nm is Some,
        0 <= i < head_lines(out, put, nm).len(),
    ensures
        (put && head_lines(out, put, nm)[i] == mode_line(nm->0)) || (0 <= j < out.len()
            && head_lines(out, put, nm)[i] == out[j]),
{
    let k = mode_slot(out);
    let h = head_lines(out, put, nm);
    let pl: int = if put { 1 } else { 0 };
    assert(h.len() == out.len() + pl);
    if i < k {
        assert(h[i] == out[i]);
        i
    } else if i < k + pl {
        assert(h[i] == mode_line(nm->0));
        0
    } else {
        assert(h[i] == out[i - pl]);
        i - pl
    }
}

/// Where the mode line stands when it is put; and nothing changes when it
/// is not.
proof fn lemma_head_slot(out: Seq<Seq<char>>, put: bool, nm: Option<Seq<char>>)
    requires
        put ==> nm is Some,
    ensures
        put ==> 0 <= mode_slot(out) < head_lines(out, put, nm).len() && head_lines(out, put, nm)[mode_slot(out)]
            == mode_line(nm->0),
        !put ==> head_lines(out, put, nm) == out,
{
    let h = head_lines(out, put, nm);
    if put {
        assert(h[mode_slot(out)] == mode_line(nm->0));
    } else {
        assert(h =~= out);
    }
}

/// What `update_agent_frontmatter` returns: a card without frontmatter is
/// returned unchanged; otherwise the frontmatter lines are rewritten, a
/// `mode:` line is put right after the opening `---` line when none was
/// there and a mode is given, the
/// unmatched updates are appended as state lines, and the text from the
/// closing `"---"` on follows on a new line.
pub open spec fn updated_card(
    content: Seq<char>,
    new_mode: Option<Seq<char>>,
    ups: Seq<(Seq<char>, Seq<char>)>,
) -> Seq<char> {
    match frontmatter_end(content) {
        None => content,
        Some(e) => {
            let rest = card_text(content).skip(3);
            let st = update_lines((Seq::empty(), false, false, Set::empty()), lines(rest.take(e)), new_mode, ups);
            let head = head_lines(framed(st.0), !st.1 && new_mode is Some, new_mode);
            "---"@ + crate::text::join_nl(head + appended(ups, st.3)) + "\n"@ + strip_leading(
                rest.skip(e),
                '\n',
            )
        },
    }
}

pub open spec fn updates_view(ups: Seq<(&str, &str)>) -> Seq<(Seq<char>, Seq<char>)> {
    ups.map_values(|p: (&str, &str)| (p.0@, p.1@))
}

fn find_update(ups: &[(&str, &str)], key: &Vec<char>) -> (r: Option<Vec<char>>)
    ensures
        r matches Some(v) ==> first_update(updates_view(ups@), key@) == Some(v@),
        r is None ==> first_update(updates_view(ups@), key@) is None,
{
    let ghost uv = updates_view(ups@);
    let mut i: usize = 0;
    assert(uv.skip(0) =~= uv);
    while i < ups.len()
        invariant
            i <= ups@.len(),
            uv == updates_view(ups@),
            first_update(uv, key@) == first_update(uv.skip(i as int), key@),
        decreases ups@.len() - i,
    {
        assert(uv.skip(i as int).drop_first() =~= uv.skip(i + 1));
        let (k, v) = ups[i];
        let kc = chars_of(k);
        if chars_eq(kc.as_slice(), key.as_slice()) {
            return Some(chars_of(v));
        }
        i = i + 1;
    }
    None
}

fn mode_line_exec(m: &str) -> (r: Vec<char>)
    ensures
        r@ == mode_line(m@),
{
    let mut r = chars_of("mode: ");
    let mc = chars_of(m);
    r.extend_from_slice(mc.as_slice());
    r
}

fn state_line_exec(key: &Vec<char>, value: &Vec<char>) -> (r: Vec<char>)
    ensures
        r@ == state_line(key@, value@),
{
    let mut r = chars_of("  ");
    r.extend_from_slice(key.as_slice());
    let sep = chars_of(": ");
    r.extend_from_slice(sep.as_slice());
    r.extend_from_slice(value.as_slice());
    r
}

pub open spec fn keys_view(ks: Seq<Vec<char>>) -> Set<Seq<char>> {
    Set::new(|k: Seq<char>| exists|i: int| 0 <= i < ks.len() && (#[trigger] ks[i])@ == k)
}

fn has_key(ks: &Vec<Vec<char>>, k: &Vec<char>) -> (b: bool)
    ensures
        b == keys_view(ks@).contains(k@),
{
    let mut i: usize = 0;
    while i < ks.len()
        invariant
            i <= ks@.len(),
            forall|j: int| 0 <= j < i ==> (#[trigger] ks@[j])@ != k@,
        decreases ks@.len() - i,
    {
        if chars_eq(ks[i].as_slice(), k.as_slice()) {
            return true;
        }
        i = i + 1;
    }
    false
}

fn update_step(
    line: &Vec<char>,
    new_mode: Option<&str>,
    ups: &[(&str, &str)],
    out: &mut Vec<Vec<char>>,
    has_mode: &mut bool,
    in_state: &mut bool,
    upd: &mut Vec<Vec<char>>,
)
    ensures
        ((lines_view(final(out)@), *final(has_mode), *final(in_state), keys_view(final(upd)@))
            == update_line(
            (lines_view(old(out)@), *old(has_mode), *old(in_state), keys_view(old(upd)@)),
            line@,
            match new_mode {
                Some(m) => Some(m@),
                None => None,
            },
            updates_view(ups@),
        )),
{
    let ghost before = lines_view(out@);
    let ghost kb = keys_view(upd@);
    let t = trim_chars(line.as_slice());
    let mode_kw = chars_of("mode:");
    let state_kw = chars_of("state:");
    if has_prefix(t.as_slice(), mode_kw.as_slice()) {
        let l = match new_mode {
            Some(m) => mode_line_exec(m),
            None => line.clone(),
        };
        out.push(l);
        assert(lines_view(out@) =~= before.push(l@));
        *has_mode = true;
        return ;
    }
    if has_prefix(t.as_slice(), state_kw.as_slice()) {
        out.push(line.clone());
        assert(lines_view(out@) =~= before.push(line@));
        *in_state = true;
        return ;
    }
    if *in_state {
        let colon = find_char_idx(t.as_slice(), ':');
        proof {
            lemma_find_char(t@, ':');
        }
        match colon {
            Some(c) => {
                let k = slice_chars(t.as_slice(), 0, c);
                assert(k@ =~= t@.take(c as int));
                let key = trim_chars(k.as_slice());
                match find_update(ups, &key) {
                    Some(nv) => {
                        let l = state_line_exec(&key, &nv);
                        out.push(l);
                        assert(lines_view(out@) =~= before.push(l@));
                        upd.push(key);
                        assert(keys_view(upd@) =~= kb.insert(key@)) by {
                            assert forall|x: Seq<char>| #[trigger] kb.insert(key@).contains(x)
                                implies keys_view(upd@).contains(x) by {
                                if x == key@ {
                                    assert(upd@[upd@.len() - 1]@ == x);
                                } else {
                                    let j = choose|j: int| 0 <= j < old(upd)@.len() && (#[trigger] old(upd)@[j])@ == x;
                                    assert(upd@[j]@ == x);
                                }
                            }
                        }
                    },
                    None => {
                        out.push(line.clone());
                        assert(lines_view(out@) =~= before.push(line@));
                    },
                }
            },
            None => {
                out.push(line.clone());
                assert(lines_view(out@) =~= before.push(line@));
                *in_state = line.len() > 0 && (line[0] == ' ' || line[0] == '\t');
            },
        }
        return ;
    }
    out.push(line.clone());
    assert(lines_view(out@) =~= before.push(line@));
}

pub open spec fn lines_view(v: Seq<Vec<char>>) -> Seq<Seq<char>> {
    v.map_values(|l: Vec<char>| l@)
}

/// Rewrite an agent card's frontmatter: set the mode (when given) and the
/// given state keys.
pub fn update_agent_frontmatter(content: &str, new_mode: Option<&str>, state_updates: &[(&str, &str)]) -> (r: String)
    ensures
        r@ == updated_card(
            content@,
            match new_mode {
                Some(m) => Some(m@),
                None => None,
            },
            updates_view(state_updates@),
        ),
{
    let cs = chars_of(content);
    let tr = strip_leading_chars(cs.as_slice(), '\u{feff}');
    let dashes = chars_of("---");
    let closing = chars_of("\n---");
    proof {
        reveal_strlit("---");
        reveal_strlit("\n---");
    }
    if !has_prefix(tr.as_slice(), dashes.as_slice()) {
        return String::from_str(content);
    }
    let rest = skip_chars(tr.as_slice(), 3);
    let end = find_sub_idx(rest.as_slice(), closing.as_slice());
    let e = match end {
        None => {
            return String::from_str(content);
        },
        Some(e) => e,
    };
    proof {
        lemma_find_sub_bound(rest@, closing@);
    }
    let rl = rest.len();
    assert(e + 4 <= rl);
    let fm = slice_chars(rest.as_slice(), 0, e);
    assert(fm@ =~= rest@.take(e as int));
    let after = skip_chars(rest.as_slice(), e);
    let ls = split_lines(fm.as_slice());
    let ghost lv = ls@.map_values(|l: Vec<char>| l@);
    let ghost nm = match new_mode {
        Some(m) => Some(m@),
        None => None::<Seq<char>>,
    };
    let ghost uv = updates_view(state_updates@);
    let ghost init: UpdateScan = (Seq::empty(), false, false, Set::empty());
    let mut out: Vec<Vec<char>> = Vec::new();
    let mut has_mode = false;
    let mut in_state = false;
    let mut upd: Vec<Vec<char>> = Vec::new();
    assert(lines_view(out@) =~= Seq::<Seq<char>>::empty());
    assert(keys_view(upd@) =~= Set::<Seq<char>>::empty());
    assert(lv.skip(0) =~= lv);
    let mut i: usize = 0;
    while i < ls.len()
        invariant
            i <= ls@.len(),
            lv == ls@.map_values(|l: Vec<char>| l@),
            nm == match new_mode {
                Some(m) => Some(m@),
                None => None::<Seq<char>>,
            },
            uv == updates_view(state_updates@),
            update_lines(init, lv, nm, uv) == update_lines(
                (lines_view(out@), has_mode, in_state, keys_view(upd@)),
                lv.skip(i as int),
                nm,
                uv,
            ),
        decreases ls@.len() - i,
    {
        assert(lv.skip(i as int).drop_first() =~= lv.skip(i + 1));
        update_step(&ls[i], new_mode, state_updates, &mut out, &mut has_mode, &mut in_state, &mut upd);
        i = i + 1;
    }
    assert(lv.skip(i as int) =~= Seq::<Seq<char>>::empty());
    let ghost st = update_lines(init, lv, nm, uv);
    if out.len() == 0 {
        out.push(Vec::new());
        assert(lines_view(out@) =~= framed(st.0));
    }
    let mut all: Vec<Vec<char>> = Vec::new();
    let put = !has_mode && new_mode.is_some();
    let ghost ov = lines_view(out@);
    let ins: usize = if out.len() > 0 && out[0].len() == 0 {
        1
    } else {
        0
    };
    assert(ins as int == mode_slot(ov));
    let ghost pre: Seq<Seq<char>> = if put {
        seq![mode_line(nm->0)]
    } else {
        Seq::empty()
    };
    if ins == 1 {
        all.push(out[0].clone());
        assert(lines_view(all@) =~= ov.take(1));
    } else {
        assert(lines_view(all@) =~= ov.take(0));
    }
    if put {
        let ghost b = lines_view(all@);
        all.push(mode_line_exec(new_mode.unwrap()));
        assert(lines_view(all@) =~= b + pre);
    } else {
        assert(lines_view(all@) =~= ov.take(ins as int) + pre);
    }
    let mut j: usize = ins;
    while j < out.len()
        invariant
            ins <= j <= out@.len(),
            ov == lines_view(out@),
            lines_view(all@) == ov.take(ins as int) + pre + ov.subrange(ins as int, j as int),
        decreases out@.len() - j,
    {
        let ghost b = lines_view(all@);
        all.push(out[j].clone());
        assert(lines_view(all@) =~= b.push(out@[j as int]@));
        assert(ov.take(ins as int) + pre + ov.subrange(ins as int, j as int).push(ov[j as int]) =~= ov.take(ins as int) + pre
            + ov.subrange(ins as int, j + 1));
        j = j + 1;
    }
    assert(ov.subrange(ins as int, out@.len() as int) =~= ov.skip(ins as int));
    assert(lines_view(all@) == head_lines(ov, put, nm));
    let ghost head = lines_view(all@);
    assert(uv.skip(0) =~= uv);
    let mut k: usize = 0;
    while k < state_updates.len()
        invariant
            k <= state_updates@.len(),
            uv == updates_view(state_updates@),
            head + appended(uv, keys_view(upd@)) == lines_view(all@) + appended(uv.skip(k as int), keys_view(upd@)),
        decreases state_updates@.len() - k,
    {
        assert(uv.skip(k as int).drop_first() =~= uv.skip(k + 1));
        let (uk, uval) = state_updates[k];
        let ukc = chars_of(uk);
        let ghost b = lines_view(all@);
        if !has_key(&upd, &ukc) {
            let uvc = chars_of(uval);
            all.push(state_line_exec(&ukc, &uvc));
            assert(lines_view(all@) =~= b.push(state_line(ukc@, uvc@)));
        } else {
            assert(lines_view(all@) =~= b);
        }
        k = k + 1;
    }
    assert(uv.skip(k as int) =~= Seq::<(Seq<char>, Seq<char>)>::empty());
    let joined = crate::text::join_lines(all.as_slice());
    let tail = strip_leading_chars(after.as_slice(), '\n');
    let mut res = String::new();
    crate::text::push_text(&mut res, "---");
    crate::text::push_chars(&mut res, joined.as_slice());
    crate::text::push_text(&mut res, "\n");
    crate::text::push_chars(&mut res, tail.as_slice());
    res
}

/// Whether a frontmatter line sets the mode when the card is read: its key,
/// before the first colon, is `mode`.
pub open spec fn sets_mode(l: Seq<char>) -> bool {
    match split_once(trim(l), ':') {
        Some(kv) => trim(kv.0) == "mode"@,
        None => false,
    }
}

/// The frontmatter lines of a card that has frontmatter.
pub open spec fn frontmatter_lines(content: Seq<char>) -> Seq<Seq<char>> {
    lines(card_text(content).skip(3).take(frontmatter_end(content)->0))
}

/// A frontmatter line that keeps its meaning through an update: it does not
/// start with `---`, and it sets the mode only as a `mode:` line, which the
/// updater rewrites.
pub open spec fn plain_line(l: Seq<char>) -> bool {
    !"---"@.is_prefix_of(l) && (sets_mode(l) ==> "mode:"@.is_prefix_of(trim(l)))
}

/// A state update that keeps its meaning: key and value are one line each,
/// and the state line written for it does not read as a mode line.
pub open spec fn plain_update(u: (Seq<char>, Seq<char>)) -> bool {
    !u.0.contains('\n') && !u.1.contains('\n') && !sets_mode(state_line(u.0, u.1))
}

/// A line that an update to mode `m` writes: one line, not starting with
/// `---`, and either the new mode line or a line that does not set the
/// mode.
pub open spec fn written_ok(l: Seq<char>, m: Seq<char>) -> bool {
    !l.contains('\n') && !"---"@.is_prefix_of(l) && (l == mode_line(m) || !sets_mode(l))
}

proof fn lemma_empty_line_written(m: Seq<char>)
    ensures
        written_ok(Seq::empty(), m),
{
    reveal_strlit("---");
    reveal_strlit("mode:");
    let e = Seq::<char>::empty();
    assert(!"---"@.is_prefix_of(e));
    assert(trim(e) =~= e) by {
        crate::text::lemma_trim_start_len(e);
        crate::text::lemma_trim_end_len(crate::text::trim_start(e));
    }
    assert(!sets_mode(e));
}

proof fn lemma_mode_line_written(m: Seq<char>)
    requires
        !m.contains('\n'),
    ensures
        written_ok(mode_line(m), m),
{
    reveal_strlit("mode: ");
    reveal_strlit("---");
    assert(!"mode: "@.contains('\n')) by {
        if "mode: "@.contains('\n') {
            let k = choose|k: int| 0 <= k < "mode: "@.len() && "mode: "@[k] == '\n';
        }
    }
    crate::text::lemma_no_char_concat("mode: "@, m, '\n');
    if "---"@.is_prefix_of(mode_line(m)) {
        crate::text::lemma_prefix_char("---"@, mode_line(m), 0);
    }
}

proof fn lemma_state_line_written(u: (Seq<char>, Seq<char>), m: Seq<char>)
    requires
        plain_update(u),
    ensures
        written_ok(state_line(u.0, u.1), m),
{
    reveal_strlit("  ");
    reveal_strlit(": ");
    reveal_strlit("---");
    let l = state_line(u.0, u.1);
    assert(!"  "@.contains('\n')) by {
        if "  "@.contains('\n') {
            let k = choose|k: int| 0 <= k < "  "@.len() && "  "@[k] == '\n';
        }
    }
    assert(!": "@.contains('\n')) by {
        if ": "@.contains('\n') {
            let k = choose|k: int| 0 <= k < ": "@.len() && ": "@[k] == '\n';
        }
    }
    crate::text::lemma_no_char_concat("  "@, u.0, '\n');
    crate::text::lemma_no_char_concat("  "@ + u.0, ": "@, '\n');
    crate::text::lemma_no_char_concat("  "@ + u.0 + ": "@, u.1, '\n');
    if "---"@.is_prefix_of(l) {
        crate::text::lemma_prefix_char("---"@, l, 0);
    }
}

proof fn lemma_first_update_in(ups: Seq<(Seq<char>, Seq<char>)>, key: Seq<char>)
    ensures
        first_update(ups, key) matches Some(v) ==> exists|j: int| 0 <= j < ups.len() && ups[j] == (key, v),
    decreases ups.len(),
{
    if ups.len() > 0 && ups[0].0 != key {
        lemma_first_update_in(ups.drop_first(), key);
        if let Some(v) = first_update(ups.drop_first(), key) {
            let j = choose|j: int| 0 <= j < ups.drop_first().len() && ups.drop_first()[j] == (key, v);
            assert(ups[j + 1] == (key, v));
        }
    } else if ups.len() > 0 {
        assert(ups[0] == (key, ups[0].1));
    }
}

proof fn lemma_update_lines_ok(
    st: UpdateScan,
    ls: Seq<Seq<char>>,
    m: Seq<char>,
    ups: Seq<(Seq<char>, Seq<char>)>,
)
    requires
        forall|i: int| 0 <= i < st.0.len() ==> written_ok(#[trigger] st.0[i], m),
        st.1 ==> st.0.contains(mode_line(m)),
        forall|i: int| 0 <= i < ls.len() ==> !(#[trigger] ls[i]).contains('\n') && plain_line(ls[i]),
        forall|j: int| 0 <= j < ups.len() ==> plain_update(#[trigger] ups[j]),
        !m.contains('\n'),
    ensures
        forall|i: int|
            0 <= i < update_lines(st, ls, Some(m), ups).0.len() ==> written_ok(
                #[trigger] update_lines(st, ls, Some(m), ups).0[i],
                m,
            ),
        update_lines(st, ls, Some(m), ups).1 ==> update_lines(st, ls, Some(m), ups).0.contains(mode_line(m)),
    decreases ls.len(),
{
    if ls.len() > 0 {
        let l = ls[0];
        assert(!l.contains('\n') && plain_line(l));
        let r = update_line(st, l, Some(m), ups);
        let (out, has_mode, in_state, upd) = st;
        let t = trim(l);
        // The line written for `l`.
        let x = r.0.last();
        assert(r.0 == out.push(x));
        if "mode:"@.is_prefix_of(t) {
            assert(x == mode_line(m));
            lemma_mode_line_written(m);
        } else {
            assert(!sets_mode(l));
            if "state:"@.is_prefix_of(t) {
                assert(x == l);
            } else if in_state && split_once(t, ':') is Some {
                let kv = split_once(t, ':')->0;
                let key = trim(kv.0);
                lemma_first_update_in(ups, key);
                if let Some(nv) = first_update(ups, key) {
                    let j = choose|j: int| 0 <= j < ups.len() && ups[j] == (key, nv);
                    assert(plain_update(ups[j]));
                    assert(x == state_line(key, nv));
                    lemma_state_line_written(ups[j], m);
                } else {
                    assert(x == l);
                }
            } else {
                assert(x == l);
            }
        }
        assert(written_ok(x, m));
        assert forall|i: int| 0 <= i < r.0.len() implies written_ok(#[trigger] r.0[i], m) by {
            if i < out.len() {
                assert(r.0[i] == out[i]);
            }
        }
        if r.1 {
            if has_mode {
                let i = choose|i: int| 0 <= i < out.len() && out[i] == mode_line(m);
                assert(r.0[i] == mode_line(m));
            } else {
                assert(r.0[out.len() as int] == mode_line(m));
            }
        }
        assert forall|i: int| 0 <= i < ls.drop_first().len() implies !(#[trigger] ls.drop_first()[i]).contains('\n')
            && plain_line(ls.drop_first()[i]) by {
            assert(ls.drop_first()[i] == ls[i + 1]);
        }
        lemma_update_lines_ok(r, ls.drop_first(), m, ups);
    }
}

proof fn lemma_appended_ok(ups: Seq<(Seq<char>, Seq<char>)>, upd: Set<Seq<char>>, m: Seq<char>)
    requires
        forall|j: int| 0 <= j < ups.len() ==> plain_update(#[trigger] ups[j]),
    ensures
        forall|i: int| 0 <= i < appended(ups, upd).len() ==> written_ok(#[trigger] appended(ups, upd)[i], m),
    decreases ups.len(),
{
    if ups.len() > 0 {
        assert forall|j: int| 0 <= j < ups.drop_first().len() implies plain_update(#[trigger] ups.drop_first()[j]) by {
            assert(ups.drop_first()[j] == ups[j + 1]);
        }
        lemma_appended_ok(ups.drop_first(), upd, m);
        assert(plain_update(ups[0]));
        lemma_state_line_written(ups[0], m);
        let pre: Seq<Seq<char>> = if upd.contains(ups[0].0) {
            Seq::empty()
        } else {
            seq![state_line(ups[0].0, ups[0].1)]
        };
        let tl = appended(ups.drop_first(), upd);
        assert(appended(ups, upd) == pre + tl);
        assert forall|i: int| 0 <= i < appended(ups, upd).len() implies written_ok(#[trigger] appended(ups, upd)[i], m) by {
            if i < pre.len() {
                assert(appended(ups, upd)[i] == state_line(ups[0].0, ups[0].1));
            } else {
                assert(appended(ups, upd)[i] == tl[i - pre.len()]);
            }
        }
    }
}

/// Reading the line `mode: <m>` sets the mode to `m`, whatever came before.
proof fn lemma_scan_mode_line(st: CardScan, m: Seq<char>)
    requires
        trim(m) == m,
    ensures
        scan_line(st, mode_line(m)).4 == m,
{
    reveal_strlit("mode: ");
    reveal_strlit("mode");
    reveal_strlit("mode:");
    reveal_strlit("state:");
    reveal_strlit("organs:");
    let l = mode_line(m);
    assert(l[0] == 'm');
    assert(!crate::text::is_ws('m'));
    assert(!crate::text::is_ws('e'));
    assert(!crate::text::is_ws(':'));
    assert(crate::text::is_ws(' '));
    assert(crate::text::trim_start(l) == l);
    let t = trim(l);
    if m.len() > 0 {
        crate::text::lemma_trimmed_last(m);
        assert(l.last() == m.last());
        assert(crate::text::trim_end(l) == l);
        assert(t == l);
    } else {
        assert(l =~= "mode: "@);
        assert(l.drop_last() =~= "mode:"@);
        assert(crate::text::trim_end(l) == crate::text::trim_end(l.drop_last()));
        assert(crate::text::trim_end("mode:"@) == "mode:"@);
        assert(t == "mode:"@);
    }
    assert(t.len() >= 5);
    assert(t[0] == 'm' && t[1] == 'o' && t[2] == 'd' && t[3] == 'e' && t[4] == ':');
    crate::text::lemma_find_char(t, ':');
    assert(crate::text::find_char(t, ':') == Some(4int));
    let kv = split_once(t, ':')->0;
    assert(kv.0 =~= "mode"@);
    assert(crate::text::trim_start("mode"@) == "mode"@);
    assert(crate::text::trim_end("mode"@) == "mode"@);
    if m.len() > 0 {
        assert(kv.1 =~= seq![' '] + m);
        assert((seq![' '] + m).drop_first() =~= m);
        assert(crate::text::trim_start(seq![' '] + m) == crate::text::trim_start(m));
    } else {
        assert(kv.1 =~= Seq::<char>::empty());
    }
    assert(trim(kv.1) == m);
    if "state:"@.is_prefix_of(t) {
        crate::text::lemma_prefix_char("state:"@, t, 0);
    }
    if "organs:"@.is_prefix_of(t) {
        crate::text::lemma_prefix_char("organs:"@, t, 0);
    }
    if seq!['-'].is_prefix_of(t) {
        crate::text::lemma_prefix_char(seq!['-'], t, 0);
    }
    assert(!indented(l));
}

/// A line that does not set the mode leaves it as it was.
proof fn lemma_scan_neutral(st: CardScan, l: Seq<char>)
    requires
        !sets_mode(l),
    ensures
        scan_line(st, l).4 == st.4,
{
}

proof fn lemma_scan_joined(st: CardScan, hs: Seq<Seq<char>>, m: Seq<char>)
    requires
        hs.len() > 0,
        forall|i: int| 0 <= i < hs.len() ==> written_ok(#[trigger] hs[i], m),
        trim(m) == m,
    ensures
        scan_lines(st, crate::text::joined_lines(hs)).4 == (if hs.contains(mode_line(m)) {
            m
        } else {
            st.4
        }),
    decreases hs.len(),
{
    reveal_strlit("mode: ");
    let h = hs[0];
    assert(written_ok(h, m));
    let ml = mode_line(m);
    assert(ml.len() > 0);
    assert(crate::text::strip_cr(ml) == ml) by {
        if m.len() > 0 {
            crate::text::lemma_trimmed_last(m);
            assert(ml.last() == m.last());
            assert(crate::text::is_ws('\r'));
        } else {
            assert(ml =~= "mode: "@);
        }
    }
    crate::text::lemma_trim_strip_cr(h);
    assert(sets_mode(crate::text::strip_cr(h)) == sets_mode(h));
    let first = crate::text::strip_cr(h);
    let st1 = scan_line(st, first);
    if h == ml {
        lemma_scan_mode_line(st, m);
        assert(st1.4 == m);
    } else {
        lemma_scan_neutral(st, first);
        assert(st1.4 == st.4);
    }
    if hs.len() == 1 {
        assert(hs.contains(ml) == (h == ml)) by {
            if hs.contains(ml) {
                let i = choose|i: int| 0 <= i < hs.len() && hs[i] == ml;
                assert(i == 0);
            }
            if h == ml {
                assert(hs[0] == ml);
            }
        }
        if h.len() == 0 {
            assert(crate::text::joined_lines(hs) =~= Seq::<Seq<char>>::empty());
            assert(scan_lines(st, Seq::<Seq<char>>::empty()) == st);
            assert(h != ml);
        } else {
            assert(crate::text::joined_lines(hs) =~= seq![h]);
            assert(seq![h].drop_first() =~= Seq::<Seq<char>>::empty());
            assert(scan_lines(st, seq![h]) == scan_lines(scan_line(st, h), Seq::<Seq<char>>::empty()));
            assert(scan_lines(scan_line(st, h), Seq::<Seq<char>>::empty()) == scan_line(st, h));
            if h == ml {
                lemma_scan_mode_line(st, m);
            } else {
                lemma_scan_neutral(st, h);
            }
        }
    } else {
        let rest = hs.drop_first();
        assert forall|i: int| 0 <= i < rest.len() implies written_ok(#[trigger] rest[i], m) by {
            assert(rest[i] == hs[i + 1]);
        }
        lemma_scan_joined(st1, rest, m);
        let jl = crate::text::joined_lines(hs);
        assert(jl == seq![first] + crate::text::joined_lines(rest));
        assert(jl[0] == first);
        assert(jl.drop_first() =~= crate::text::joined_lines(rest));
        assert(scan_lines(st, jl) == scan_lines(scan_line(st, jl[0]), jl.drop_first()));
        assert(hs.contains(ml) == (h == ml || rest.contains(ml))) by {
            if hs.contains(ml) && h != ml {
                let i = choose|i: int| 0 <= i < hs.len() && hs[i] == ml;
                assert(rest[i - 1] == ml);
            }
            if rest.contains(ml) {
                let i = choose|i: int| 0 <= i < rest.len() && rest[i] == ml;
                assert(hs[i + 1] == ml);
            }
            if h == ml {
                assert(hs[0] == ml);
            }
        }
    }
}

/// The frontmatter lines that an update writes (for a card with
/// frontmatter): the rewritten lines, with the new mode line put in its
/// slot when none was rewritten, then the appended state lines.
pub open spec fn written_lines(
    content: Seq<char>,
    new_mode: Option<Seq<char>>,
    ups: Seq<(Seq<char>, Seq<char>)>,
) -> Seq<Seq<char>> {
    let rest = card_text(content).skip(3);
    let st = update_lines(
        (Seq::empty(), false, false, Set::empty()),
        lines(rest.take(frontmatter_end(content)->0)),
        new_mode,
        ups,
    );
    head_lines(framed(st.0), !st.1 && new_mode is Some, new_mode) + appended(ups, st.3)
}

/// The scanner state a card starts from.
pub open spec fn scan_start() -> CardScan {
    (false, false, Map::empty(), Seq::empty(), "active"@)
}

/// Reading an updated card back: when the written lines are one line each
/// and none starts with `---`, the frontmatter read is exactly those lines.
proof fn lemma_reread(content: Seq<char>, new_mode: Option<Seq<char>>, ups: Seq<(Seq<char>, Seq<char>)>)
    requires
        frontmatter_end(content) is Some,
        written_lines(content, new_mode, ups).len() > 0,
        forall|i: int|
            0 <= i < written_lines(content, new_mode, ups).len() ==> !(#[trigger] written_lines(
                content,
                new_mode,
                ups,
            )[i]).contains('\n') && !"---"@.is_prefix_of(written_lines(content, new_mode, ups)[i]),
    ensures
        ({
            let st = scan_lines(scan_start(), crate::text::joined_lines(written_lines(content, new_mode, ups)));
            let p = parsed_card(updated_card(content, new_mode, ups));
            p.0 == st.2 && p.1 == st.3 && p.2 == st.4
        }),
{
    reveal_strlit("---");
    reveal_strlit("\n---");
    reveal_strlit("\n");
    let pat = "\n---"@;
    let hs = written_lines(content, new_mode, ups);
    let e = frontmatter_end(content)->0;
    let rest = card_text(content).skip(3);
    let j = crate::text::join_nl(hs);
    // The text after the old frontmatter starts with a newline and `---`.
    crate::text::lemma_find_sub_bound(rest, pat);
    let old_tail = rest.skip(e);
    crate::text::lemma_prefix_char(pat, old_tail, 0);
    crate::text::lemma_prefix_char(pat, old_tail, 1);
    crate::text::lemma_prefix_char(pat, old_tail, 2);
    crate::text::lemma_prefix_char(pat, old_tail, 3);
    let tail2 = old_tail.drop_first();
    assert(tail2[0] == '-');
    assert(strip_leading(old_tail, '\n') == strip_leading(tail2, '\n'));
    assert(strip_leading(tail2, '\n') == tail2);
    let t = seq!['\n'] + tail2;
    let new = updated_card(content, new_mode, ups);
    assert(new == "---"@ + j + "\n"@ + tail2);
    assert(new =~= "---"@ + (j + t));
    assert(new[0] == '-');
    assert(card_text(new) == new);
    assert(new.subrange(0, 3) =~= "---"@);
    assert(new.skip(3) =~= j + t);
    crate::text::lemma_join_no_marker(hs, t);
    assert((j + t).skip(j.len() as int) =~= t);
    assert(t.subrange(0, 4) =~= pat);
    crate::text::lemma_find_sub_at(j + t, pat, j.len() as int);
    assert(frontmatter_end(new) == Some(j.len() as int));
    assert((j + t).take(j.len() as int) =~= j);
    crate::text::lemma_lines_join(hs);
}

/// The mode that an updated card reads back is the one the update wrote,
/// for a card with frontmatter, a one-line mode without surrounding
/// whitespace, state updates of one line each whose lines do not read as
/// mode lines, and frontmatter lines that do not start with `---` and set
/// the mode only as `mode:` lines.
pub proof fn lemma_mode_reads_back(content: Seq<char>, m: Seq<char>, ups: Seq<(Seq<char>, Seq<char>)>)
    requires
        frontmatter_end(content) is Some,
        !m.contains('\n'),
        trim(m) == m,
        forall|j: int| 0 <= j < ups.len() ==> plain_update(#[trigger] ups[j]),
        forall|i: int|
            0 <= i < frontmatter_lines(content).len() ==> plain_line(#[trigger] frontmatter_lines(content)[i]),
    ensures
        parsed_card(updated_card(content, Some(m), ups)).2 == m,
{
    let e = frontmatter_end(content)->0;
    let rest = card_text(content).skip(3);
    let ls = lines(rest.take(e));
    crate::text::lemma_lines_no_nl(rest.take(e));
    assert forall|i: int| 0 <= i < ls.len() implies !(#[trigger] ls[i]).contains('\n') && plain_line(ls[i]) by {
        assert(frontmatter_lines(content)[i] == ls[i]);
    }
    let init: UpdateScan = (Seq::empty(), false, false, Set::empty());
    lemma_update_lines_ok(init, ls, m, ups);
    let st = update_lines(init, ls, Some(m), ups);
    let fo = framed(st.0);
    let head = head_lines(fo, !st.1, Some(m));
    let app = appended(ups, st.3);
    lemma_appended_ok(ups, st.3, m);
    lemma_mode_line_written(m);
    let hs = head + app;
    assert(hs == written_lines(content, Some(m), ups));
    assert forall|i: int| 0 <= i < hs.len() implies written_ok(#[trigger] hs[i], m) by {
        if i < head.len() {
            assert(hs[i] == head[i]);
            let j = lemma_head_at(fo, !st.1, Some(m), i);
            if head[i] != mode_line(m) {
                if st.0.len() == 0 {
                    lemma_empty_line_written(m);
                    assert(fo[j] == Seq::<char>::empty());
                } else {
                    assert(written_ok(st.0[j], m));
                }
            }
        } else {
            assert(hs[i] == app[i - head.len()]);
        }
    }
    assert(hs.contains(mode_line(m))) by {
        lemma_head_slot(fo, !st.1, Some(m));
        if !st.1 {
            assert(hs[mode_slot(fo)] == mode_line(m));
        } else {
            let i = choose|i: int| 0 <= i < st.0.len() && st.0[i] == mode_line(m);
            assert(hs[i] == mode_line(m));
        }
    }
    lemma_reread(content, Some(m), ups);
    lemma_scan_joined(scan_start(), hs, m);
}

/// The updater only adds lines after those it already wrote.
proof fn lemma_update_lines_prefix(
    st: UpdateScan,
    ls: Seq<Seq<char>>,
    nm: Option<Seq<char>>,
    ups: Seq<(Seq<char>, Seq<char>)>,
)
    ensures
        update_lines(st, ls, nm, ups).0.len() == st.0.len() + ls.len(),
        forall|i: int| 0 <= i < st.0.len() ==> #[trigger] update_lines(st, ls, nm, ups).0[i] == st.0[i],
    decreases ls.len(),
{
    if ls.len() > 0 {
        let nx = update_line(st, ls[0], nm, ups);
        lemma_update_lines_prefix(nx, ls.drop_first(), nm, ups);
        assert forall|i: int| 0 <= i < st.0.len() implies #[trigger] update_lines(st, ls, nm, ups).0[i] == st.0[i] by {
            assert(nx.0[i] == st.0[i]);
        }
    }
}

/// Joined lines that start with an empty line start with a newline.
proof fn lemma_join_leading_newline(hs: Seq<Seq<char>>)
    requires
        hs.len() >= 2,
        hs[0].len() == 0,
    ensures
        crate::text::join_nl(hs).len() > 0,
        crate::text::join_nl(hs)[0] == '\n',
    decreases hs.len(),
{
    if hs.len() == 2 {
        assert(hs.drop_last().len() == 1);
        assert(crate::text::join_nl(hs.drop_last()) == hs[0]);
    } else {
        lemma_join_leading_newline(hs.drop_last());
    }
}

/// A card whose opening `---` stands on a line of its own keeps it so
/// after an update, whatever mode and state updates are written.
pub proof fn lemma_opening_line_alone(
    content: Seq<char>,
    new_mode: Option<Seq<char>>,
    ups: Seq<(Seq<char>, Seq<char>)>,
)
    requires
        frontmatter_end(content) is Some,
        card_text(content).len() > 3,
        card_text(content)[3] == '\n',
    ensures
        "---\n"@.is_prefix_of(updated_card(content, new_mode, ups)),
{
    reveal_strlit("---");
    reveal_strlit("---\n");
    let e = frontmatter_end(content)->0;
    let rest = card_text(content).skip(3);
    crate::text::lemma_find_sub_bound(rest, "\n---"@);
    let ls = lines(rest.take(e));
    let init: UpdateScan = (Seq::empty(), false, false, Set::empty());
    let st = update_lines(init, ls, new_mode, ups);
    lemma_update_lines_prefix(init, ls, new_mode, ups);
    if e > 0 {
        // The first line of the frontmatter is the empty one the newline
        // after `---` ends, and the updater keeps it as it is.
        let fm = rest.take(e);
        assert(fm[0] == '\n');
        assert(ls == seq![crate::text::strip_cr(Seq::<char>::empty())] + lines(fm.drop_first()));
        assert(ls[0] =~= Seq::<char>::empty());
        let nx = update_line(init, ls[0], new_mode, ups);
        reveal_strlit("mode:");
        reveal_strlit("state:");
        assert(trim(ls[0]) =~= ls[0]) by {
            crate::text::lemma_trim_start_len(ls[0]);
            crate::text::lemma_trim_end_len(crate::text::trim_start(ls[0]));
        }
        assert(nx.0 == seq![ls[0]]);
        lemma_update_lines_prefix(nx, ls.drop_first(), new_mode, ups);
        assert(st.0[0] == ls[0]);
    } else {
        assert(rest.take(0) =~= Seq::<char>::empty());
        assert(ls =~= Seq::<Seq<char>>::empty());
    }
    let fo = framed(st.0);
    assert(fo[0].len() == 0);
    let put = !st.1 && new_mode is Some;
    let head = head_lines(fo, put, new_mode);
    assert(mode_slot(fo) == 1);
    assert(head[0] == fo[0]);
    let hs = head + appended(ups, st.3);
    assert(hs[0].len() == 0);
    let j = crate::text::join_nl(hs);
    let out = updated_card(content, new_mode, ups);
    assert(out == "---"@ + j + "\n"@ + strip_leading(rest.skip(e), '\n'));
    if hs.len() >= 2 {
        lemma_join_leading_newline(hs);
        assert(out[3] == j[0]);
    } else {
        assert(j == hs[0]);
        reveal_strlit("\n");
        assert(out[3] == '\n');
    }
    assert(out.take(4) =~= "---\n"@);
}

/// A `key: value` line of a state block: indented, with a colon, opening
/// no block.
pub open spec fn state_entry(l: Seq<char>) -> bool {
    &&& indented(l)
    &&& split_once(trim(l), ':') is Some
    &&& !"state:"@.is_prefix_of(trim(l))
    &&& !"organs:"@.is_prefix_of(trim(l))
}

/// The key and the value a state entry is read as.
pub open spec fn entry_key(l: Seq<char>) -> Seq<char> {
    trim((split_once(trim(l), ':')->0).0)
}

pub open spec fn entry_value(l: Seq<char>) -> Seq<char> {
    trim((split_once(trim(l), ':')->0).1)
}

/// A frontmatter whose state block comes last: the line at `s` opens it,
/// no line before does, and every later line is a state entry that is no
/// `mode:` line.
pub open spec fn state_block_last(ls: Seq<Seq<char>>, s: int) -> bool {
    &&& 0 <= s < ls.len()
    &&& "state:"@.is_prefix_of(trim(ls[s]))
    &&& forall|i: int| 0 <= i < s ==> !"state:"@.is_prefix_of(trim(#[trigger] ls[i]))
    &&& forall|i: int| s < i < ls.len() ==> state_entry(#[trigger] ls[i]) && !"mode:"@.is_prefix_of(trim(ls[i]))
}

/// A state update that is read back as written: key and value are one line
/// each without surrounding whitespace, and the key has no colon and names
/// no block.
pub open spec fn clean_update(u: (Seq<char>, Seq<char>)) -> bool {
    &&& !u.0.contains('\n')
    &&& !u.1.contains('\n')
    &&& trim(u.0) == u.0
    &&& trim(u.1) == u.1
    &&& !u.0.contains(':')
    &&& u.0 != "state"@
    &&& u.0 != "organs"@
}

/// One line, not starting with `---`.
pub open spec fn one_line(l: Seq<char>) -> bool {
    !l.contains('\n') && !"---"@.is_prefix_of(l)
}

/// A state entry written for updates with distinct keys: when its key is
/// updated, its value is the update's.
pub open spec fn entry_agrees(l: Seq<char>, ups: Seq<(Seq<char>, Seq<char>)>) -> bool {
    &&& state_entry(l)
    &&& one_line(l)
    &&& forall|j: int| 0 <= j < ups.len() && #[trigger] ups[j].0 == entry_key(l) ==> entry_value(l) == ups[j].1
}

pub open spec fn distinct_keys(ups: Seq<(Seq<char>, Seq<char>)>) -> bool {
    forall|a: int, b: int| 0 <= a < b < ups.len() ==> ups[a].0 != ups[b].0
}

proof fn lemma_update_lines_snoc(
    st: UpdateScan,
    ls: Seq<Seq<char>>,
    x: Seq<char>,
    nm: Option<Seq<char>>,
    ups: Seq<(Seq<char>, Seq<char>)>,
)
    ensures
        update_lines(st, ls.push(x), nm, ups) == update_line(update_lines(st, ls, nm, ups), x, nm, ups),
    decreases ls.len(),
{
    if ls.len() == 0 {
        assert(ls.push(x) =~= seq![x]);
        assert(seq![x][0] == x);
        assert(seq![x].drop_first() =~= Seq::<Seq<char>>::empty());
        let r = update_line(st, x, nm, ups);
        assert(update_lines(r, Seq::<Seq<char>>::empty(), nm, ups) == r);
        assert(update_lines(st, ls, nm, ups) == st);
    } else {
        assert(ls.push(x)[0] == ls[0]);
        assert(ls.push(x).drop_first() =~= ls.drop_first().push(x));
        lemma_update_lines_snoc(update_line(st, ls[0], nm, ups), ls.drop_first(), x, nm, ups);
    }
}

proof fn lemma_scan_lines_concat(st: CardScan, a: Seq<Seq<char>>, b: Seq<Seq<char>>)
    ensures
        scan_lines(st, a + b) == scan_lines(scan_lines(st, a), b),
    decreases a.len(),
{
    if a.len() == 0 {
        assert(a + b =~= b);
    } else {
        assert((a + b)[0] == a[0]);
        assert((a + b).drop_first() =~= a.drop_first() + b);
        lemma_scan_lines_concat(scan_line(st, a[0]), a.drop_first(), b);
    }
}

/// A trailing carriage return changes nothing the card parser sees.
proof fn lemma_scan_strip_cr(st: CardScan, l: Seq<char>)
    ensures
        scan_line(st, crate::text::strip_cr(l)) == scan_line(st, l),
{
    crate::text::lemma_trim_strip_cr(l);
    let x = crate::text::strip_cr(l);
    if l.len() > 0 && l.last() == '\r' {
        if l.len() >= 2 {
            assert(x[0] == l[0]);
        }
    }
    assert(indented(x) == indented(l));
}

proof fn lemma_scan_joined_eq(st: CardScan, hs: Seq<Seq<char>>)
    requires
        hs.len() > 0,
        hs.last().len() > 0,
    ensures
        scan_lines(st, crate::text::joined_lines(hs)) == scan_lines(st, hs),
    decreases hs.len(),
{
    if hs.len() == 1 {
        assert(crate::text::joined_lines(hs) =~= hs);
    } else {
        let rest = hs.drop_first();
        assert(rest.last() == hs.last());
        lemma_scan_joined_eq(scan_line(st, hs[0]), rest);
        lemma_scan_strip_cr(st, hs[0]);
        let jl = crate::text::joined_lines(hs);
        assert(jl[0] == crate::text::strip_cr(hs[0]));
        assert(jl.drop_first() =~= crate::text::joined_lines(rest));
    }
}

/// Outside the state block, lines that open none leave the state block
/// closed and the entries as they were.
proof fn lemma_scan_no_state(st: CardScan, ls: Seq<Seq<char>>)
    requires
        !st.0,
        forall|i: int| 0 <= i < ls.len() ==> !"state:"@.is_prefix_of(trim(#[trigger] ls[i])),
    ensures
        !scan_lines(st, ls).0,
        scan_lines(st, ls).2 == st.2,
    decreases ls.len(),
{
    if ls.len() > 0 {
        assert(!"state:"@.is_prefix_of(trim(ls[0])));
        assert forall|i: int| 0 <= i < ls.drop_first().len() implies !"state:"@.is_prefix_of(
            trim(#[trigger] ls.drop_first()[i]),
        ) by {
            assert(ls.drop_first()[i] == ls[i + 1]);
        }
        lemma_scan_no_state(scan_line(st, ls[0]), ls.drop_first());
    }
}

/// Inside the state block, each entry is recorded; when every entry for
/// `k` has the value `v`, the key reads back as `v` if any entry has it, and
/// as before otherwise.
proof fn lemma_entries_scan(st: CardScan, es: Seq<Seq<char>>, k: Seq<char>, v: Seq<char>)
    requires
        st.0,
        forall|i: int| 0 <= i < es.len() ==> state_entry(#[trigger] es[i]),
        forall|i: int| 0 <= i < es.len() && entry_key(#[trigger] es[i]) == k ==> entry_value(es[i]) == v,
    ensures
        (exists|i: int| 0 <= i < es.len() && entry_key(#[trigger] es[i]) == k) ==> scan_lines(st, es).2.dom().contains(k)
            && scan_lines(st, es).2[k] == v,
        !(exists|i: int| 0 <= i < es.len() && entry_key(#[trigger] es[i]) == k) ==> scan_lines(st, es).2.dom().contains(k)
            == st.2.dom().contains(k) && scan_lines(st, es).2[k] == st.2[k],
    decreases es.len(),
{
    if es.len() > 0 {
        let e0 = es[0];
        assert(state_entry(e0));
        let st1 = scan_line(st, e0);
        assert(st1.0);
        assert(st1.2 == st.2.insert(entry_key(e0), entry_value(e0)));
        let rest = es.drop_first();
        assert forall|i: int| 0 <= i < rest.len() implies state_entry(#[trigger] rest[i]) by {
            assert(rest[i] == es[i + 1]);
        }
        assert forall|i: int| 0 <= i < rest.len() && entry_key(#[trigger] rest[i]) == k implies entry_value(rest[i]) == v by {
            assert(rest[i] == es[i + 1]);
        }
        lemma_entries_scan(st1, rest, k, v);
        assert(scan_lines(st, es) == scan_lines(st1, rest));
        if exists|i: int| 0 <= i < rest.len() && entry_key(#[trigger] rest[i]) == k {
            let i = choose|i: int| 0 <= i < rest.len() && entry_key(#[trigger] rest[i]) == k;
            assert(es[i + 1] == rest[i]);
        }
        if exists|i: int| 0 <= i < es.len() && entry_key(#[trigger] es[i]) == k {
            let i = choose|i: int| 0 <= i < es.len() && entry_key(#[trigger] es[i]) == k;
            if i > 0 {
                assert(rest[i - 1] == es[i]);
            }
        }
    }
}

/// A marker `name:` does not start `key:...` for a key without a colon
/// other than `name`.
proof fn lemma_key_marker(k: Seq<char>, x: Seq<char>, p: Seq<char>)
    requires
        p.len() > 0,
        p.last() == ':',
        !p.drop_last().contains(':'),
        !k.contains(':'),
        k != p.drop_last(),
    ensures
        !p.is_prefix_of(k + seq![':'] + x),
{
    let w = k + seq![':'] + x;
    let n = p.len() - 1;
    if p.is_prefix_of(w) {
        if k.len() < n {
            crate::text::lemma_prefix_char(p, w, k.len() as int);
            assert(p.drop_last()[k.len() as int] == ':');
        } else if k.len() > n {
            crate::text::lemma_prefix_char(p, w, n);
            assert(k[n] == ':');
        } else {
            assert forall|q: int| 0 <= q < n implies k[q] == p.drop_last()[q] by {
                crate::text::lemma_prefix_char(p, w, q);
            }
            assert(k =~= p.drop_last());
        }
    }
}

/// The line written for a clean update is a state entry read back as the
/// update.
proof fn lemma_state_line_entry(u: (Seq<char>, Seq<char>))
    requires
        clean_update(u),
    ensures
        state_entry(state_line(u.0, u.1)),
        one_line(state_line(u.0, u.1)),
        entry_key(state_line(u.0, u.1)) == u.0,
        entry_value(state_line(u.0, u.1)) == u.1,
        state_line(u.0, u.1).len() > 0,
{
    reveal_strlit("  ");
    reveal_strlit(": ");
    reveal_strlit("state:");
    reveal_strlit("organs:");
    reveal_strlit("state");
    reveal_strlit("organs");
    reveal_strlit("---");
    let (k, v) = u;
    let l = state_line(k, v);
    assert(l[0] == ' ');
    assert(indented(l));
    if "---"@.is_prefix_of(l) {
        crate::text::lemma_prefix_char("---"@, l, 0);
    }
    assert(!"  "@.contains('\n')) by {
        if "  "@.contains('\n') {
            let q = choose|q: int| 0 <= q < "  "@.len() && "  "@[q] == '\n';
        }
    }
    assert(!": "@.contains('\n')) by {
        if ": "@.contains('\n') {
            let q = choose|q: int| 0 <= q < ": "@.len() && ": "@[q] == '\n';
        }
    }
    crate::text::lemma_no_char_concat("  "@, k, '\n');
    crate::text::lemma_no_char_concat("  "@ + k, ": "@, '\n');
    crate::text::lemma_no_char_concat("  "@ + k + ": "@, v, '\n');
    // Leading whitespace: the two spaces go, the key starts with no
    // whitespace.
    let body = k + ": "@;
    let kb = body + v;
    assert(l.skip(2) =~= kb);
    assert(crate::text::is_ws(' '));
    assert(!crate::text::is_ws(':'));
    assert(l.drop_first().drop_first() =~= kb);
    assert(crate::text::trim_start(l) == crate::text::trim_start(l.drop_first()));
    assert(crate::text::trim_start(l.drop_first()) == crate::text::trim_start(kb));
    if k.len() > 0 {
        crate::text::lemma_trimmed_first(k);
        assert(kb[0] == k[0]);
    } else {
        assert(kb[0] == ':');
    }
    assert(crate::text::trim_start(kb) == kb);
    let t = trim(l);
    let rest: Seq<char> = if v.len() > 0 {
        seq![' '] + v
    } else {
        Seq::empty()
    };
    if v.len() > 0 {
        crate::text::lemma_trimmed_last(v);
        assert(kb.last() == v.last());
        assert(t == kb);
        assert(t =~= k + seq![':'] + rest);
    } else {
        assert(kb =~= k + seq![':', ' ']);
        assert(kb.drop_last() =~= k + seq![':']);
        assert(crate::text::trim_end(kb) == crate::text::trim_end(kb.drop_last()));
        assert((k + seq![':']).last() == ':');
        assert(crate::text::trim_end(k + seq![':']) == k + seq![':']);
        assert(t =~= k + seq![':'] + rest);
    }
    // The first colon ends the key.
    crate::text::lemma_find_char(t, ':');
    assert(t[k.len() as int] == ':');
    assert forall|q: int| 0 <= q < k.len() implies t[q] != ':' by {
        assert(t[q] == k[q]);
        crate::text::lemma_no_char_at(k, ':', q);
    }
    assert(crate::text::find_char(t, ':') == Some(k.len() as int));
    let kv = split_once(t, ':')->0;
    assert(kv.0 =~= k);
    assert(kv.1 =~= rest);
    if v.len() > 0 {
        assert(rest.drop_first() =~= v);
        assert(crate::text::trim_start(rest) == crate::text::trim_start(v));
    }
    assert(trim(rest) == v);
    assert("state:"@.drop_last() =~= "state"@);
    assert("organs:"@.drop_last() =~= "organs"@);
    assert(!"state"@.contains(':')) by {
        if "state"@.contains(':') {
            let q = choose|q: int| 0 <= q < "state"@.len() && "state"@[q] == ':';
        }
    }
    assert(!"organs"@.contains(':')) by {
        if "organs"@.contains(':') {
            let q = choose|q: int| 0 <= q < "organs"@.len() && "organs"@[q] == ':';
        }
    }
    lemma_key_marker(k, rest, "state:"@);
    lemma_key_marker(k, rest, "organs:"@);
}

/// The first update for a key that no update has is none.
proof fn lemma_first_update_none(ups: Seq<(Seq<char>, Seq<char>)>, key: Seq<char>)
    ensures
        first_update(ups, key) is None ==> forall|j: int| 0 <= j < ups.len() ==> #[trigger] ups[j].0 != key,
        forall|j: int| 0 <= j < ups.len() && #[trigger] ups[j].0 == key && distinct_keys(ups) ==> first_update(ups, key)
            == Some(ups[j].1),
    decreases ups.len(),
{
    if ups.len() > 0 {
        lemma_first_update_none(ups.drop_first(), key);
        assert forall|j: int| 0 <= j < ups.len() && #[trigger] ups[j].0 == key && distinct_keys(ups) implies first_update(
            ups,
            key,
        ) == Some(ups[j].1) by {
            if j > 0 {
                assert(ups[0].0 != ups[j].0);
                assert(ups.drop_first()[j - 1] == ups[j]);
                assert(distinct_keys(ups.drop_first())) by {
                    assert forall|a: int, b: int| 0 <= a < b < ups.drop_first().len() implies ups.drop_first()[a].0
                        != ups.drop_first()[b].0 by {
                        assert(ups[a + 1].0 != ups[b + 1].0);
                    }
                }
            }
        }
        if first_update(ups, key) is None {
            assert forall|j: int| 0 <= j < ups.len() implies #[trigger] ups[j].0 != key by {
                if j > 0 {
                    assert(ups.drop_first()[j - 1] == ups[j]);
                }
            }
        }
    }
}

/// Every update whose key no line carried is appended.
proof fn lemma_appended_has(ups: Seq<(Seq<char>, Seq<char>)>, upd: Set<Seq<char>>, j: int)
    requires
        0 <= j < ups.len(),
        !upd.contains(ups[j].0),
    ensures
        appended(ups, upd).contains(state_line(ups[j].0, ups[j].1)),
    decreases ups.len(),
{
    let pre: Seq<Seq<char>> = if upd.contains(ups[0].0) {
        Seq::empty()
    } else {
        seq![state_line(ups[0].0, ups[0].1)]
    };
    let tl = appended(ups.drop_first(), upd);
    assert(appended(ups, upd) == pre + tl);
    if j == 0 {
        assert(appended(ups, upd)[0] == state_line(ups[0].0, ups[0].1));
    } else {
        assert(ups.drop_first()[j - 1] == ups[j]);
        lemma_appended_has(ups.drop_first(), upd, j - 1);
        let i = choose|i: int| 0 <= i < tl.len() && tl[i] == state_line(ups[j].0, ups[j].1);
        assert(appended(ups, upd)[pre.len() + i] == tl[i]);
    }
}

proof fn lemma_appended_agree(ups: Seq<(Seq<char>, Seq<char>)>, all: Seq<(Seq<char>, Seq<char>)>, upd: Set<Seq<char>>)
    requires
        forall|j: int| 0 <= j < all.len() ==> clean_update(#[trigger] all[j]),
        distinct_keys(all),
        forall|j: int| 0 <= j < ups.len() ==> all.contains(#[trigger] ups[j]),
    ensures
        forall|i: int| 0 <= i < appended(ups, upd).len() ==> entry_agrees(#[trigger] appended(ups, upd)[i], all),
    decreases ups.len(),
{
    if ups.len() > 0 {
        assert forall|j: int| 0 <= j < ups.drop_first().len() implies all.contains(#[trigger] ups.drop_first()[j]) by {
            assert(ups.drop_first()[j] == ups[j + 1]);
        }
        lemma_appended_agree(ups.drop_first(), all, upd);
        let u = ups[0];
        assert(all.contains(u));
        let ju = choose|ju: int| 0 <= ju < all.len() && all[ju] == u;
        lemma_state_line_entry(u);
        let l = state_line(u.0, u.1);
        assert forall|j: int| 0 <= j < all.len() && #[trigger] all[j].0 == entry_key(l) implies entry_value(l) == all[j].1 by {
            if j != ju {
                if j < ju {
                    assert(all[j].0 != all[ju].0);
                } else {
                    assert(all[ju].0 != all[j].0);
                }
            }
        }
        assert(entry_agrees(l, all));
        let pre: Seq<Seq<char>> = if upd.contains(u.0) {
            Seq::empty()
        } else {
            seq![l]
        };
        let tl = appended(ups.drop_first(), upd);
        assert(appended(ups, upd) == pre + tl);
        assert forall|i: int| 0 <= i < appended(ups, upd).len() implies entry_agrees(#[trigger] appended(ups, upd)[i], all) by {
            if i < pre.len() {
                assert(appended(ups, upd)[i] == l);
            } else {
                assert(appended(ups, upd)[i] == tl[i - pre.len()]);
            }
        }
    }
}

/// What the updater has written after the first `n` lines of a frontmatter
/// whose state block comes last, for clean updates with distinct keys.
pub open spec fn update_progress(
    st: UpdateScan,
    ls: Seq<Seq<char>>,
    s: int,
    n: int,
    ups: Seq<(Seq<char>, Seq<char>)>,
) -> bool {
    &&& st.0.len() == n
    &&& st.2 == (n > s)
    &&& forall|i: int| 0 <= i < n && i < s ==> one_line(#[trigger] st.0[i]) && !"state:"@.is_prefix_of(trim(st.0[i]))
    &&& n > s ==> st.0[s] == ls[s]
    &&& forall|i: int| s < i < n ==> entry_agrees(#[trigger] st.0[i], ups)
    &&& forall|k: Seq<char>| #[trigger] st.3.contains(k) ==> exists|i: int| s < i < n && entry_key(#[trigger] st.0[i]) == k
}

proof fn lemma_update_progress(
    ls: Seq<Seq<char>>,
    s: int,
    n: int,
    nm: Option<Seq<char>>,
    ups: Seq<(Seq<char>, Seq<char>)>,
)
    requires
        state_block_last(ls, s),
        0 <= n <= ls.len(),
        forall|i: int| 0 <= i < ls.len() ==> one_line(#[trigger] ls[i]),
        forall|j: int| 0 <= j < ups.len() ==> clean_update(#[trigger] ups[j]),
        distinct_keys(ups),
        nm matches Some(m) ==> !m.contains('\n'),
    ensures
        update_progress(update_lines((Seq::empty(), false, false, Set::empty()), ls.take(n), nm, ups), ls, s, n, ups),
    decreases n,
{
    reveal_strlit("mode:");
    reveal_strlit("mode: ");
    reveal_strlit("state:");
    let init: UpdateScan = (Seq::empty(), false, false, Set::empty());
    if n == 0 {
        assert(ls.take(0) =~= Seq::<Seq<char>>::empty());
        assert(update_lines(init, ls.take(0), nm, ups) == init);
    } else {
        lemma_update_progress(ls, s, n - 1, nm, ups);
        let prev = update_lines(init, ls.take(n - 1), nm, ups);
        let x = ls[n - 1];
        assert(ls.take(n) =~= ls.take(n - 1).push(x));
        lemma_update_lines_snoc(init, ls.take(n - 1), x, nm, ups);
        let cur = update_line(prev, x, nm, ups);
        assert(update_lines(init, ls.take(n), nm, ups) == cur);
        let (out, has_mode, in_state, upd) = prev;
        let t = trim(x);
        assert(one_line(x));
        let w = cur.0.last();
        assert(cur.0 == out.push(w));
        assert forall|i: int| 0 <= i < n - 1 implies cur.0[i] == out[i] by {}
        if n - 1 < s {
            assert(!"state:"@.is_prefix_of(t));
            assert(!in_state);
            assert(cur.3 == upd);
            assert(cur.2 == in_state);
            if "mode:"@.is_prefix_of(t) && nm is Some {
                let m = nm->0;
                assert(w == mode_line(m));
                lemma_mode_line_written(m);
                let ml = mode_line(m);
                assert(ml[0] == 'm');
                assert(!crate::text::is_ws('m'));
                assert(crate::text::trim_start(ml) == ml);
                crate::text::lemma_trim_end_keeps(ml, 0);
                assert(trim(ml)[0] == 'm');
                if "state:"@.is_prefix_of(trim(ml)) {
                    crate::text::lemma_prefix_char("state:"@, trim(ml), 0);
                }
            } else {
                assert(w == x);
            }
        } else if n - 1 == s {
            assert("state:"@.is_prefix_of(t));
            if "mode:"@.is_prefix_of(t) {
                crate::text::lemma_prefix_char("mode:"@, t, 0);
                crate::text::lemma_prefix_char("state:"@, t, 0);
            }
            assert(w == x);
            assert(cur.2);
            assert(cur.3 == upd);
        } else {
            assert(state_entry(x) && !"mode:"@.is_prefix_of(t));
            assert(in_state);
            if "state:"@.is_prefix_of(t) {
                assert(false);
            }
            let kv = split_once(t, ':')->0;
            let key = trim(kv.0);
            assert(key == entry_key(x));
            lemma_first_update_in(ups, key);
            lemma_first_update_none(ups, key);
            if let Some(nv) = first_update(ups, key) {
                let j = choose|j: int| 0 <= j < ups.len() && ups[j] == (key, nv);
                assert(clean_update(ups[j]));
                lemma_state_line_entry(ups[j]);
                assert(w == state_line(key, nv));
                assert forall|jj: int| 0 <= jj < ups.len() && #[trigger] ups[jj].0 == entry_key(w) implies entry_value(w)
                    == ups[jj].1 by {
                    if jj != j {
                        if jj < j {
                            assert(ups[jj].0 != ups[j].0);
                        } else {
                            assert(ups[j].0 != ups[jj].0);
                        }
                    }
                }
                assert(cur.3 == upd.insert(key));
                assert(entry_key(cur.0[n - 1]) == key);
            } else {
                assert(w == x);
                assert(cur.3 == upd);
            }
            assert(cur.2 == in_state);
            assert(entry_agrees(w, ups));
        }
        assert forall|k: Seq<char>| #[trigger] cur.3.contains(k) implies exists|i: int| s < i < n && entry_key(
            #[trigger] cur.0[i],
        ) == k by {
            if upd.contains(k) {
                let i = choose|i: int| s < i < n - 1 && entry_key(#[trigger] out[i]) == k;
                assert(cur.0[i] == out[i]);
            } else {
                assert(entry_key(cur.0[n - 1]) == k);
            }
        }
    }
}

/// What an updated card reads back for each state update is the value
/// written, for a card with frontmatter whose state block comes last,
/// frontmatter lines that do not start with `---`, a one-line new mode, and
/// clean state updates with distinct keys.
#[verifier::spinoff_prover]
#[verifier::rlimit(60)]
pub proof fn lemma_state_reads_back(
    content: Seq<char>,
    new_mode: Option<Seq<char>>,
    ups: Seq<(Seq<char>, Seq<char>)>,
)
    requires
        frontmatter_end(content) is Some,
        exists|s: int| state_block_last(frontmatter_lines(content), s),
        forall|i: int|
            0 <= i < frontmatter_lines(content).len() ==> !"---"@.is_prefix_of(#[trigger] frontmatter_lines(content)[i]),
        new_mode matches Some(m) ==> !m.contains('\n'),
        forall|j: int| 0 <= j < ups.len() ==> clean_update(#[trigger] ups[j]),
        distinct_keys(ups),
    ensures
        forall|j: int|
            0 <= j < ups.len() ==> parsed_card(updated_card(content, new_mode, ups)).0.dom().contains(#[trigger] ups[j].0)
                && parsed_card(updated_card(content, new_mode, ups)).0[ups[j].0] == ups[j].1,
{
    let ls = frontmatter_lines(content);
    let s = choose|s: int| state_block_last(ls, s);
    crate::text::lemma_lines_no_nl(card_text(content).skip(3).take(frontmatter_end(content)->0));
    assert forall|i: int| 0 <= i < ls.len() implies one_line(#[trigger] ls[i]) by {}
    lemma_update_progress(ls, s, ls.len() as int, new_mode, ups);
    assert(ls.take(ls.len() as int) =~= ls);
    let init: UpdateScan = (Seq::empty(), false, false, Set::empty());
    let st = update_lines(init, ls, new_mode, ups);
    let o = st.0;
    let pre: Seq<Seq<char>> = if !st.1 && new_mode is Some {
        seq![mode_line(new_mode->0)]
    } else {
        Seq::empty()
    };
    let app = appended(ups, st.3);
    let hs = written_lines(content, new_mode, ups);
    assert(o[s] == ls[s]);
    assert(framed(o) == o);
    let ins = mode_slot(o);
    let pl = pre.len() as int;
    // The mode line, when put, goes before the state block.
    reveal_strlit("state:");
    assert(ins <= s) by {
        if s == 0 {
            crate::text::lemma_trim_start_len(ls[0]);
            crate::text::lemma_trim_end_len(crate::text::trim_start(ls[0]));
            assert(trim(ls[0]).len() > 0);
        }
    }
    assert(hs =~= o.take(ins) + pre + o.skip(ins) + app);
    assert(hs.len() == pl + o.len() + app.len());
    // Every written line is one line, not starting with `---`.
    assert forall|j: int| 0 <= j < ups.len() implies ups.contains(#[trigger] ups[j]) by {}
    lemma_appended_agree(ups, ups, st.3);
    if new_mode is Some {
        lemma_mode_line_written(new_mode->0);
    }
    assert forall|i: int| 0 <= i < hs.len() implies !(#[trigger] hs[i]).contains('\n') && !"---"@.is_prefix_of(hs[i]) by {
        if ins <= i < ins + pl {
            assert(hs[i] == mode_line(new_mode->0));
        } else if i < pl + o.len() {
            let q = if i < ins { i } else { i - pl };
            assert(hs[i] == o[q]);
            if q < s {
            } else if q == s {
                assert(o[q] == ls[s]);
            } else {
                assert(entry_agrees(o[q], ups));
            }
        } else {
            assert(hs[i] == app[i - pl - o.len()]);
            assert(entry_agrees(app[i - pl - o.len()], ups));
        }
    }
    // The last written line is not empty.
    assert(hs.last().len() > 0) by {
        if app.len() > 0 {
            assert(hs.last() == app.last());
            assert(entry_agrees(app[app.len() - 1], ups));
            assert(indented(app.last()));
        } else {
            assert(hs.last() == o[o.len() - 1]);
            if o.len() - 1 == s {
                assert(o[s] == ls[s]);
                crate::text::lemma_trim_start_len(ls[s]);
                crate::text::lemma_trim_end_len(crate::text::trim_start(ls[s]));
                reveal_strlit("state:");
                assert(trim(ls[s]).len() > 0);
            } else {
                assert(entry_agrees(o[o.len() - 1], ups));
            }
        }
    }
    lemma_reread(content, new_mode, ups);
    lemma_scan_joined_eq(scan_start(), hs);
    // Before the state block, nothing is recorded.
    let before = o.take(ins) + pre + o.subrange(ins, s);
    let block = o.skip(s + 1) + app;
    assert(hs =~= before + seq![o[s]] + block);
    reveal_strlit("mode: ");
    assert forall|i: int| 0 <= i < before.len() implies !"state:"@.is_prefix_of(trim(#[trigger] before[i])) by {
        if ins <= i < ins + pl {
            let ml = mode_line(new_mode->0);
            assert(before[i] == ml);
            assert(ml[0] == 'm');
            assert(!crate::text::is_ws('m'));
            assert(crate::text::trim_start(ml) == ml);
            crate::text::lemma_trim_end_keeps(ml, 0);
            if "state:"@.is_prefix_of(trim(ml)) {
                crate::text::lemma_prefix_char("state:"@, trim(ml), 0);
            }
        } else if i < ins {
            assert(before[i] == o[i]);
        } else {
            assert(before[i] == o[i - pl]);
        }
    }
    let s0 = scan_start();
    lemma_scan_no_state(s0, before);
    let s1 = scan_lines(s0, before);
    let s2 = scan_line(s1, o[s]);
    assert(o[s] == ls[s]);
    assert(s2.0);
    assert(s2.2 == s1.2);
    assert(scan_lines(s1, seq![o[s]]) == s2) by {
        assert(seq![o[s]][0] == o[s]);
        assert(seq![o[s]].drop_first() =~= Seq::<Seq<char>>::empty());
        assert(scan_lines(s2, Seq::<Seq<char>>::empty()) == s2);
    }
    lemma_scan_lines_concat(s0, before, seq![o[s]] + block);
    lemma_scan_lines_concat(s1, seq![o[s]], block);
    assert(before + seq![o[s]] + block =~= before + (seq![o[s]] + block));
    // In the state block, each updated key reads back as its value.
    assert forall|i: int| 0 <= i < block.len() implies entry_agrees(#[trigger] block[i], ups) by {
        if i < o.skip(s + 1).len() {
            assert(block[i] == o[s + 1 + i]);
        } else {
            assert(block[i] == app[i - o.skip(s + 1).len()]);
        }
    }
    assert forall|j: int| 0 <= j < ups.len() implies parsed_card(updated_card(content, new_mode, ups)).0.dom().contains(
        #[trigger] ups[j].0,
    ) && parsed_card(updated_card(content, new_mode, ups)).0[ups[j].0] == ups[j].1 by {
        let k = ups[j].0;
        let v = ups[j].1;
        assert forall|i: int| 0 <= i < block.len() implies state_entry(#[trigger] block[i]) by {
            assert(entry_agrees(block[i], ups));
        }
        assert forall|i: int| 0 <= i < block.len() && entry_key(#[trigger] block[i]) == k implies entry_value(block[i]) == v by {
            assert(entry_agrees(block[i], ups));
        }
        lemma_entries_scan(s2, block, k, v);
        if st.3.contains(k) {
            let i = choose|i: int| s < i < o.len() && entry_key(#[trigger] o[i]) == k;
            assert(block[i - s - 1] == o[i]);
        } else {
            lemma_appended_has(ups, st.3, j);
            let i = choose|i: int| 0 <= i < app.len() && app[i] == state_line(k, v);
            lemma_state_line_entry(ups[j]);
            assert(block[o.skip(s + 1).len() + i] == app[i]);
        }
    }
}

} // verus!
