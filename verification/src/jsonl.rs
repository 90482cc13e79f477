//! Logs of one JSON value per line: keeping the lines that parse.

use vstd::prelude::*;

verus! {

/// Whether `serde_json::from_str` reads a line as one JSON value.
pub uninterp spec fn json_line_ok(line: Seq<char>) -> bool;

/// Parse a line with `serde_json::from_str` into a JSON value and tell
/// whether that succeeded; the answer is named `json_line_ok`.
#[verifier::external_body]
fn parses_as_json(line: &str) -> (r: bool)
    ensures
        r == json_line_ok(line@),
{
    serde_json::from_str::<serde_json::Value>(line).is_ok()
}

/// The lines that parse as JSON, in their order.
pub open spec fn json_kept(ls: Seq<Seq<char>>) -> Seq<Seq<char>>
    decreases ls.len(),
{
    if ls.len() == 0 {
        Seq::empty()
    } else {
        let kept = json_kept(ls.drop_last());
        if json_line_ok(ls.last()) {
            kept.push(ls.last())
        } else {
            kept
        }
    }
}

pub open spec fn texts(v: Seq<String>) -> Seq<Seq<char>> {
    v.map_values(|s: String| s@)
}

/// The lines of a log that parse as JSON values, in their order; the others
/// are passed over.
pub fn json_lines(lines: &Vec<String>) -> (r: Vec<String>)
    ensures
        texts(r@) == json_kept(texts(lines@)),
{
    let ghost lv = texts(lines@);
    let mut out: Vec<String> = Vec::new();
    let mut i: usize = 0;
    while i < lines.len()
        invariant
            i <= lines@.len(),
            lv == texts(lines@),
            texts(out@) == json_kept(lv.take(i as int)),
        decreases lines@.len() - i,
    {
        assert(lv.take(i + 1).drop_last() =~= lv.take(i as int));
        assert(lv.take(i + 1).last() == lines@[i as int]@);
        let ok = parses_as_json(lines[i].as_str());
        if ok {
            let ghost before = texts(out@);
            out.push(String::from_str(lines[i].as_str()));
            assert(texts(out@) =~= before.push(lines@[i as int]@));
        }
        i = i + 1;
    }
    assert(lv.take(lines@.len() as int) =~= lv);
    out
}

} // verus!
