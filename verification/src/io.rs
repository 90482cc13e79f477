//! I/O organ: the paths its tools read, write and list, resolved against
//! the workspace by Unix path rules, and its changes sense.

use vstd::prelude::*;
use crate::sdk::{ArgsView, OrganArgs};
use crate::text::{chars_of, push_text, same_text, string_from_chars, trim, trim_chars};

verus! {

/// A path joined onto a base the way `Path::join` does on Unix: an
/// absolute path stands alone; otherwise a slash separates the two unless
/// the base is empty or already ends with one.
pub open spec fn joined(base: Seq<char>, p: Seq<char>) -> Seq<char> {
    if p.len() > 0 && p[0] == '/' {
        p
    } else if base.len() > 0 && base.last() != '/' {
        base + seq!['/'] + p
    } else {
        base + p
    }
}

/// Resolve a path against the workspace.
pub fn resolve_path(workspace: &str, p: &str) -> (r: String)
    ensures
        r@ == joined(workspace@, p@),
{
    let pc = chars_of(p);
    if pc.len() > 0 && pc[0] == '/' {
        return String::from_str(p);
    }
    let wc = chars_of(workspace);
    let mut out = String::from_str(workspace);
    if wc.len() > 0 && wc[wc.len() - 1] != '/' {
        crate::text::push_char(&mut out, '/');
    }
    push_text(&mut out, p);
    out
}

/// The depth below the start after one path component: `..` climbs one
/// level, `.` and an empty component stay, any other name descends.
pub open spec fn step_depth(depth: int, comp: Seq<char>) -> int {
    if comp == ".."@ {
        depth - 1
    } else if comp == "."@ || comp.len() == 0 {
        depth
    } else {
        depth + 1
    }
}

/// Whether walking the components of `rest` (the current one begun with
/// `comp`) from `depth` ever climbs above the start.
pub open spec fn climbs_out(rest: Seq<char>, depth: int, comp: Seq<char>) -> bool
    decreases rest.len(),
{
    if rest.len() == 0 {
        step_depth(depth, comp) < 0
    } else if rest[0] == '/' {
        step_depth(depth, comp) < 0 || climbs_out(rest.drop_first(), step_depth(depth, comp), Seq::empty())
    } else {
        climbs_out(rest.drop_first(), depth, comp.push(rest[0]))
    }
}

/// Whether a relative path, resolved against the workspace, leaves it: some
/// prefix of its components climbs above the workspace with `..`.
pub open spec fn escapes_workspace(p: Seq<char>) -> bool {
    !(p.len() > 0 && p[0] == '/') && climbs_out(p, 0, Seq::empty())
}

/// The path a read or write names: `path`, else `file`, trimmed; refused
/// when blank, and refused when it is relative and climbs out of the
/// workspace with `..`.
pub open spec fn path_of(a: ArgsView) -> Result<Seq<char>, Seq<char>> {
    let v = if a.5.contains_key("path"@) {
        a.5["path"@]
    } else if a.5.contains_key("file"@) {
        a.5["file"@]
    } else {
        Seq::empty()
    };
    if trim(v).len() == 0 {
        Err("Argument 'path' cannot be empty"@)
    } else if escapes_workspace(trim(v)) {
        Err("Path traversal outside the workspace is rejected: "@ + trim(v))
    } else {
        Ok(trim(v))
    }
}

fn is_dotdot(c: &Vec<char>) -> (r: bool)
    ensures
        r == (c@ == ".."@),
{
    proof {
        reveal_strlit("..");
    }
    let r = c.len() == 2 && c[0] == '.' && c[1] == '.';
    if r {
        assert(c@ =~= ".."@);
    }
    r
}

fn is_dot_or_empty(c: &Vec<char>) -> (r: bool)
    ensures
        r == (c@ == "."@ || c@.len() == 0),
{
    proof {
        reveal_strlit(".");
    }
    let r = c.len() == 0 || (c.len() == 1 && c[0] == '.');
    if c.len() == 1 && c[0] == '.' {
        assert(c@ =~= "."@);
    }
    r
}

/// Whether a relative path leaves the workspace.
pub fn path_escapes(p: &[char]) -> (r: bool)
    ensures
        r == escapes_workspace(p@),
{
    if p.len() > 0 && p[0] == '/' {
        return false;
    }
    let mut depth: u64 = 0;
    let mut comp: Vec<char> = Vec::new();
    let mut i: usize = 0;
    assert(p@.skip(0) =~= p@);
    while i < p.len()
        invariant
            i <= p@.len(),
            depth <= i,
            !(p@.len() > 0 && p@[0] == '/'),
            climbs_out(p@, 0, Seq::empty()) == climbs_out(p@.skip(i as int), depth as int, comp@),
        decreases p@.len() - i,
    {
        assert(p@.skip(i as int)[0] == p@[i as int]);
        assert(p@.skip(i as int).drop_first() =~= p@.skip(i + 1));
        if p[i] == '/' {
            if is_dotdot(&comp) {
                if depth == 0 {
                    assert(step_depth(depth as int, comp@) < 0);
                    assert(p@.skip(i as int)[0] == '/');
                    assert(climbs_out(p@.skip(i as int), depth as int, comp@));
                    return true;
                }
                depth = depth - 1;
            } else if !is_dot_or_empty(&comp) {
                depth = depth + 1;
            }
            comp = Vec::new();
        } else {
            comp.push(p[i]);
        }
        i = i + 1;
    }
    assert(p@.skip(i as int) =~= Seq::<char>::empty());
    if is_dotdot(&comp) {
        depth == 0
    } else {
        false
    }
}

pub open spec fn result_view(r: Result<String, String>) -> Result<Seq<char>, Seq<char>> {
    match r {
        Ok(s) => Ok(s@),
        Err(e) => Err(e@),
    }
}

/// Read the path a read or write names.
pub fn path_arg(args: &OrganArgs) -> (r: Result<String, String>)
    ensures
        result_view(r) == path_of(args@),
{
    let v = match args.get("path") {
        Some(x) => x,
        None => match args.get("file") {
            Some(y) => y,
            None => "",
        },
    };
    proof {
        reveal_strlit("");
        assert(""@ =~= Seq::<char>::empty());
    }
    let t = trim_chars(chars_of(v).as_slice());
    if t.len() == 0 {
        Err(String::from_str("Argument 'path' cannot be empty"))
    } else if path_escapes(t.as_slice()) {
        let mut e = String::from_str("Path traversal outside the workspace is rejected: ");
        crate::text::push_chars(&mut e, t.as_slice());
        Err(e)
    } else {
        Ok(string_from_chars(t.as_slice()))
    }
}

/// The directory a listing names: the workspace for a blank path or `.`,
/// else the path resolved against it.
pub open spec fn listing_dir(workspace: Seq<char>, path: Option<Seq<char>>) -> Seq<char> {
    let t = trim(
        match path {
            Some(p) => p,
            None => "."@,
        },
    );
    if t.len() == 0 || t == "."@ {
        workspace
    } else {
        joined(workspace, t)
    }
}

/// The directory a listing shows.
pub fn list_dir(workspace: &str, path: Option<&str>) -> (r: String)
    ensures
        r@ == listing_dir(workspace@, match path {
            Some(p) => Some(p@),
            None => None,
        }),
{
    let raw = match path {
        Some(p) => p,
        None => ".",
    };
    let t = string_from_chars(trim_chars(chars_of(raw).as_slice()).as_slice());
    if chars_of(t.as_str()).len() == 0 || same_text(t.as_str(), ".") {
        String::from_str(workspace)
    } else {
        resolve_path(workspace, t.as_str())
    }
}

/// The changes sense's report for the names of recently changed entries.
pub open spec fn change_report(names: Seq<Seq<char>>) -> Seq<char> {
    if names.len() == 0 {
        "--- organ io: workspace stable, no recent file modifications ---"@
    } else {
        "--- organ io: recent changes: "@ + joined_names(names) + " ---"@
    }
}

/// Names joined with `", "`.
pub open spec fn joined_names(names: Seq<Seq<char>>) -> Seq<char>
    decreases names.len(),
{
    if names.len() == 0 {
        Seq::empty()
    } else if names.len() == 1 {
        names[0]
    } else {
        joined_names(names.drop_last()) + ", "@ + names.last()
    }
}

/// Build the changes sense's report.
pub fn fs_change_report(names: &Vec<String>) -> (r: String)
    ensures
        r@ == change_report(names@.map_values(|s: String| s@)),
{
    let ghost nv = names@.map_values(|s: String| s@);
    if names.len() == 0 {
        return String::from_str("--- organ io: workspace stable, no recent file modifications ---");
    }
    let mut body = String::new();
    let mut i: usize = 0;
    while i < names.len()
        invariant
            i <= names@.len(),
            nv == names@.map_values(|s: String| s@),
            body@ == joined_names(nv.take(i as int)),
        decreases names@.len() - i,
    {
        assert(nv.take(i + 1).drop_last() =~= nv.take(i as int));
        assert(nv.take(i + 1).last() == names@[i as int]@);
        if i > 0 {
            push_text(&mut body, ", ");
        }
        push_text(&mut body, names[i].as_str());
        proof {
            if i == 0 {
                assert(nv.take(1) =~= seq![names@[0]@]);
                assert(nv.take(0) =~= Seq::<Seq<char>>::empty());
                assert(body@ =~= names@[0]@);
            }
        }
        i = i + 1;
    }
    assert(nv.take(names@.len() as int) =~= nv);
    let mut out = String::new();
    push_text(&mut out, "--- organ io: recent changes: ");
    push_text(&mut out, body.as_str());
    push_text(&mut out, " ---");
    out
}

} // verus!
