//! Ask organ: validating questions, confirmations and text prompts, the
//! options a question offers, and the pending-inquiries sense.

use vstd::prelude::*;
use crate::memory::{json_string_list, parse_string_list, texts};
use crate::sdk::{ArgsView, OrganArgs, opt_view};
use crate::text::{chars_of, dec, lines, push_dec, push_text, same_text, split_lines, string_from_chars, trim, trim_chars};

verus! {

/// The parameter `key`, else `alt`, as given.
pub open spec fn param_either(a: ArgsView, key: Seq<char>, alt: Seq<char>) -> Option<Seq<char>> {
    if a.5.contains_key(key) {
        Some(a.5[key])
    } else if a.5.contains_key(alt) {
        Some(a.5[alt])
    } else {
        None
    }
}

/// The trimmed prompt from `key` or `alt`, refused as
/// `Argument '<name>' cannot be empty` when blank or missing.
pub open spec fn prompt_of(a: ArgsView, key: Seq<char>, alt: Seq<char>, name: Seq<char>) -> Result<Seq<char>, Seq<char>> {
    let t = trim(
        match param_either(a, key, alt) {
            Some(v) => v,
            None => Seq::empty(),
        },
    );
    if t.len() == 0 {
        Err("Argument '"@ + name + "' cannot be empty"@)
    } else {
        Ok(t)
    }
}

pub open spec fn result_view(r: Result<String, String>) -> Result<Seq<char>, Seq<char>> {
    match r {
        Ok(s) => Ok(s@),
        Err(e) => Err(e@),
    }
}

/// Read a prompt from `key`, else `alt`.
pub fn prompt_arg(args: &OrganArgs, key: &str, alt: &str, name: &str) -> (r: Result<String, String>)
    ensures
        result_view(r) == prompt_of(args@, key@, alt@, name@),
{
    let v = match args.get(key) {
        Some(x) => x,
        None => match args.get(alt) {
            Some(y) => y,
            None => "",
        },
    };
    proof {
        reveal_strlit("");
        assert(""@ =~= Seq::<char>::empty());
    }
    let t = trim_chars(chars_of(v).as_slice());
    if t.len() == 0 {
        let mut e = String::new();
        push_text(&mut e, "Argument '");
        push_text(&mut e, name);
        push_text(&mut e, "' cannot be empty");
        Err(e)
    } else {
        Ok(string_from_chars(t.as_slice()))
    }
}

/// The pieces of `cur + rest` between commas.
pub open spec fn comma_pieces(cur: Seq<char>, rest: Seq<char>) -> Seq<Seq<char>>
    decreases rest.len(),
{
    if rest.len() == 0 {
        seq![cur]
    } else if rest[0] == ',' {
        seq![cur] + comma_pieces(Seq::empty(), rest.drop_first())
    } else {
        comma_pieces(cur.push(rest[0]), rest.drop_first())
    }
}

/// The trimmed, non-empty pieces.
pub open spec fn kept_pieces(ps: Seq<Seq<char>>) -> Seq<Seq<char>>
    decreases ps.len(),
{
    if ps.len() == 0 {
        Seq::empty()
    } else if trim(ps.last()).len() > 0 {
        kept_pieces(ps.drop_last()).push(trim(ps.last()))
    } else {
        kept_pieces(ps.drop_last())
    }
}

/// The options of a question: a JSON list of strings, else the
/// comma-separated choices; none when no options are given.
pub open spec fn options_of(raw: Option<Seq<char>>) -> Seq<Seq<char>> {
    match raw {
        None => Seq::empty(),
        Some(r) => match json_string_list(r) {
            Some(l) => l,
            None => kept_pieces(comma_pieces(Seq::empty(), r)),
        },
    }
}

/// Read the options of a question.
pub fn parse_options(raw: Option<&str>) -> (r: Vec<String>)
    ensures
        texts(r@) == options_of(match raw {
            Some(s) => Some(s@),
            None => None,
        }),
{
    let s = match raw {
        None => return Vec::new(),
        Some(x) => x,
    };
    match parse_string_list(s) {
        Some(v) => return v,
        None => {},
    }
    let cs = chars_of(s);
    let mut pieces: Vec<Vec<char>> = Vec::new();
    let mut cur: Vec<char> = Vec::new();
    let mut i: usize = 0;
    assert(cs@.skip(0) =~= cs@);
    while i < cs.len()
        invariant
            i <= cs@.len(),
            cs@ == s@,
            comma_pieces(Seq::empty(), s@) == pieces@.map_values(|w: Vec<char>| w@) + comma_pieces(
                cur@,
                cs@.skip(i as int),
            ),
        decreases cs@.len() - i,
    {
        let ghost before = pieces@.map_values(|w: Vec<char>| w@);
        assert(cs@.skip(i as int).drop_first() =~= cs@.skip(i + 1));
        let c = cs[i];
        if c == ',' {
            let ghost oc = cur@;
            pieces.push(cur);
            cur = Vec::new();
            assert(pieces@.map_values(|w: Vec<char>| w@) =~= before + seq![oc]);
            assert(cur@ =~= Seq::<char>::empty());
        } else {
            cur.push(c);
        }
        i = i + 1;
    }
    let ghost before = pieces@.map_values(|w: Vec<char>| w@);
    let ghost oc = cur@;
    pieces.push(cur);
    assert(pieces@.map_values(|w: Vec<char>| w@) =~= before + seq![oc]);
    let ghost all = pieces@.map_values(|w: Vec<char>| w@);
    let mut out: Vec<String> = Vec::new();
    let mut k: usize = 0;
    while k < pieces.len()
        invariant
            k <= pieces@.len(),
            all == pieces@.map_values(|w: Vec<char>| w@),
            texts(out@) == kept_pieces(all.take(k as int)),
        decreases pieces@.len() - k,
    {
        assert(all.take(k + 1).drop_last() =~= all.take(k as int));
        assert(all.take(k + 1).last() == all[k as int]);
        let t = trim_chars(pieces[k].as_slice());
        if t.len() > 0 {
            let ghost before = texts(out@);
            out.push(string_from_chars(t.as_slice()));
            assert(texts(out@) =~= before.push(trim(all[k as int])));
        }
        k = k + 1;
    }
    assert(all.take(pieces@.len() as int) =~= all);
    out
}

/// A question to put to the user, with its choices; the first choice is
/// the default selection.
#[derive(Debug)]
pub struct Question {
    pub question: String,
    pub options: Vec<String>,
    pub is_multi_select: bool,
    pub selected: String,
}

/// Check a question request: a question (`question` or `prompt`), at
/// least two options, and the multi-select flag (`true` only when given
/// as `true`).
pub fn ask_question(args: &OrganArgs) -> (r: Result<Question, String>)
    ensures
        prompt_of(args@, "question"@, "prompt"@, "question"@) matches Err(e) ==> (r matches Err(x) && x@ == e),
        prompt_of(args@, "question"@, "prompt"@, "question"@) matches Ok(q) ==> {
            let opts = options_of(
                if args@.5.contains_key("options"@) {
                    Some(args@.5["options"@])
                } else {
                    None
                },
            );
            if opts.len() < 2 {
                r matches Err(x) && x@ == "Argument 'options' must contain at least 2 candidate choices"@
            } else {
                r matches Ok(v) && v.question@ == q && texts(v.options@) == opts && v.selected@ == opts[0]
                    && v.is_multi_select == (args@.5.contains_key("is_multi_select"@)
                    && args@.5["is_multi_select"@] == "true"@)
            }
        },
{
    let question = match prompt_arg(args, "question", "prompt", "question") {
        Ok(q) => q,
        Err(e) => return Err(e),
    };
    let options = parse_options(args.get("options"));
    if options.len() < 2 {
        return Err(String::from_str("Argument 'options' must contain at least 2 candidate choices"));
    }
    let multi = match args.get("is_multi_select") {
        Some(v) => same_text(v, "true"),
        None => false,
    };
    let selected = String::from_str(options[0].as_str());
    Ok(Question { question, options, is_multi_select: multi, selected })
}

/// The pending-inquiries line for a log with `count` lines.
pub fn pending_questions(count: u64) -> (r: String)
    ensures
        r@ == "--- organ ask: active session inquiries: "@ + dec(count as nat) + " ---"@,
{
    let mut s = String::new();
    push_text(&mut s, "--- organ ask: active session inquiries: ");
    push_dec(&mut s, count);
    push_text(&mut s, " ---");
    s
}

/// The number of lines of an inquiry log.
pub fn inquiry_count(log: &str) -> (r: usize)
    ensures
        r == lines(log@).len(),
{
    let cs = chars_of(log);
    let ls = split_lines(cs.as_slice());
    ls.len()
}

} // verus!
