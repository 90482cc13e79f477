//! The command line shared by the flag-driven organs: a manifest request,
//! a tool-list request, and named operations after `--sense`, `--tool` and
//! the like, looked at in a fixed order.

use vstd::prelude::*;
use crate::state::{flag_value, flag_word, has_word, words_view};
use crate::text::{chars_of, push_text, same_text};

verus! {

/// One flag that names an operation: the flag, the names it accepts, the
/// prefix of the error for any other name, and whether a missing name
/// means the first one.
#[derive(Debug)]
pub struct CliRule {
    pub flag: String,
    pub names: Vec<String>,
    pub unknown: String,
    pub empty_is_first: bool,
}

/// What a command line asks for.
#[derive(Debug)]
pub enum CliRequest {
    /// The organ's manifest.
    Meta,
    /// The list of tools.
    Tools,
    /// The `name`-th name of the `rule`-th rule.
    Named { rule: usize, name: usize },
    /// A name that its flag does not accept.
    Unknown { message: String },
    /// None of the rules' flags.
    Fallback,
}

pub open spec fn texts(v: Seq<String>) -> Seq<Seq<char>> {
    v.map_values(|s: String| s@)
}

/// The position of `w` among `names`, if it is one.
pub open spec fn name_index(names: Seq<Seq<char>>, w: Seq<char>) -> Option<int>
    decreases names.len(),
{
    if names.len() == 0 {
        None
    } else if names[0] == w {
        Some(0)
    } else {
        match name_index(names.drop_first(), w) {
            Some(i) => Some(i + 1),
            None => None,
        }
    }
}

/// A request as values: a tag (0 manifest, 1 tools, 2 named, 3 unknown,
/// 4 fallback), the rule and name, and the message.
pub type RequestView = (int, int, int, Seq<char>);

/// What the rules from the `k`-th on make of the words.
pub open spec fn rules_from(args: Seq<Seq<char>>, rules: Seq<CliRule>, k: int) -> RequestView
    decreases rules.len() - k,
{
    if k < 0 || k >= rules.len() {
        (4, 0, 0, Seq::empty())
    } else {
        let r = rules[k];
        match flag_word(args, r.flag@) {
            None => rules_from(args, rules, k + 1),
            Some(w) => if w.len() == 0 && r.empty_is_first && r.names@.len() > 0 {
                (2, k, 0, Seq::empty())
            } else {
                match name_index(texts(r.names@), w) {
                    Some(i) => (2, k, i, Seq::empty()),
                    None => (3, 0, 0, r.unknown@ + w),
                }
            },
        }
    }
}

/// What a command line (program name first) asks for: the manifest with
/// no arguments or a help flag, the tool list, else the first rule whose
/// flag is given.
pub open spec fn cli_request_of(args: Seq<Seq<char>>, rules: Seq<CliRule>) -> RequestView {
    if args.len() == 1 || has_word(args, "--help"@) || has_word(args, "-h"@) || has_word(args, "--meta"@) {
        (0, 0, 0, Seq::empty())
    } else if has_word(args, "--tools"@) {
        (1, 0, 0, Seq::empty())
    } else {
        rules_from(args, rules, 0)
    }
}

pub open spec fn cli_view(r: CliRequest) -> RequestView {
    match r {
        CliRequest::Meta => (0, 0, 0, Seq::empty()),
        CliRequest::Tools => (1, 0, 0, Seq::empty()),
        CliRequest::Named { rule, name } => (2, rule as int, name as int, Seq::empty()),
        CliRequest::Unknown { message } => (3, 0, 0, message@),
        CliRequest::Fallback => (4, 0, 0, Seq::empty()),
    }
}

fn any_word(args: &[&str], w: &str) -> (r: bool)
    ensures
        r == has_word(words_view(args@), w@),
{
    let mut i: usize = 0;
    while i < args.len()
        invariant
            i <= args@.len(),
            forall|k: int| 0 <= k < i ==> words_view(args@)[k] != w@,
        decreases args@.len() - i,
    {
        if same_text(args[i], w) {
            assert(words_view(args@)[i as int] == w@);
            return true;
        }
        i = i + 1;
    }
    false
}

fn index_of(names: &Vec<String>, w: &str) -> (r: Option<usize>)
    ensures
        match r {
            Some(i) => name_index(texts(names@), w@) == Some(i as int),
            None => name_index(texts(names@), w@) is None,
        },
{
    let ghost nv = texts(names@);
    let mut i: usize = 0;
    assert(nv.skip(0) =~= nv);
    while i < names.len()
        invariant
            i <= names@.len(),
            nv == texts(names@),
            forall|k: int| 0 <= k < i ==> nv[k] != w@,
            name_index(nv, w@) == match name_index(nv.skip(i as int), w@) {
                Some(j) => Some(j + i),
                None => None,
            },
        decreases names@.len() - i,
    {
        assert(nv.skip(i as int).drop_first() =~= nv.skip(i + 1));
        assert(nv.skip(i as int)[0] == names@[i as int]@);
        if same_text(names[i].as_str(), w) {
            return Some(i);
        }
        i = i + 1;
    }
    assert(nv.skip(i as int) =~= Seq::<Seq<char>>::empty());
    None
}

/// Read a command line (program name first) by the given rules.
pub fn cli_request(args: &[&str], rules: &Vec<CliRule>) -> (r: CliRequest)
    ensures
        cli_view(r) == cli_request_of(words_view(args@), rules@),
{
    if args.len() == 1 || any_word(args, "--help") || any_word(args, "-h") || any_word(args, "--meta") {
        return CliRequest::Meta;
    }
    if any_word(args, "--tools") {
        return CliRequest::Tools;
    }
    let ghost w = words_view(args@);
    let mut k: usize = 0;
    while k < rules.len()
        invariant
            k <= rules@.len(),
            w == words_view(args@),
            !(args@.len() == 1 || has_word(w, "--help"@) || has_word(w, "-h"@) || has_word(w, "--meta"@)),
            !has_word(w, "--tools"@),
            rules_from(w, rules@, 0) == rules_from(w, rules@, k as int),
        decreases rules@.len() - k,
    {
        let rule = &rules[k];
        match flag_value(args, rule.flag.as_str()) {
            None => {},
            Some(word) => {
                if chars_of(word.as_str()).len() == 0 && rule.empty_is_first && rule.names.len() > 0 {
                    return CliRequest::Named { rule: k, name: 0 };
                }
                match index_of(&rule.names, word.as_str()) {
                    Some(i) => {
                        return CliRequest::Named { rule: k, name: i };
                    },
                    None => {
                        let mut m = String::new();
                        push_text(&mut m, rule.unknown.as_str());
                        push_text(&mut m, word.as_str());
                        return CliRequest::Unknown { message: m };
                    },
                }
            },
        }
        k = k + 1;
    }
    CliRequest::Fallback
}

} // verus!
