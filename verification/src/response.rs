//! The structured response that every organ prints: its status, the error
//! of a failure, and named fields, written out as one JSON object.
//!
//! The fields' values reach the response already as JSON text; the
//! response writes the object around them.

use vstd::prelude::*;
use crate::dict::StrMap;
use crate::sdk::opt_view;
use crate::text::{push_text, same_text};

verus! {

/// The hexadecimal digit of `n` (below 16), in lowercase.
pub open spec fn hex_digit(n: int) -> char {
    if n < 10 {
        (n + 48) as char
    } else {
        (n + 87) as char
    }
}

/// How one character is written inside a JSON string: the quote, the
/// backslash and the control characters are escaped, every other
/// character stands as it is.
pub open spec fn escaped_char(c: char) -> Seq<char> {
    let u = c as u32;
    if c == '"' {
        seq!['\\', '"']
    } else if c == '\\' {
        seq!['\\', '\\']
    } else if u == 0x08 {
        seq!['\\', 'b']
    } else if u == 0x09 {
        seq!['\\', 't']
    } else if u == 0x0A {
        seq!['\\', 'n']
    } else if u == 0x0C {
        seq!['\\', 'f']
    } else if u == 0x0D {
        seq!['\\', 'r']
    } else if u < 0x20 {
        seq!['\\', 'u', '0', '0', hex_digit((u / 16) as int), hex_digit((u % 16) as int)]
    } else {
        seq![c]
    }
}

/// The characters of `s`, each escaped.
pub open spec fn json_escaped(s: Seq<char>) -> Seq<char>
    decreases s.len(),
{
    if s.len() == 0 {
        Seq::empty()
    } else {
        json_escaped(s.drop_last()) + escaped_char(s.last())
    }
}

/// `s` as a JSON string: escaped, between double quotes.
pub open spec fn json_quoted(s: Seq<char>) -> Seq<char> {
    seq!['"'] + json_escaped(s) + seq!['"']
}

/// `serde_json::to_string` on a string slice: the text between double
/// quotes, each character escaped as `escaped_char` says (the escape table
/// of serde_json's serializer, with lowercase hexadecimal digits). Writing
/// into a byte vector cannot fail, so the error arm is never taken.
#[verifier::external_body]
fn json_quote(s: &str) -> (r: String)
    ensures
        r@ == json_quoted(s@),
{
    match serde_json::to_string(s) {
        Ok(t) => t,
        Err(_) => String::new(),
    }
}

/// Whether a later entry has the same key as the `i`-th.
pub open spec fn shadowed(es: Seq<(String, String)>, i: int) -> bool {
    exists|j: int| i < j < es.len() && (#[trigger] es[j]).0@ == es[i].0@
}

/// The object members written for the first `n` entries: each key that no
/// later entry sets again, with its value.
pub open spec fn members_json(es: Seq<(String, String)>, n: int) -> Seq<char>
    decreases n,
{
    if n <= 0 {
        Seq::empty()
    } else {
        members_json(es, n - 1) + if shadowed(es, n - 1) {
            Seq::empty()
        } else {
            ","@ + json_quoted(es[n - 1].0@) + ":"@ + es[n - 1].1@
        }
    }
}

/// The JSON object of a response: its status, its error when there is
/// one, then its fields.
pub open spec fn response_json(status: Seq<char>, error: Option<Seq<char>>, es: Seq<(String, String)>) -> Seq<char> {
    "{\"status\":"@ + json_quoted(status) + (match error {
        Some(e) => ",\"error\":"@ + json_quoted(e),
        None => Seq::empty(),
    }) + members_json(es, es.len() as int) + "}"@
}

/// Standard structured response returned by all organs: the status (`ok`
/// or `error`), the error message of a failure, and the named fields, each
/// as its JSON text.
#[derive(Debug, Clone)]
pub struct OrganResponse {
    pub status: String,
    pub error: Option<String>,
    pub data: StrMap,
}

fn shadowed_at(es: &Vec<(String, String)>, i: usize) -> (r: bool)
    requires
        i < es@.len(),
    ensures
        r == shadowed(es@, i as int),
{
    let n: usize = es.len();
    let mut j: usize = i + 1;
    while j < n
        invariant
            i < j <= es@.len(),
            n == es@.len(),
            forall|q: int| i < q < j ==> (#[trigger] es@[q]).0@ != es@[i as int].0@,
        decreases es@.len() - j,
    {
        if same_text(es[j].0.as_str(), es[i].0.as_str()) {
            return true;
        }
        j = j + 1;
    }
    false
}

impl OrganResponse {
    /// A successful response with no fields.
    pub fn ok() -> (r: Self)
        ensures
            r.status@ == "ok"@,
            r.error is None,
            r.data.entries@.len() == 0,
    {
        OrganResponse { status: String::from_str("ok"), error: None, data: StrMap::new() }
    }

    /// A successful response with the given fields.
    pub fn ok_with(data: StrMap) -> (r: Self)
        ensures
            r.status@ == "ok"@,
            r.error is None,
            r.data == data,
    {
        OrganResponse { status: String::from_str("ok"), error: None, data }
    }

    /// A failed response with its message.
    pub fn error(msg: String) -> (r: Self)
        ensures
            r.status@ == "error"@,
            opt_view(r.error) == Some(msg@),
            r.data.entries@.len() == 0,
    {
        OrganResponse { status: String::from_str("error"), error: Some(msg), data: StrMap::new() }
    }

    /// The response with the field `key` set to the JSON text `value`.
    pub fn with_field(self, key: String, value: String) -> (r: Self)
        ensures
            r.status == self.status,
            r.error == self.error,
            r.data.entries@ == self.data.entries@.push((key, value)),
            r.data@ == self.data@.insert(key@, value@),
    {
        let mut s = self;
        s.data.insert(key, value);
        s
    }

    /// The response as one JSON object: the status, the error when there
    /// is one, then each field once, with the value last set for it.
    pub fn to_json_string(&self) -> (r: String)
        ensures
            r@ == response_json(self.status@, opt_view(self.error), self.data.entries@),
    {
        let mut out = String::new();
        push_text(&mut out, "{\"status\":");
        let q = json_quote(self.status.as_str());
        push_text(&mut out, q.as_str());
        match &self.error {
            Some(e) => {
                push_text(&mut out, ",\"error\":");
                let qe = json_quote(e.as_str());
                push_text(&mut out, qe.as_str());
            },
            None => {},
        }
        let ghost head = out@;
        let es = &self.data.entries;
        let mut i: usize = 0;
        while i < es.len()
            invariant
                i <= es@.len(),
                es == &self.data.entries,
                out@ == head + members_json(es@, i as int),
            decreases es@.len() - i,
        {
            let ghost before = out@;
            if !shadowed_at(es, i) {
                push_text(&mut out, ",");
                let qk = json_quote(es[i].0.as_str());
                push_text(&mut out, qk.as_str());
                push_text(&mut out, ":");
                push_text(&mut out, es[i].1.as_str());
                assert(out@ =~= before + (","@ + json_quoted(es@[i as int].0@) + ":"@ + es@[i as int].1@));
            } else {
                assert(out@ =~= before + Seq::<char>::empty());
            }
            i = i + 1;
        }
        push_text(&mut out, "}");
        proof {
            let err: Seq<char> = match opt_view(self.error) {
                Some(e) => ",\"error\":"@ + json_quoted(e),
                None => Seq::empty(),
            };
            assert(head =~= "{\"status\":"@ + json_quoted(self.status@) + err);
        }
        out
    }

    /// The exit code that goes with the response: 0 for `ok`, 1 otherwise.
    pub fn exit_code(&self) -> (r: i32)
        ensures
            r == (if self.status@ == "ok"@ {
                0i32
            } else {
                1i32
            }),
    {
        if same_text(self.status.as_str(), "ok") {
            0
        } else {
            1
        }
    }
}

} // verus!
