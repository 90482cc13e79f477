//! Channel organ: replies and status lines for the outbox, the tail of the
//! inbox, and the decisions of its standalone ACP bridge.

use vstd::prelude::*;
use crate::acp::AcpRequest;
use crate::ids::fresh_uuid;
use crate::issues::nonblank;
use crate::sdk::{ArgsView, OrganArgs, has_key, op_of, param_or};
use crate::text::{chars_of, contains_sub, lines, lowercase, push_text, same_text, split_lines, string_from_chars, trim, trim_chars};

verus! {

/// A reply accepted for the outbox.
#[derive(Debug)]
pub struct Reply {
    pub channel: String,
    pub message: String,
    pub delivered_chars: usize,
    pub preview: String,
}

/// Accept a reply: the message trimmed (an empty one is refused), with its
/// length in characters and its first 80 characters as a preview.
pub fn reply(message: &str, channel: &str) -> (r: Result<Reply, String>)
    ensures
        trim(message@).len() == 0 ==> (r matches Err(e) && e@ == "message cannot be empty"@),
        trim(message@).len() > 0 ==> (r matches Ok(rep) && rep.message@ == trim(message@)
            && rep.channel@ == channel@ && rep.delivered_chars == trim(message@).len()
            && rep.preview@ == trim(message@).take(
            if trim(message@).len() < 80 {
                trim(message@).len() as int
            } else {
                80
            },
        )),
{
    let cs = chars_of(message);
    let t = trim_chars(cs.as_slice());
    if t.len() == 0 {
        return Err(String::from_str("message cannot be empty"));
    }
    let n: usize = if t.len() < 80 { t.len() } else { 80 };
    let p = crate::text::slice_chars(t.as_slice(), 0, n);
    assert(t@.subrange(0, n as int) =~= t@.take(n as int));
    Ok(Reply {
        channel: String::from_str(channel),
        message: string_from_chars(t.as_slice()),
        delivered_chars: t.len(),
        preview: string_from_chars(p.as_slice()),
    })
}

/// Accept a status line: trimmed, and refused when empty.
pub fn status_line(status: &str) -> (r: Result<String, String>)
    ensures
        trim(status@).len() == 0 ==> (r matches Err(e) && e@ == "status cannot be empty"@),
        trim(status@).len() > 0 ==> (r matches Ok(s) && s@ == trim(status@)),
{
    let cs = chars_of(status);
    let t = trim_chars(cs.as_slice());
    if t.len() == 0 {
        Err(String::from_str("status cannot be empty"))
    } else {
        Ok(string_from_chars(t.as_slice()))
    }
}

/// The last five non-blank lines of the inbox (all of them when there are
/// fewer).
pub open spec fn inbox_tail(raw: Seq<char>) -> Seq<Seq<char>> {
    let ls = nonblank(lines(raw));
    if ls.len() > 5 {
        ls.skip(ls.len() - 5)
    } else {
        ls
    }
}

/// The inbox lines that the inbox sense reports.
pub fn inbox_lines(raw: &str) -> (r: Vec<String>)
    ensures
        r@.map_values(|s: String| s@) == inbox_tail(raw@),
{
    let cs = chars_of(raw);
    let ls = split_lines(cs.as_slice());
    let ghost lv = ls@.map_values(|l: Vec<char>| l@);
    let mut kept: Vec<String> = Vec::new();
    let mut i: usize = 0;
    while i < ls.len()
        invariant
            i <= ls@.len(),
            lv == ls@.map_values(|l: Vec<char>| l@),
            kept@.map_values(|s: String| s@) == nonblank(lv.take(i as int)),
        decreases ls@.len() - i,
    {
        assert(lv.take(i + 1).drop_last() =~= lv.take(i as int));
        assert(lv.take(i + 1).last() == ls@[i as int]@);
        let t = trim_chars(ls[i].as_slice());
        if t.len() > 0 {
            let ghost before = kept@.map_values(|s: String| s@);
            kept.push(string_from_chars(ls[i].as_slice()));
            assert(kept@.map_values(|s: String| s@) =~= before.push(lv[i as int]));
        }
        i = i + 1;
    }
    assert(lv.take(ls@.len() as int) =~= lv);
    let n = kept.len();
    if n <= 5 {
        return kept;
    }
    let mut out: Vec<String> = Vec::new();
    let mut k: usize = n - 5;
    let ghost all = kept@.map_values(|s: String| s@);
    while k < n
        invariant
            n == kept@.len(),
            5 < n,
            n - 5 <= k <= n,
            all == kept@.map_values(|s: String| s@),
            out@.map_values(|s: String| s@) == all.subrange(n - 5, k as int),
        decreases n - k,
    {
        let ghost before = out@.map_values(|s: String| s@);
        assert(all[k as int] == kept@[k as int]@);
        out.push(String::from_str(kept[k].as_str()));
        assert(out@.map_values(|s: String| s@) =~= before.push(all[k as int]));
        assert(all.subrange(n - 5, k as int).push(all[k as int]) =~= all.subrange(n - 5, k + 1));
        k = k + 1;
    }
    assert(all.subrange(n - 5, n as int) =~= all.skip(n - 5));
    out
}

/// The operations of the channel organ.
#[derive(Debug)]
pub enum ChannelOp {
    Status { status: String },
    Inbox,
    Reply { message: String, channel: String },
}

/// Which operation a request selects: status, then inbox, else a reply.
pub open spec fn channel_choice(a: ArgsView) -> int {
    let op = lowercase(op_of(a));
    if contains_sub(op, "status"@) || has_key(a, "status"@) {
        0
    } else if contains_sub(op, "inbox"@) || has_key(a, "sense"@) || has_key(a, "incoming_inbox"@) {
        1
    } else {
        2
    }
}

/// Route a request of the channel organ.
pub fn channel_route(args: &OrganArgs) -> (r: ChannelOp)
    ensures
        channel_choice(args@) == 0 ==> (r matches ChannelOp::Status { status } && status@ == param_or(
            args@,
            "status"@,
            param_or(args@, "message"@, ""@),
        )),
        channel_choice(args@) == 1 ==> r matches ChannelOp::Inbox,
        channel_choice(args@) == 2 ==> (r matches ChannelOp::Reply { message, channel } && message@
            == param_or(args@, "message"@, ""@) && channel@ == param_or(args@, "channel"@, "active"@)),
{
    let op = crate::text::to_lower(args.op());
    let o = op.as_str();
    if crate::text::contains_text(o, "status") || args.has("status") {
        ChannelOp::Status { status: String::from_str(args.get_or("status", args.get_or("message", ""))) }
    } else if crate::text::contains_text(o, "inbox") || args.has("sense") || args.has("incoming_inbox") {
        ChannelOp::Inbox
    } else {
        ChannelOp::Reply {
            message: String::from_str(args.get_or("message", "")),
            channel: String::from_str(args.get_or("channel", "active")),
        }
    }
}

/// What the bridge writes back for one request.
#[derive(Debug)]
pub enum BridgeReply {
    /// The `initialize` answer naming the channel agent.
    Initialized { id: String },
    /// A new session.
    SessionCreated { id: String, session_id: String },
    /// The end of a prompt turn.
    EndTurn { id: String },
    /// An unknown method.
    MethodNotFound { id: String, message: String },
}

/// What the bridge does with one request: its reply, if any, and the
/// prompt and session it forwards to the outbox, if any.
#[derive(Debug)]
pub struct BridgeAction {
    pub reply: Option<BridgeReply>,
    pub forward: Option<(String, String)>,
}

/// The bridge's reply to a request, as values: a tag (0 initialize, 1
/// session, 2 end of turn, 3 unknown method), the identifier and the text
/// it carries.
pub open spec fn reply_view(r: BridgeReply) -> (int, Seq<char>, Seq<char>) {
    match r {
        BridgeReply::Initialized { id } => (0, id@, Seq::empty()),
        BridgeReply::SessionCreated { id, session_id } => (1, id@, session_id@),
        BridgeReply::EndTurn { id } => (2, id@, Seq::empty()),
        BridgeReply::MethodNotFound { id, message } => (3, id@, message@),
    }
}

pub open spec fn text_or(o: Option<String>, d: Seq<char>) -> Seq<char> {
    match o {
        Some(s) => s@,
        None => d,
    }
}

/// The bridge's decision for a request, where `fresh` is the identifier a
/// new session takes. Requests without an identifier get no reply, and a
/// prompt is forwarded only when it is answered.
pub open spec fn bridge_spec(req: AcpRequest, fresh: Seq<char>, r: BridgeAction) -> bool {
    match req.id {
        None => r.reply is None && r.forward is None,
        Some(id) => {
            let m = req.method@;
            if m == "initialize"@ {
                r.reply matches Some(x) && reply_view(x) == (0int, id@, Seq::<char>::empty()) && r.forward is None
            } else if m == "session/new"@ {
                r.reply matches Some(x) && reply_view(x) == (1int, id@, "c-"@ + fresh) && r.forward is None
            } else if m == "session/prompt"@ {
                &&& r.reply matches Some(x) && reply_view(x) == (2int, id@, Seq::<char>::empty())
                &&& r.forward matches Some(f) && f.0@ == text_or(req.prompt, Seq::empty()) && f.1@
                    == text_or(req.session_id, "active"@)
            } else if m == "session/cancel"@ {
                r.reply is None && r.forward is None
            } else {
                r.reply matches Some(x) && reply_view(x) == (3int, id@, "method not found: "@ + m)
                    && r.forward is None
            }
        },
    }
}

/// Decide what the bridge does with a request, given the fresh identifier
/// a new session may take.
pub fn bridge_step_with(req: &AcpRequest, fresh: &str) -> (r: BridgeAction)
    ensures
        bridge_spec(*req, fresh@, r),
{
    let id = match &req.id {
        Some(i) => i,
        None => return BridgeAction { reply: None, forward: None },
    };
    let m = req.method.as_str();
    if same_text(m, "initialize") {
        BridgeAction { reply: Some(BridgeReply::Initialized { id: id.clone() }), forward: None }
    } else if same_text(m, "session/new") {
        let mut sid = String::new();
        push_text(&mut sid, "c-");
        push_text(&mut sid, fresh);
        BridgeAction {
            reply: Some(BridgeReply::SessionCreated { id: id.clone(), session_id: sid }),
            forward: None,
        }
    } else if same_text(m, "session/prompt") {
        proof {
            reveal_strlit("");
        }
        let prompt = match &req.prompt {
            Some(p) => String::from_str(p.as_str()),
            None => String::new(),
        };
        let sid = match &req.session_id {
            Some(s) => String::from_str(s.as_str()),
            None => String::from_str("active"),
        };
        BridgeAction { reply: Some(BridgeReply::EndTurn { id: id.clone() }), forward: Some((prompt, sid)) }
    } else if same_text(m, "session/cancel") {
        BridgeAction { reply: None, forward: None }
    } else {
        let mut msg = String::new();
        push_text(&mut msg, "method not found: ");
        push_text(&mut msg, m);
        BridgeAction { reply: Some(BridgeReply::MethodNotFound { id: id.clone(), message: msg }), forward: None }
    }
}

/// Decide what the bridge does with a request, drawing a fresh identifier
/// for a new session.
pub fn bridge_step(req: &AcpRequest) -> (r: BridgeAction)
    ensures
        exists|fresh: Seq<char>| crate::ids::hyphenated_v4(fresh) && bridge_spec(*req, fresh, r),
{
    let fresh = fresh_uuid();
    bridge_step_with(req, fresh.as_str())
}

/// Handle one line the bridge reads: nothing for a blank line; for a line
/// that is no JSON, the parse error to send back; otherwise what the bridge
/// does with the request the line holds.
pub fn bridge_line(line: &str) -> (r: Option<Result<BridgeAction, String>>)
    ensures
        r is None <==> trim(line@).len() == 0,
        trim(line@).len() > 0 ==> match crate::acp::json_request(line@) {
            Err(e) => r matches Some(Err(m)) && m@ == "parse error: "@ + e,
            Ok(q) => r matches Some(Ok(a)) && exists|req: AcpRequest, fresh: Seq<char>|
                {
                    &&& crate::acp::request_view(req) == q
                    &&& crate::ids::hyphenated_v4(fresh)
                    &&& bridge_spec(req, fresh, a)
                },
        },
{
    if crate::acp::request_text(line).is_none() {
        return None;
    }
    match crate::acp::decode_request(line) {
        Ok(req) => Some(Ok(bridge_step(&req))),
        Err(e) => Some(Err(bridge_parse_error(e.as_str()))),
    }
}

/// The bridge's answer to a line that is not valid JSON.
pub fn bridge_parse_error(detail: &str) -> (r: String)
    ensures
        r@ == "parse error: "@ + detail@,
{
    let mut m = String::new();
    push_text(&mut m, "parse error: ");
    push_text(&mut m, detail);
    m
}

} // verus!
