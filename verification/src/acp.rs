//! The Agent Client Protocol gateway: client profiles, the queue of
//! outgoing JSON-RPC messages, and the state machine that answers each
//! request.
//!
//! Requests reach the gateway already decoded into `AcpRequest`, and the
//! messages it sends leave as `AcpOutput` values; the JSON on the wire is
//! read and written around the library.

use vstd::prelude::*;
use serde_json::Value;
use crate::ids::{fresh_uuid, now_millis};
use crate::text::{ascii_lower, chars_of, contains_sub, contains_text, lowercase, push_text, same_text, strip_leading, strip_leading_chars, string_from_chars, to_ascii_lower, to_lower, trim, trim_chars};

verus! {

/// The editor client that the gateway serves.
#[derive(Clone, Copy, Debug, PartialEq, Eq, Structural)]
pub enum ClientProfile {
    Zed,
    Default,
    VsCode,
    Cli,
}

/// The profile that a name selects, ignoring ASCII case.
pub open spec fn profile_named(s: Seq<char>) -> ClientProfile {
    let l = ascii_lower(s);
    if l == "zed"@ {
        ClientProfile::Zed
    } else if l == "vscode"@ || l == "code"@ {
        ClientProfile::VsCode
    } else if l == "cli"@ || l == "terminal"@ {
        ClientProfile::Cli
    } else {
        ClientProfile::Default
    }
}

/// The profile the gateway's command line selects, and whether it is
/// forced, reading the words from the `i`-th on: `--profile` (or `-p`)
/// with a name after it, or one of `--zed`, `--standard`, `--default`,
/// `--vscode`, `--cli`; the last one given wins, and other words are
/// ignored.
pub open spec fn cli_options(args: Seq<Seq<char>>, i: int, acc: (ClientProfile, bool)) -> (ClientProfile, bool)
    decreases args.len() - i,
{
    if i < 0 || i >= args.len() {
        acc
    } else {
        let a = args[i];
        if a == "--profile"@ || a == "-p"@ {
            if i + 1 < args.len() {
                cli_options(args, i + 2, (profile_named(args[i + 1]), true))
            } else {
                cli_options(args, i + 1, acc)
            }
        } else if a == "--zed"@ {
            cli_options(args, i + 1, (ClientProfile::Zed, true))
        } else if a == "--standard"@ || a == "--default"@ {
            cli_options(args, i + 1, (ClientProfile::Default, true))
        } else if a == "--vscode"@ {
            cli_options(args, i + 1, (ClientProfile::VsCode, true))
        } else if a == "--cli"@ {
            cli_options(args, i + 1, (ClientProfile::Cli, true))
        } else {
            cli_options(args, i + 1, acc)
        }
    }
}

/// Read the gateway's command line (program name first): the client
/// profile and whether it was forced.
pub fn parse_cli_args(args: &[&str]) -> (r: (ClientProfile, bool))
    ensures
        r == cli_options(args@.map_values(|s: &str| s@), 1, (ClientProfile::Default, false)),
        forall|p: ClientProfile|
            args@.len() == 3 && (args@[1]@ == "--profile"@ || args@[1]@ == "-p"@) && args@[2]@ == #[trigger] wire_name(p)
                ==> r == (p, true),
{
    let ghost w = args@.map_values(|s: &str| s@);
    proof {
        assert forall|p: ClientProfile|
            args@.len() == 3 && (args@[1]@ == "--profile"@ || args@[1]@ == "-p"@) && args@[2]@ == #[trigger] wire_name(p)
                implies cli_options(w, 1, (ClientProfile::Default, false)) == (p, true) by {
            lemma_wire_name_selects(p, w[0], w[1]);
            assert(w =~= seq![w[0], w[1], wire_name(p)]);
        }
    }
    let mut profile = ClientProfile::Default;
    let mut forced = false;
    let mut i: usize = 1;
    while i < args.len()
        invariant
            1 <= i,
            i <= args@.len() + 1,
            w == args@.map_values(|s: &str| s@),
            cli_options(w, 1, (ClientProfile::Default, false)) == cli_options(w, i as int, (profile, forced)),
        decreases args@.len() + 1 - i,
    {
        let a = args[i];
        assert(w[i as int] == a@);
        if same_text(a, "--profile") || same_text(a, "-p") {
            if i + 1 < args.len() {
                assert(w[i + 1] == args@[i + 1]@);
                profile = ClientProfile::from_str(args[i + 1]);
                forced = true;
                i = i + 1;
            }
        } else if same_text(a, "--zed") {
            profile = ClientProfile::Zed;
            forced = true;
        } else if same_text(a, "--standard") || same_text(a, "--default") {
            profile = ClientProfile::Default;
            forced = true;
        } else if same_text(a, "--vscode") {
            profile = ClientProfile::VsCode;
            forced = true;
        } else if same_text(a, "--cli") {
            profile = ClientProfile::Cli;
            forced = true;
        }
        i = i + 1;
    }
    (profile, forced)
}

/// The name and title that a client gives of itself, where it gives them
/// as strings.
#[derive(Debug)]
pub struct ClientInfo {
    pub name: Option<String>,
    pub title: Option<String>,
}

pub open spec fn text_or_empty(o: Option<String>) -> Seq<char> {
    match o {
        Some(s) => s@,
        None => Seq::empty(),
    }
}

/// The profile recognised from the client's name and title: `zed` in
/// either selects Zed, then `vscode` or `code` selects VS Code.
pub open spec fn detected_profile(info: Option<ClientInfo>) -> ClientProfile {
    match info {
        None => ClientProfile::Default,
        Some(i) => {
            let combined = ascii_lower(text_or_empty(i.name) + " "@ + text_or_empty(i.title));
            if contains_sub(combined, "zed"@) {
                ClientProfile::Zed
            } else if contains_sub(combined, "vscode"@) || contains_sub(combined, "code"@) {
                ClientProfile::VsCode
            } else {
                ClientProfile::Default
            }
        },
    }
}

/// The name under which a profile is reported to the client.
pub open spec fn wire_name(p: ClientProfile) -> Seq<char> {
    match p {
        ClientProfile::Zed => "zed"@,
        ClientProfile::VsCode => "vscode"@,
        ClientProfile::Cli => "cli"@,
        ClientProfile::Default => "standard"@,
    }
}

/// The profile's own name, as its debug form prints it.
pub open spec fn debug_name(p: ClientProfile) -> Seq<char> {
    match p {
        ClientProfile::Zed => "Zed"@,
        ClientProfile::VsCode => "VsCode"@,
        ClientProfile::Cli => "Cli"@,
        ClientProfile::Default => "Default"@,
    }
}

impl ClientProfile {
    /// The profile named `s` (case-insensitive); unknown names give the
    /// default profile.
    pub fn from_str(s: &str) -> (r: Self)
        ensures
            r == profile_named(s@),
            forall|p: ClientProfile| #[trigger] wire_name(p) == ascii_lower(s@) ==> r == p,
    {
        proof {
            assert forall|p: ClientProfile| #[trigger] wire_name(p) == ascii_lower(s@) implies profile_named(s@) == p by {
                lemma_wire_name_selects(p, Seq::empty(), "-p"@);
            }
        }
        let l = to_ascii_lower(s);
        let ls = l.as_str();
        if same_text(ls, "zed") {
            ClientProfile::Zed
        } else if same_text(ls, "vscode") || same_text(ls, "code") {
            ClientProfile::VsCode
        } else if same_text(ls, "cli") || same_text(ls, "terminal") {
            ClientProfile::Cli
        } else {
            ClientProfile::Default
        }
    }

    /// Recognise the client from the information it sends on
    /// `initialize`.
    pub fn auto_detect(client_info: Option<&ClientInfo>) -> (r: Self)
        ensures
            r == detected_profile(match client_info {
                Some(i) => Some(*i),
                None => None,
            }),
    {
        match client_info {
            None => ClientProfile::Default,
            Some(info) => {
                let mut combined = String::new();
                match &info.name {
                    Some(n) => push_text(&mut combined, n.as_str()),
                    None => {},
                }
                push_text(&mut combined, " ");
                match &info.title {
                    Some(t) => push_text(&mut combined, t.as_str()),
                    None => {},
                }
                assert(combined@ =~= text_or_empty(info.name) + " "@ + text_or_empty(info.title));
                let lower = to_ascii_lower(combined.as_str());
                if contains_text(lower.as_str(), "zed") {
                    ClientProfile::Zed
                } else if contains_text(lower.as_str(), "vscode") || contains_text(
                    lower.as_str(),
                    "code",
                ) {
                    ClientProfile::VsCode
                } else {
                    ClientProfile::Default
                }
            },
        }
    }

    /// The name reported to the client for this profile.
    pub fn wire_name(&self) -> (r: &'static str)
        ensures
            r@ == wire_name(*self),
    {
        match self {
            ClientProfile::Zed => "zed",
            ClientProfile::VsCode => "vscode",
            ClientProfile::Cli => "cli",
            ClientProfile::Default => "standard",
        }
    }

    /// The profile's own name.
    pub fn debug_name(&self) -> (r: &'static str)
        ensures
            r@ == debug_name(*self),
    {
        match self {
            ClientProfile::Zed => "Zed",
            ClientProfile::VsCode => "VsCode",
            ClientProfile::Cli => "Cli",
            ClientProfile::Default => "Default",
        }
    }
}

/// The result carried by a successful response.
#[derive(Debug)]
pub enum AcpResult {
    /// The answer to `initialize`: protocol version, whether sessions can
    /// be loaded, and the agent's name, title, version and profile.
    Initialized {
        protocol_version: u64,
        load_session: bool,
        agent_name: String,
        agent_title: String,
        agent_version: String,
        profile: String,
    },
    /// A new session and its identifier.
    SessionCreated { session_id: String },
    /// An empty result object.
    Empty,
    /// The end of a prompt turn.
    EndTurn,
}

/// A `session/update` notification's payload.
#[derive(Debug)]
pub enum SessionUpdate {
    /// The slash commands on offer; the command list is gathered where the
    /// message is written.
    AvailableCommands,
    /// A reasoning chunk.
    ThoughtChunk { text: String },
    /// A completed tool call with one text content item.
    ToolCall { tool_call_id: String, title: String, kind: String, status: String, text: String },
    /// A message chunk.
    MessageChunk { text: String },
}

/// One outgoing JSON-RPC message. Request identifiers are carried as their
/// JSON text.
#[allow(inconsistent_fields)]
#[derive(Debug)]
pub enum AcpOutput {
    Response { id: String, result: AcpResult },
    Error { id: Option<String>, code: i64, message: String },
    Update { session_id: String, update: SessionUpdate },
}

/// A result as values.
pub enum ResultView {
    Initialized(u64, bool, Seq<char>, Seq<char>, Seq<char>, Seq<char>),
    SessionCreated(Seq<char>),
    Empty,
    EndTurn,
}

/// An update as values.
pub enum UpdateView {
    AvailableCommands,
    ThoughtChunk(Seq<char>),
    ToolCall(Seq<char>, Seq<char>, Seq<char>, Seq<char>, Seq<char>),
    MessageChunk(Seq<char>),
}

/// A message as values.
pub enum OutputView {
    Response(Seq<char>, ResultView),
    Error(Option<Seq<char>>, i64, Seq<char>),
    Update(Seq<char>, UpdateView),
}

impl View for AcpResult {
    type V = ResultView;

    open spec fn view(&self) -> ResultView {
        match self {
            AcpResult::Initialized {
                protocol_version,
                load_session,
                agent_name,
                agent_title,
                agent_version,
                profile,
            } => ResultView::Initialized(
                *protocol_version,
                *load_session,
                agent_name@,
                agent_title@,
                agent_version@,
                profile@,
            ),
            AcpResult::SessionCreated { session_id } => ResultView::SessionCreated(session_id@),
            AcpResult::Empty => ResultView::Empty,
            AcpResult::EndTurn => ResultView::EndTurn,
        }
    }
}

impl View for SessionUpdate {
    type V = UpdateView;

    open spec fn view(&self) -> UpdateView {
        match self {
            SessionUpdate::AvailableCommands => UpdateView::AvailableCommands,
            SessionUpdate::ThoughtChunk { text } => UpdateView::ThoughtChunk(text@),
            SessionUpdate::ToolCall { tool_call_id, title, kind, status, text } => UpdateView::ToolCall(
                tool_call_id@,
                title@,
                kind@,
                status@,
                text@,
            ),
            SessionUpdate::MessageChunk { text } => UpdateView::MessageChunk(text@),
        }
    }
}

pub open spec fn opt_text(o: Option<String>) -> Option<Seq<char>> {
    match o {
        Some(s) => Some(s@),
        None => None,
    }
}

impl View for AcpOutput {
    type V = OutputView;

    open spec fn view(&self) -> OutputView {
        match self {
            AcpOutput::Response { id, result } => OutputView::Response(id@, result@),
            AcpOutput::Error { id, code, message } => OutputView::Error(opt_text(*id), *code, message@),
            AcpOutput::Update { session_id, update } => OutputView::Update(session_id@, update@),
        }
    }
}

/// The queue of messages waiting to be written, in order.
pub struct AcpSender {
    outbox: Vec<AcpOutput>,
}

impl View for AcpSender {
    type V = Seq<OutputView>;

    closed spec fn view(&self) -> Seq<OutputView> {
        self.outbox@.map_values(|o: AcpOutput| o@)
    }
}

impl AcpSender {
    /// A sender with nothing queued.
    pub fn new() -> (s: Self)
        ensures
            s@ == Seq::<OutputView>::empty(),
    {
        let s = AcpSender { outbox: Vec::new() };
        assert(s@ =~= Seq::<OutputView>::empty());
        s
    }

    /// Queue one message.
    pub fn send(&mut self, msg: AcpOutput)
        ensures
            final(self)@ == old(self)@.push(msg@),
    {
        let ghost m = msg@;
        self.outbox.push(msg);
        assert(self@ =~= old(self)@.push(m));
    }

    /// Queue a response to the request whose identifier is `id`.
    pub fn send_response(&mut self, id: String, result: AcpResult)
        ensures
            final(self)@ == old(self)@.push(OutputView::Response(id@, result@)),
    {
        self.send(AcpOutput::Response { id, result });
    }

    /// Queue an error, tied to a request where its identifier is known.
    pub fn send_error(&mut self, id: Option<String>, code: i64, message: String)
        ensures
            final(self)@ == old(self)@.push(OutputView::Error(opt_text(id), code, message@)),
    {
        self.send(AcpOutput::Error { id, code, message });
    }

    /// Queue a `session/update` notification.
    pub fn send_session_update(&mut self, session_id: String, update: SessionUpdate)
        ensures
            final(self)@ == old(self)@.push(OutputView::Update(session_id@, update@)),
    {
        self.send(AcpOutput::Update { session_id, update });
    }

    /// Hand over the queued messages, in order, and empty the queue.
    pub fn take_outbox(&mut self) -> (r: Vec<AcpOutput>)
        ensures
            r@.map_values(|o: AcpOutput| o@) == old(self)@,
            final(self)@ == Seq::<OutputView>::empty(),
    {
        let mut taken: Vec<AcpOutput> = Vec::new();
        std::mem::swap(&mut taken, &mut self.outbox);
        assert(self@ =~= Seq::<OutputView>::empty());
        taken
    }
}

/// A decoded JSON-RPC request: its identifier (as JSON text, where one is
/// given), its method (empty where none is given), the client information
/// where `params.clientInfo` is present, and the string parameters
/// `params.sessionId` and `params.prompt`.
#[derive(Debug)]
pub struct AcpRequest {
    pub id: Option<String>,
    pub method: String,
    pub client_info: Option<ClientInfo>,
    pub session_id: Option<String>,
    pub prompt: Option<String>,
}

/// A request as values: its identifier (as JSON text), its method, the
/// client's name and title, its session identifier and its prompt.
pub open spec fn request_view(r: AcpRequest) -> (
    Option<Seq<char>>,
    Seq<char>,
    Option<(Option<Seq<char>>, Option<Seq<char>>)>,
    Option<Seq<char>>,
    Option<Seq<char>>,
) {
    (
        opt_text(r.id),
        r.method@,
        match r.client_info {
            Some(i) => Some((opt_text(i.name), opt_text(i.title))),
            None => None,
        },
        opt_text(r.session_id),
        opt_text(r.prompt),
    )
}

/// What `serde_json::from_str` makes of a line read as a JSON-RPC request:
/// the `id` member as its JSON text, the `method` string (empty where it is
/// missing or not a string), `params.clientInfo` where present with its
/// string `name` and `title`, and the strings `params.sessionId` and
/// `params.prompt`; or, where the text is no JSON, the parser's message.
pub uninterp spec fn json_request(text: Seq<char>) -> Result<
    (
        Option<Seq<char>>,
        Seq<char>,
        Option<(Option<Seq<char>>, Option<Seq<char>>)>,
        Option<Seq<char>>,
        Option<Seq<char>>,
    ),
    Seq<char>,
>;

pub open spec fn decoded_view(r: Result<AcpRequest, String>) -> Result<
    (
        Option<Seq<char>>,
        Seq<char>,
        Option<(Option<Seq<char>>, Option<Seq<char>>)>,
        Option<Seq<char>>,
        Option<Seq<char>>,
    ),
    Seq<char>,
> {
    match r {
        Ok(q) => Ok(request_view(q)),
        Err(e) => Err(e@),
    }
}

/// Decode a JSON-RPC line with `serde_json::from_str` into `Value`, then
/// pick its members (`get`, `pointer`, `as_str`); its result is named
/// `json_request`.
#[verifier::external_body]
pub(crate) fn decode_request(text: &str) -> (r: Result<AcpRequest, String>)
    ensures
        decoded_view(r) == json_request(text@),
{
    let m: serde_json::Value = serde_json::from_str(text).map_err(|e| e.to_string())?;
    let s = |p: &str| m.pointer(p).and_then(|v| v.as_str()).map(String::from);
    Ok(AcpRequest {
        id: m.get("id").map(|v| v.to_string()),
        method: s("/method").unwrap_or_default(),
        client_info: m.pointer("/params/clientInfo").map(|_| ClientInfo {
            name: s("/params/clientInfo/name"),
            title: s("/params/clientInfo/title"),
        }),
        session_id: s("/params/sessionId"),
        prompt: s("/params/prompt"),
    })
}

/// A session the gateway knows: its identifier, when it was opened (in
/// milliseconds since the epoch, 0 for a loaded one) and its profile.
pub struct AcpSession {
    pub id: String,
    pub created_ms: u64,
    pub profile: ClientProfile,
}

/// The gateway: the message queue, the profile in force, whether the
/// profile was fixed by the command line, and the sessions opened so far.
pub struct AcpGateway {
    sender: AcpSender,
    profile: ClientProfile,
    force_profile: bool,
    sessions: Vec<AcpSession>,
    workspace_root: String,
}

/// The identifiers of a list of sessions.
pub open spec fn session_ids(ss: Seq<AcpSession>) -> Seq<Seq<char>> {
    ss.map_values(|s: AcpSession| s.id@)
}

/// The gateway state as values: profile, forced flag, session ids.
pub type GatewayState = (ClientProfile, bool, Seq<Seq<char>>);

/// No session identifier occurs twice.
pub open spec fn distinct_ids(ids: Seq<Seq<char>>) -> bool {
    forall|i: int, j: int| 0 <= i < j < ids.len() ==> ids[i] != ids[j]
}

/// The answer to `initialize`.
pub open spec fn init_result(p: ClientProfile) -> ResultView {
    ResultView::Initialized(
        1,
        true,
        "presence-acp"@,
        "Presence ACP Gateway"@,
        "0.3.0"@,
        wire_name(p),
    )
}

/// The text that the gateway echoes for a prompt.
pub open spec fn echo_text(p: ClientProfile, clean: Seq<char>) -> Seq<char> {
    "Received prompt (profile: "@ + debug_name(p) + "): \""@ + clean + "\"\n"@
}

/// The updates of one prompt turn: a reasoning chunk for Zed, then for
/// `/journal` the journal tool call and message, else the echo.
pub open spec fn turn_updates(p: ClientProfile, sid: Seq<char>, prompt: Seq<char>, fresh: Seq<char>) -> Seq<OutputView> {
    let clean = trim(prompt);
    let thought: Seq<OutputView> = if p == ClientProfile::Zed {
        seq![OutputView::Update(sid, UpdateView::ThoughtChunk("Evaluating prompt with Presence Triad..."@))]
    } else {
        Seq::empty()
    };
    if clean == "/journal"@ {
        thought + seq![
            OutputView::Update(
                sid,
                UpdateView::ToolCall(
                    "t-"@ + fresh,
                    "Quest Journal"@,
                    "other"@,
                    "completed"@,
                    "Active quest: System bootstrap and verification"@,
                ),
            ),
            OutputView::Update(sid, UpdateView::MessageChunk("Quest Journal: Current topic active in workspace."@)),
        ]
    } else {
        thought + seq![OutputView::Update(sid, UpdateView::MessageChunk(echo_text(p, clean)))]
    }
}

pub open spec fn text_or(o: Option<String>, d: Seq<char>) -> Seq<char> {
    match o {
        Some(s) => s@,
        None => d,
    }
}

/// One request's effect: the next state and the messages sent, where
/// `fresh` is the random identifier that the request may use.
pub open spec fn acp_step(st: GatewayState, req: AcpRequest, fresh: Seq<char>) -> (GatewayState, Seq<OutputView>) {
    let (p, force, ids) = st;
    let m = req.method@;
    if m == "session/cancel"@ {
        (st, Seq::empty())
    } else if m != "initialize"@ && m != "session/new"@ && m != "session/load"@ && m != "session/prompt"@ {
        (st, seq![OutputView::Error(opt_text(req.id), -32601i64, "Method not found: "@ + m)])
    } else if req.id is None {
        (st, Seq::empty())
    } else {
        let id = req.id->0@;
        if m == "initialize"@ {
            let np = if force {
                p
            } else {
                detected_profile(req.client_info)
            };
            ((np, force, ids), seq![OutputView::Response(id, init_result(np))])
        } else if m == "session/new"@ {
            let sid = "acp-"@ + fresh;
            let nids = if ids.contains(sid) {
                ids
            } else {
                ids.push(sid)
            };
            let first = seq![OutputView::Response(id, ResultView::SessionCreated(sid))];
            (
                (p, force, nids),
                if p == ClientProfile::Zed {
                    first + seq![OutputView::Update(sid, UpdateView::AvailableCommands)]
                } else {
                    first
                },
            )
        } else if m == "session/load"@ {
            let sid = text_or(req.session_id, Seq::empty());
            let nids = if ids.contains(sid) || sid.len() == 0 {
                ids
            } else {
                ids.push(sid)
            };
            ((p, force, nids), seq![OutputView::Response(id, ResultView::Empty)])
        } else {
            let prompt = text_or(req.prompt, Seq::empty());
            let sid = text_or(req.session_id, "default"@);
            (
                st,
                turn_updates(p, sid, prompt, fresh) + seq![OutputView::Response(id, ResultView::EndTurn)],
            )
        }
    }
}

/// The text of a line worth decoding: the line trimmed, unless nothing is
/// left.
pub fn request_text(line: &str) -> (r: Option<String>)
    ensures
        match r {
            Some(t) => t@ == trim(line@) && t@.len() > 0,
            None => trim(line@).len() == 0,
        },
{
    let cs = chars_of(line);
    let t = trim_chars(cs.as_slice());
    if t.len() == 0 {
        None
    } else {
        Some(string_from_chars(t.as_slice()))
    }
}

impl AcpGateway {
    /// The gateway's state as values.
    pub closed spec fn state(&self) -> GatewayState {
        (self.profile, self.force_profile, session_ids(self.sessions@))
    }

    /// The messages queued and not yet taken.
    pub closed spec fn outbox(&self) -> Seq<OutputView> {
        self.sender@
    }

    /// The workspace the gateway serves.
    pub closed spec fn root(&self) -> Seq<char> {
        self.workspace_root@
    }

    /// The gateway's invariant: session identifiers are distinct.
    pub closed spec fn wf(&self) -> bool {
        distinct_ids(session_ids(self.sessions@))
    }

    /// A gateway with no sessions, serving `profile`, which the client may
    /// override on `initialize` unless `force_profile` is set.
    pub fn new(sender: AcpSender, profile: ClientProfile, force_profile: bool, workspace_root: String) -> (g: Self)
        ensures
            g.wf(),
            g.state() == (profile, force_profile, Seq::<Seq<char>>::empty()),
            g.outbox() == sender@,
            g.root() == workspace_root@,
    {
        let g = AcpGateway {
            sender,
            profile,
            force_profile,
            sessions: Vec::new(),
            workspace_root,
        };
        assert(session_ids(g.sessions@) =~= Seq::<Seq<char>>::empty());
        g
    }

    /// Hand over the queued messages, in order, and empty the queue.
    pub fn take_outbox(&mut self) -> (r: Vec<AcpOutput>)
        requires
            old(self).wf(),
        ensures
            final(self).wf(),
            r@.map_values(|o: AcpOutput| o@) == old(self).outbox(),
            final(self).outbox() == Seq::<OutputView>::empty(),
            final(self).state() == old(self).state(),
            final(self).root() == old(self).root(),
    {
        self.sender.take_outbox()
    }

    /// The workspace the gateway serves.
    pub fn workspace_root(&self) -> (r: &str)
        ensures
            r@ == self.root(),
    {
        self.workspace_root.as_str()
    }

    /// The profile in force.
    pub fn effective_profile(&self) -> (r: ClientProfile)
        ensures
            r == self.state().0,
    {
        self.profile
    }

    /// Whether a session with this identifier is known.
    fn has_session(&self, sid: &str) -> (r: bool)
        ensures
            r == session_ids(self.sessions@).contains(sid@),
    {
        let mut i: usize = 0;
        while i < self.sessions.len()
            invariant
                i <= self.sessions@.len(),
                forall|k: int| 0 <= k < i ==> session_ids(self.sessions@)[k] != sid@,
            decreases self.sessions@.len() - i,
        {
            if same_text(self.sessions[i].id.as_str(), sid) {
                assert(session_ids(self.sessions@)[i as int] == sid@);
                return true;
            }
            i = i + 1;
        }
        proof {
            if session_ids(self.sessions@).contains(sid@) {
                let k = choose|k: int| 0 <= k < session_ids(self.sessions@).len() && session_ids(self.sessions@)[k] == sid@;
                assert(session_ids(self.sessions@)[k] != sid@);
            }
        }
        false
    }

    /// Record a session unless one with the same identifier exists.
    fn open_session(&mut self, sid: String, created_ms: u64)
        requires
            old(self).wf(),
        ensures
            final(self).wf(),
            final(self).state() == (old(self).state().0, old(self).state().1, if old(self).state().2.contains(sid@) {
                old(self).state().2
            } else {
                old(self).state().2.push(sid@)
            }),
            final(self).outbox() == old(self).outbox(),
            final(self).root() == old(self).root(),
    {
        if !self.has_session(sid.as_str()) {
            let ghost before = session_ids(self.sessions@);
            let p = self.profile;
            self.sessions.push(AcpSession { id: sid, created_ms, profile: p });
            assert(session_ids(self.sessions@) =~= before.push(sid@));
        }
    }

    /// Queue the updates of one prompt turn.
    fn execute_turn(&mut self, session_id: &str, prompt: &str, fresh: &str)
        ensures
            final(self).outbox() == old(self).outbox() + turn_updates(
                old(self).state().0,
                session_id@,
                prompt@,
                fresh@,
            ),
            final(self).state() == old(self).state(),
            final(self).sessions == old(self).sessions,
            final(self).root() == old(self).root(),
    {
        let ghost start = self.outbox();
        let pc = chars_of(prompt);
        let clean_chars = trim_chars(pc.as_slice());
        let clean = string_from_chars(clean_chars.as_slice());
        let ghost thought: Seq<OutputView> = if self.profile == ClientProfile::Zed {
            seq![OutputView::Update(session_id@, UpdateView::ThoughtChunk("Evaluating prompt with Presence Triad..."@))]
        } else {
            Seq::empty()
        };
        if self.profile == ClientProfile::Zed {
            self.sender.send_session_update(
                String::from_str(session_id),
                SessionUpdate::ThoughtChunk {
                    text: String::from_str("Evaluating prompt with Presence Triad..."),
                },
            );
        }
        assert(self.outbox() =~= start + thought);
        if same_text(clean.as_str(), "/journal") {
            let mut tool_id = String::new();
            push_text(&mut tool_id, "t-");
            push_text(&mut tool_id, fresh);
            self.sender.send_session_update(
                String::from_str(session_id),
                SessionUpdate::ToolCall {
                    tool_call_id: tool_id,
                    title: String::from_str("Quest Journal"),
                    kind: String::from_str("other"),
                    status: String::from_str("completed"),
                    text: String::from_str("Active quest: System bootstrap and verification"),
                },
            );
            self.sender.send_session_update(
                String::from_str(session_id),
                SessionUpdate::MessageChunk {
                    text: String::from_str("Quest Journal: Current topic active in workspace."),
                },
            );
        } else {
            let mut echo = String::new();
            push_text(&mut echo, "Received prompt (profile: ");
            push_text(&mut echo, self.profile.debug_name());
            push_text(&mut echo, "): \"");
            push_text(&mut echo, clean.as_str());
            push_text(&mut echo, "\"\n");
            self.sender.send_session_update(
                String::from_str(session_id),
                SessionUpdate::MessageChunk { text: echo },
            );
        }
        assert(self.outbox() =~= start + turn_updates(self.profile, session_id@, prompt@, fresh@));
    }

    /// Answer one request, given the fresh identifier and the clock
    /// reading that it may use.
    pub fn handle_request_with(&mut self, req: &AcpRequest, fresh: &str, now_ms: u64)
        requires
            old(self).wf(),
        ensures
            final(self).wf(),
            final(self).state() == acp_step(old(self).state(), *req, fresh@).0,
            final(self).outbox() == old(self).outbox() + acp_step(old(self).state(), *req, fresh@).1,
            final(self).root() == old(self).root(),
    {
        let ghost st = self.state();
        let ghost start = self.outbox();
        let m = req.method.as_str();
        if same_text(m, "session/cancel") {
            assert(self.outbox() =~= start + Seq::<OutputView>::empty());
            return;
        }
        if !same_text(m, "initialize") && !same_text(m, "session/new") && !same_text(m, "session/load")
            && !same_text(m, "session/prompt") {
            let mut msg = String::new();
            push_text(&mut msg, "Method not found: ");
            push_text(&mut msg, m);
            let id = match &req.id {
                Some(i) => Some(i.clone()),
                None => None,
            };
            self.sender.send_error(id, -32601, msg);
            assert(self.outbox() =~= start + acp_step(st, *req, fresh@).1);
            return;
        }
        let id = match &req.id {
            Some(i) => i,
            None => {
                assert(self.outbox() =~= start + Seq::<OutputView>::empty());
                return;
            },
        };
        if same_text(m, "initialize") {
            if !self.force_profile {
                self.profile = ClientProfile::auto_detect(
                    match &req.client_info {
                        Some(ci) => Some(ci),
                        None => None,
                    },
                );
            }
            let p = self.profile;
            self.sender.send_response(
                id.clone(),
                AcpResult::Initialized {
                    protocol_version: 1,
                    load_session: true,
                    agent_name: String::from_str("presence-acp"),
                    agent_title: String::from_str("Presence ACP Gateway"),
                    agent_version: String::from_str("0.3.0"),
                    profile: String::from_str(p.wire_name()),
                },
            );
            assert(self.outbox() =~= start + acp_step(st, *req, fresh@).1);
        } else if same_text(m, "session/new") {
            let mut sid = String::new();
            push_text(&mut sid, "acp-");
            push_text(&mut sid, fresh);
            self.open_session(sid.clone(), now_ms);
            self.sender.send_response(id.clone(), AcpResult::SessionCreated { session_id: sid.clone() });
            if self.profile == ClientProfile::Zed {
                self.sender.send_session_update(sid, SessionUpdate::AvailableCommands);
            }
            assert(self.outbox() =~= start + acp_step(st, *req, fresh@).1);
        } else if same_text(m, "session/load") {
            let sid = match &req.session_id {
                Some(s) => s.clone(),
                None => String::new(),
            };
            if chars_of(sid.as_str()).len() > 0 {
                self.open_session(sid, 0);
            }
            self.sender.send_response(id.clone(), AcpResult::Empty);
            assert(self.outbox() =~= start + acp_step(st, *req, fresh@).1);
        } else {
            proof {
                reveal_strlit("");
            }
            let prompt = match &req.prompt {
                Some(s) => s.as_str(),
                None => "",
            };
            let sid = match &req.session_id {
                Some(s) => s.as_str(),
                None => "default",
            };
            assert(sid@ == text_or(req.session_id, "default"@));
            assert(prompt@ == text_or(req.prompt, Seq::empty()));
            self.execute_turn(sid, prompt, fresh);
            assert(self.outbox() == start + turn_updates(st.0, sid@, prompt@, fresh@));
            self.sender.send_response(id.clone(), AcpResult::EndTurn);
            assert(acp_step(st, *req, fresh@).1 == turn_updates(st.0, sid@, prompt@, fresh@) + seq![OutputView::Response(id@, ResultView::EndTurn)]);
        }
        assert(self.outbox() =~= start + acp_step(st, *req, fresh@).1);
    }

    /// Answer one request: draws a fresh identifier and reads the clock,
    /// then proceeds as `handle_request_with`.
    pub fn handle_request(&mut self, req: &AcpRequest)
        requires
            old(self).wf(),
        ensures
            final(self).wf(),
            exists|fresh: Seq<char>|
                {
                    &&& crate::ids::hyphenated_v4(fresh)
                    &&& final(self).state() == acp_step(old(self).state(), *req, fresh).0
                    &&& final(self).outbox() == old(self).outbox() + acp_step(old(self).state(), *req, fresh).1
                },
            final(self).root() == old(self).root(),
    {
        let fresh = fresh_uuid();
        let now = now_millis();
        self.handle_request_with(req, fresh.as_str(), now);
    }

    /// Handle one line of input: a blank line is skipped; the trimmed
    /// text is decoded as JSON, a text that is no JSON is answered with a
    /// parse error, and a request is handled as `handle_request` does.
    pub fn handle_message(&mut self, line: &str)
        requires
            old(self).wf(),
        ensures
            final(self).wf(),
            final(self).root() == old(self).root(),
            trim(line@).len() == 0 ==> final(self).state() == old(self).state() && final(self).outbox()
                == old(self).outbox(),
            trim(line@).len() > 0 ==> match json_request(trim(line@)) {
                Err(e) => final(self).state() == old(self).state() && final(self).outbox() == old(
                    self,
                ).outbox().push(OutputView::Error(None, -32700i64, "Parse error: "@ + e)),
                Ok(q) => exists|req: AcpRequest, fresh: Seq<char>|
                    {
                        &&& request_view(req) == q
                        &&& crate::ids::hyphenated_v4(fresh)
                        &&& final(self).state() == acp_step(old(self).state(), req, fresh).0
                        &&& final(self).outbox() == old(self).outbox() + acp_step(old(self).state(), req, fresh).1
                    },
            },
            message_step(old(self).state(), final(self).state(), line@),
    {
        match request_text(line) {
            None => {},
            Some(t) => match decode_request(t.as_str()) {
                Ok(req) => {
                    self.handle_request(&req);
                },
                Err(e) => self.reject_unparsable(e.as_str()),
            },
        }
    }

    /// Answer a line that is not valid JSON: a parse error without an
    /// identifier.
    pub fn reject_unparsable(&mut self, detail: &str)
        requires
            old(self).wf(),
        ensures
            final(self).wf(),
            final(self).state() == old(self).state(),
            final(self).outbox() == old(self).outbox().push(
                OutputView::Error(None, -32700i64, "Parse error: "@ + detail@),
            ),
            final(self).root() == old(self).root(),
    {
        let mut msg = String::new();
        push_text(&mut msg, "Parse error: ");
        push_text(&mut msg, detail);
        self.sender.send_error(None, -32700, msg);
    }
}

/// The slash commands that every session offers, as name and description.
pub open spec fn base_commands() -> Seq<(Seq<char>, Seq<char>)> {
    seq![
        ("agent"@, "Switch active persona (/agent <name>)"@),
        ("agents"@, "List available personas"@),
        ("journal"@, "View quest journal and memory"@),
        ("pause"@, "Pause active circle"@),
        ("continue"@, "Resume paused circle"@),
    ]
}

pub open spec fn command_pairs(v: Seq<(String, String)>) -> Seq<(Seq<char>, Seq<char>)> {
    v.map_values(|p: (String, String)| (p.0@, p.1@))
}

/// The built-in slash commands.
pub fn default_commands() -> (r: Vec<(String, String)>)
    ensures
        command_pairs(r@) == base_commands(),
{
    let mut v: Vec<(String, String)> = Vec::new();
    v.push((String::from_str("agent"), String::from_str("Switch active persona (/agent <name>)")));
    v.push((String::from_str("agents"), String::from_str("List available personas")));
    v.push((String::from_str("journal"), String::from_str("View quest journal and memory")));
    v.push((String::from_str("pause"), String::from_str("Pause active circle")));
    v.push((String::from_str("continue"), String::from_str("Resume paused circle")));
    assert(command_pairs(v@) =~= base_commands());
    v
}

/// The command name that a manifest entry declares: without leading
/// slashes, lowercased.
pub open spec fn command_name(raw: Seq<char>) -> Seq<char> {
    lowercase(strip_leading(raw, '/'))
}

/// Whether a command list already offers `name`.
pub open spec fn offers(cmds: Seq<(Seq<char>, Seq<char>)>, name: Seq<char>) -> bool {
    exists|i: int| 0 <= i < cmds.len() && #[trigger] cmds[i].0 == name
}

/// Offer the command that a manifest entry declares: added at the end
/// unless its name is empty or already offered.
pub fn offer_command(cmds: &mut Vec<(String, String)>, raw_name: &str, description: &str)
    ensures
        ({
            let name = command_name(raw_name@);
            command_pairs(final(cmds)@) == if name.len() == 0 || offers(command_pairs(old(cmds)@), name) {
                command_pairs(old(cmds)@)
            } else {
                command_pairs(old(cmds)@).push((name, description@))
            }
        }),
{
    let raw = chars_of(raw_name);
    let stripped = strip_leading_chars(raw.as_slice(), '/');
    let s = string_from_chars(stripped.as_slice());
    let name = to_lower(s.as_str());
    if chars_of(name.as_str()).len() == 0 {
        return;
    }
    let mut i: usize = 0;
    while i < cmds.len()
        invariant
            i <= cmds@.len(),
            name@ == command_name(raw_name@),
            forall|k: int| 0 <= k < i ==> command_pairs(cmds@)[k].0 != name@,
        decreases cmds@.len() - i,
    {
        if same_text(cmds[i].0.as_str(), name.as_str()) {
            assert(command_pairs(cmds@)[i as int].0 == name@);
            return;
        }
        i = i + 1;
    }
    let ghost before = command_pairs(cmds@);
    assert(!offers(before, name@));
    cmds.push((name, String::from_str(description)));
    assert(command_pairs(cmds@) =~= before.push((command_name(raw_name@), description@)));
}

/// A slash-command entry of an organ manifest: a bare name, a mapping
/// with a name and perhaps a description, or something else.
#[derive(Debug)]
pub enum CommandEntry {
    Name(String),
    Described { name: String, description: Option<String> },
    Other,
}

/// The description an entry gets: "Execute <organ> command" for a bare
/// name, its own description or the organ's for a mapping.
pub open spec fn entry_description(organ_name: Seq<char>, organ_desc: Seq<char>, e: CommandEntry) -> Seq<char> {
    match e {
        CommandEntry::Name(_) => "Execute "@ + organ_name + " command"@,
        CommandEntry::Described { name: _, description } => text_or(description, organ_desc),
        CommandEntry::Other => Seq::empty(),
    }
}

/// Offer the command of one manifest entry of the organ `organ_name`.
pub fn offer_entry(cmds: &mut Vec<(String, String)>, organ_name: &str, organ_desc: &str, entry: &CommandEntry)
    ensures
        match *entry {
            CommandEntry::Other => command_pairs(final(cmds)@) == command_pairs(old(cmds)@),
            CommandEntry::Name(n) => {
                let name = command_name(n@);
                command_pairs(final(cmds)@) == if name.len() == 0 || offers(command_pairs(old(cmds)@), name) {
                    command_pairs(old(cmds)@)
                } else {
                    command_pairs(old(cmds)@).push((name, entry_description(organ_name@, organ_desc@, *entry)))
                }
            },
            CommandEntry::Described { name: n, description: _ } => {
                let name = command_name(n@);
                command_pairs(final(cmds)@) == if name.len() == 0 || offers(command_pairs(old(cmds)@), name) {
                    command_pairs(old(cmds)@)
                } else {
                    command_pairs(old(cmds)@).push((name, entry_description(organ_name@, organ_desc@, *entry)))
                }
            },
        },
{
    match entry {
        CommandEntry::Name(n) => {
            let mut d = String::new();
            push_text(&mut d, "Execute ");
            push_text(&mut d, organ_name);
            push_text(&mut d, " command");
            offer_command(cmds, n.as_str(), d.as_str());
        },
        CommandEntry::Described { name, description } => {
            let d = match description {
                Some(x) => x.as_str(),
                None => organ_desc,
            };
            offer_command(cmds, name.as_str(), d);
        },
        CommandEntry::Other => {},
    }
}

/// What a manifest entry of a slash command is taken as: nothing for
/// `Other`, else its raw name and, for a mapping, its description where it
/// has one.
pub open spec fn command_entry_view(e: CommandEntry) -> Option<(Seq<char>, Option<Option<Seq<char>>>)> {
    match e {
        CommandEntry::Name(n) => Some((n@, None)),
        CommandEntry::Described { name, description } => Some((name@, Some(opt_text(description)))),
        CommandEntry::Other => None,
    }
}

/// What `serde_yaml::from_str` makes of an organ manifest's text read as a
/// JSON value: its `name` and `description` where each is a string, and
/// the entries of its `slash_commands` member (its `commands` member where
/// there is no `slash_commands`) where that is a list; nothing where the
/// text is no YAML.
pub uninterp spec fn yaml_organ_commands(text: Seq<char>) -> Option<
    (Option<Seq<char>>, Option<Seq<char>>, Option<Seq<Option<(Seq<char>, Option<Option<Seq<char>>>)>>>),
>;

pub open spec fn manifest_commands_view(
    m: Option<(Option<String>, Option<String>, Option<Vec<CommandEntry>>)>,
) -> Option<(Option<Seq<char>>, Option<Seq<char>>, Option<Seq<Option<(Seq<char>, Option<Option<Seq<char>>>)>>>)> {
    match m {
        Some((n, d, items)) => Some(
            (
                opt_text(n),
                opt_text(d),
                match items {
                    Some(v) => Some(v@.map_values(|e: CommandEntry| command_entry_view(e))),
                    None => None,
                },
            ),
        ),
        None => None,
    }
}

/// Parse a manifest with `serde_yaml::from_str` into a JSON value and pick
/// its name, description and slash-command entries; the result is named
/// `yaml_organ_commands`.
#[verifier::external_body]
fn read_manifest_commands(text: &str) -> (r: Option<(Option<String>, Option<String>, Option<Vec<CommandEntry>>)>)
    ensures
        manifest_commands_view(r) == yaml_organ_commands(text@),
{
    let v: Value = serde_yaml::from_str(text).ok()?;
    let s = |x: &Value| x.as_str().map(String::from);
    let entry = |x: &Value| match (s(x), x.get("name").and_then(s)) {
        (Some(n), _) => CommandEntry::Name(n),
        (_, Some(n)) => CommandEntry::Described { name: n, description: x.get("description").and_then(s) },
        _ => CommandEntry::Other,
    };
    let list = v.get("slash_commands").or_else(|| v.get("commands")).and_then(Value::as_array);
    Some((v.get("name").and_then(s), v.get("description").and_then(s), list.map(|a| a.iter().map(entry).collect())))
}

/// The command list after offering the command of `name` with
/// `description`: unchanged when the name is empty or already offered.
pub open spec fn offered(cmds: Seq<(Seq<char>, Seq<char>)>, raw: Seq<char>, description: Seq<char>) -> Seq<(Seq<char>, Seq<char>)> {
    let name = command_name(raw);
    if name.len() == 0 || offers(cmds, name) {
        cmds
    } else {
        cmds.push((name, description))
    }
}

/// The command list after offering one manifest entry of the organ
/// `organ_name`.
pub open spec fn entry_offered(
    cmds: Seq<(Seq<char>, Seq<char>)>,
    organ_name: Seq<char>,
    organ_desc: Seq<char>,
    e: Option<(Seq<char>, Option<Option<Seq<char>>>)>,
) -> Seq<(Seq<char>, Seq<char>)> {
    match e {
        None => cmds,
        Some((n, None)) => offered(cmds, n, "Execute "@ + organ_name + " command"@),
        Some((n, Some(d))) => offered(
            cmds,
            n,
            match d {
                Some(x) => x,
                None => organ_desc,
            },
        ),
    }
}

/// The command list after offering what a parsed manifest declares: its
/// entries, under the organ's name (`organ` by default) and description
/// (empty by default); nothing for a manifest that did not parse or has no
/// list of entries.
pub open spec fn manifest_offered(
    cmds: Seq<(Seq<char>, Seq<char>)>,
    m: Option<(Option<Seq<char>>, Option<Seq<char>>, Option<Seq<Option<(Seq<char>, Option<Option<Seq<char>>>)>>>)>,
) -> Seq<(Seq<char>, Seq<char>)> {
    match m {
        Some((n, d, Some(es))) => folded_offers(
            cmds,
            match n {
                Some(x) => x,
                None => "organ"@,
            },
            match d {
                Some(x) => x,
                None => Seq::empty(),
            },
            es,
        ),
        _ => cmds,
    }
}

/// The entries offered first to last.
pub open spec fn folded_offers(
    cmds: Seq<(Seq<char>, Seq<char>)>,
    organ_name: Seq<char>,
    organ_desc: Seq<char>,
    es: Seq<Option<(Seq<char>, Option<Option<Seq<char>>>)>>,
) -> Seq<(Seq<char>, Seq<char>)>
    decreases es.len(),
{
    if es.len() == 0 {
        cmds
    } else {
        entry_offered(folded_offers(cmds, organ_name, organ_desc, es.drop_last()), organ_name, organ_desc, es.last())
    }
}

/// Offer the commands that a parsed organ manifest declares, in order.
pub fn offer_manifest_commands(
    cmds: &mut Vec<(String, String)>,
    manifest: Option<(Option<String>, Option<String>, Option<Vec<CommandEntry>>)>,
)
    ensures
        command_pairs(final(cmds)@) == manifest_offered(command_pairs(old(cmds)@), manifest_commands_view(manifest)),
{
    match manifest {
        Some((n, d, Some(items))) => {
            let organ_name = match &n {
                Some(x) => x.as_str(),
                None => "organ",
            };
            let organ_desc = match &d {
                Some(x) => x.as_str(),
                None => "",
            };
            let ghost es = items@.map_values(|e: CommandEntry| command_entry_view(e));
            let ghost start = command_pairs(cmds@);
            let mut i: usize = 0;
            while i < items.len()
                invariant
                    i <= items@.len(),
                    es == items@.map_values(|e: CommandEntry| command_entry_view(e)),
                    command_pairs(cmds@) == folded_offers(start, organ_name@, organ_desc@, es.take(i as int)),
                decreases items@.len() - i,
            {
                assert(es.take(i + 1).drop_last() =~= es.take(i as int));
                assert(es.take(i + 1).last() == command_entry_view(items@[i as int]));
                offer_entry(cmds, organ_name, organ_desc, &items[i]);
                i = i + 1;
            }
            assert(es.take(items@.len() as int) =~= es);
            proof {
                reveal_strlit("");
            }
            assert(organ_name@ == match opt_text(n) {
                Some(x) => x,
                None => "organ"@,
            });
            assert(organ_desc@ == match opt_text(d) {
                Some(x) => x,
                None => Seq::<char>::empty(),
            });
        },
        _ => {},
    }
}

/// Offer the commands that an organ manifest's text declares: it is parsed
/// with `serde_yaml` and offered as `offer_manifest_commands` offers it.
pub fn offer_organ_commands(cmds: &mut Vec<(String, String)>, manifest_text: &str)
    ensures
        command_pairs(final(cmds)@) == manifest_offered(command_pairs(old(cmds)@), yaml_organ_commands(manifest_text@)),
{
    let m = read_manifest_commands(manifest_text);
    offer_manifest_commands(cmds, m);
}

/// The request a line of input carries: none for a blank line or a text
/// that is no JSON.
pub open spec fn line_request(line: Seq<char>) -> Option<
    (Option<Seq<char>>, Seq<char>, Option<(Option<Seq<char>>, Option<Seq<char>>)>, Option<Seq<char>>, Option<Seq<char>>),
> {
    if trim(line).len() == 0 {
        None
    } else {
        match json_request(trim(line)) {
            Ok(q) => Some(q),
            Err(_) => None,
        }
    }
}

/// One handled line of input: a line without a request leaves the state
/// as it is; a request moves it as `acp_step` does for a request of that
/// view and some fresh identifier.
pub open spec fn message_step(before: GatewayState, after: GatewayState, line: Seq<char>) -> bool {
    match line_request(line) {
        None => after == before,
        Some(q) => exists|req: AcpRequest, fresh: Seq<char>|
            request_view(req) == q && after == #[trigger] acp_step(before, req, fresh).0,
    }
}

/// The profile detected from a client's name and title, as values.
pub open spec fn info_profile(info: Option<(Option<Seq<char>>, Option<Seq<char>>)>) -> ClientProfile {
    match info {
        None => ClientProfile::Default,
        Some((n, t)) => {
            let combined = ascii_lower(
                match n {
                    Some(x) => x,
                    None => Seq::empty(),
                } + " "@ + match t {
                    Some(x) => x,
                    None => Seq::empty(),
                },
            );
            if contains_sub(combined, "zed"@) {
                ClientProfile::Zed
            } else if contains_sub(combined, "vscode"@) || contains_sub(combined, "code"@) {
                ClientProfile::VsCode
            } else {
                ClientProfile::Default
            }
        },
    }
}

/// The client information of the last `initialize` request with an
/// identifier among the lines, if there is one.
pub open spec fn last_initialize(lines: Seq<Seq<char>>) -> Option<Option<(Option<Seq<char>>, Option<Seq<char>>)>>
    decreases lines.len(),
{
    if lines.len() == 0 {
        None
    } else {
        let q = line_request(lines.last());
        if q is Some && (q->0).1 == "initialize"@ && (q->0).0 is Some {
            Some((q->0).2)
        } else {
            last_initialize(lines.drop_last())
        }
    }
}

proof fn lemma_info_profile(req: AcpRequest)
    ensures
        detected_profile(req.client_info) == info_profile(request_view(req).2),
{
}

/// Over any sequence of input lines, the gateway keeps whether its profile
/// is forced; a forced profile never changes; otherwise the profile is the
/// one detected from the client information of the last `initialize`
/// request with an identifier, and stays as it was when there is none.
pub proof fn lemma_profile_over_messages(states: Seq<GatewayState>, lines: Seq<Seq<char>>)
    requires
        states.len() == lines.len() + 1,
        forall|k: int| 0 <= k < lines.len() ==> message_step(#[trigger] states[k], states[k + 1], lines[k]),
    ensures
        states.last().1 == states[0].1,
        states[0].1 ==> states.last().0 == states[0].0,
        !states[0].1 ==> states.last().0 == match last_initialize(lines) {
            Some(info) => info_profile(info),
            None => states[0].0,
        },
    decreases lines.len(),
{
    reveal_strlit("initialize");
    if lines.len() > 0 {
        let n = lines.len() as int;
        let ps = states.drop_last();
        let pl = lines.drop_last();
        assert forall|k: int| 0 <= k < pl.len() implies message_step(#[trigger] ps[k], ps[k + 1], pl[k]) by {
            assert(message_step(states[k], states[k + 1], lines[k]));
        }
        lemma_profile_over_messages(ps, pl);
        assert(ps.last() == states[n - 1]);
        assert(message_step(states[n - 1], states[n], lines[n - 1]));
        assert(lines.last() == lines[n - 1]);
        match line_request(lines[n - 1]) {
            None => {},
            Some(q) => {
                let (req, fresh) = choose|req: AcpRequest, fresh: Seq<char>|
                    request_view(req) == q && states[n] == #[trigger] acp_step(states[n - 1], req, fresh).0;
                lemma_info_profile(req);
                reveal_strlit("session/cancel");
                assert(q.1 == req.method@);
                assert(q.0 == opt_text(req.id));
                if q.1 == "initialize"@ && q.0 is Some {
                    assert("initialize"@[0] != "session/cancel"@[0]);
                    assert(states[n].0 == (if states[n - 1].1 {
                        states[n - 1].0
                    } else {
                        detected_profile(req.client_info)
                    }));
                } else {
                    assert(states[n].0 == states[n - 1].0);
                }
            },
        }
    }
}

/// Each profile's own wire name selects it, in any ASCII case, and so does
/// `--profile` (or `-p`) with that name on the gateway's command line,
/// which then forces it.
pub proof fn lemma_wire_name_selects(p: ClientProfile, prog: Seq<char>, flag: Seq<char>)
    requires
        flag == "--profile"@ || flag == "-p"@,
    ensures
        profile_named(wire_name(p)) == p,
        ascii_lower(wire_name(p)) == wire_name(p),
        cli_options(seq![prog, flag, wire_name(p)], 1, (ClientProfile::Default, false)) == (p, true),
{
    reveal_strlit("zed");
    reveal_strlit("vscode");
    reveal_strlit("code");
    reveal_strlit("cli");
    reveal_strlit("terminal");
    reveal_strlit("standard");
    reveal_strlit("--profile");
    reveal_strlit("-p");
    let w = wire_name(p);
    assert(ascii_lower(w) =~= w);
    assert("standard"@ != "zed"@ && "standard"@ != "vscode"@ && "standard"@ != "code"@ && "standard"@ != "cli"@
        && "standard"@ != "terminal"@) by {
        assert("standard"@.len() != "zed"@.len());
        assert("standard"@.len() != "vscode"@.len());
        assert("standard"@.len() != "code"@.len());
        assert("standard"@.len() != "cli"@.len());
        assert("standard"@[0] != "terminal"@[0]);
    }
    assert("vscode"@ != "zed"@ && "cli"@ != "zed"@ && "cli"@ != "vscode"@ && "cli"@ != "code"@) by {
        assert("vscode"@.len() != "zed"@.len());
        assert("cli"@[0] != "zed"@[0]);
        assert("cli"@.len() != "vscode"@.len());
        assert("cli"@.len() != "code"@.len());
    }
    let args = seq![prog, flag, w];
    assert(args[1] == flag);
    assert(cli_options(args, 3, (p, true)) == (p, true));
}

/// Profile names are read in any ASCII case, and `code` and `terminal`
/// are other names of the VS Code and terminal profiles.
pub proof fn lemma_profile_any_case(s: Seq<char>)
    ensures
        profile_named(s) == profile_named(ascii_lower(s)),
        ascii_lower(s) == "code"@ ==> profile_named(s) == ClientProfile::VsCode,
        ascii_lower(s) == "terminal"@ ==> profile_named(s) == ClientProfile::Cli,
{
    let l = ascii_lower(s);
    assert forall|k: int| 0 <= k < l.len() implies #[trigger] crate::text::ascii_lower_char(l[k]) == l[k] by {
        let c = s[k];
        if 'A' <= c && c <= 'Z' {
            assert(l[k] == ((c as u32) + 32) as char);
        }
    }
    assert(ascii_lower(l) =~= l);
    reveal_strlit("code");
    reveal_strlit("terminal");
    reveal_strlit("zed");
    reveal_strlit("vscode");
    reveal_strlit("cli");
    assert("code"@.len() != "zed"@.len() && "code"@.len() != "vscode"@.len());
    assert("terminal"@.len() != "zed"@.len() && "terminal"@.len() != "vscode"@.len() && "terminal"@.len() != "code"@.len()
        && "terminal"@.len() != "cli"@.len());
}

/// A forced profile is never changed by a request.
pub proof fn lemma_forced_profile_stays(st: GatewayState, req: AcpRequest, fresh: Seq<char>)
    requires
        st.1,
    ensures
        acp_step(st, req, fresh).0.0 == st.0,
{
}

/// A request with an unknown method is answered with a "method not
/// found" error, and nothing else changes.
pub proof fn lemma_unknown_method_refused(st: GatewayState, req: AcpRequest, fresh: Seq<char>)
    requires
        req.method@ != "initialize"@,
        req.method@ != "session/new"@,
        req.method@ != "session/load"@,
        req.method@ != "session/prompt"@,
        req.method@ != "session/cancel"@,
    ensures
        acp_step(st, req, fresh) == (st, seq![OutputView::Error(opt_text(req.id), -32601i64, "Method not found: "@ + req.method@)]),
{
}

/// `initialize` with an identifier is answered with exactly one response,
/// which reports the profile in force afterwards.
pub proof fn lemma_initialize_reports_profile(st: GatewayState, req: AcpRequest, fresh: Seq<char>)
    requires
        req.method@ == "initialize"@,
        req.id is Some,
    ensures
        acp_step(st, req, fresh).1 == seq![OutputView::Response(req.id->0@, init_result(acp_step(st, req, fresh).0.0))],
{
    reveal_strlit("initialize");
    reveal_strlit("session/cancel");
    assert("initialize"@.len() != "session/cancel"@.len());
}

/// Every request keeps the session identifiers distinct, and never
/// forgets a session.
pub proof fn lemma_sessions_grow(st: GatewayState, req: AcpRequest, fresh: Seq<char>)
    requires
        distinct_ids(st.2),
    ensures
        distinct_ids(acp_step(st, req, fresh).0.2),
        st.2.is_prefix_of(acp_step(st, req, fresh).0.2),
{
    let nids = acp_step(st, req, fresh).0.2;
    assert(st.2.is_prefix_of(st.2)) by {
        assert(st.2.take(st.2.len() as int) =~= st.2);
    }
    if nids.len() != st.2.len() {
        let s = nids.last();
        assert(nids =~= st.2.push(s));
        assert(!st.2.contains(s));
        assert forall|i: int, j: int| 0 <= i < j < nids.len() implies nids[i] != nids[j] by {
            if j == nids.len() - 1 {
                assert(st.2[i] == nids[i]);
            }
        }
        assert(nids.take(st.2.len() as int) =~= st.2);
    }
}

} // verus!
