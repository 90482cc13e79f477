//! Voice organ: the microphone and speech switches, the voice-state
//! grounding, and the size of a capture.

use vstd::prelude::*;
use crate::sdk::OrganArgs;
use crate::text::same_text;

verus! {

/// Whether the microphone and the speech output are muted.
#[derive(Clone, Copy, Debug, PartialEq, Eq, Structural)]
pub struct VoxState {
    pub mic_muted: bool,
    pub tts_muted: bool,
}

impl VoxState {
    /// Nothing muted.
    pub fn new() -> (r: Self)
        ensures
            !r.mic_muted && !r.tts_muted,
    {
        VoxState { mic_muted: false, tts_muted: false }
    }
}

/// What a switch command does: the state after it, the action named in
/// the reply and its message.
#[derive(Debug)]
pub struct VoxSwitch {
    pub state: VoxState,
    pub action: String,
    pub message: String,
}

/// The state and reply of a switch command, where `op` is one.
pub open spec fn switched(s: VoxState, op: Seq<char>) -> Option<(VoxState, Seq<char>, Seq<char>)> {
    if op == "vox_mute"@ || op == "mute"@ {
        Some((VoxState { mic_muted: true, ..s }, "vox_mute"@, "Microphone capture muted"@))
    } else if op == "vox_unmute"@ || op == "unmute"@ {
        Some((VoxState { mic_muted: false, ..s }, "vox_unmute"@, "Microphone capture unmuted"@))
    } else if op == "vox_silence"@ || op == "silence"@ {
        Some((VoxState { tts_muted: true, ..s }, "vox_silence"@, "Agent speech output (TTS) silenced"@))
    } else if op == "vox_speak"@ || op == "speak"@ {
        Some((VoxState { tts_muted: false, ..s }, "vox_speak"@, "Agent speech output (TTS) enabled"@))
    } else {
        None
    }
}

fn reply(state: VoxState, action: &str, message: &str) -> (r: VoxSwitch)
    ensures
        r.state == state,
        r.action@ == action@,
        r.message@ == message@,
{
    VoxSwitch { state, action: String::from_str(action), message: String::from_str(message) }
}

/// Apply a switch command to the state; other operations give none.
pub fn switch(s: VoxState, op: &str) -> (r: Option<VoxSwitch>)
    ensures
        match r {
            Some(x) => switched(s, op@) == Some((x.state, x.action@, x.message@)),
            None => switched(s, op@) is None,
        },
{
    if same_text(op, "vox_mute") || same_text(op, "mute") {
        Some(reply(VoxState { mic_muted: true, ..s }, "vox_mute", "Microphone capture muted"))
    } else if same_text(op, "vox_unmute") || same_text(op, "unmute") {
        Some(reply(VoxState { mic_muted: false, ..s }, "vox_unmute", "Microphone capture unmuted"))
    } else if same_text(op, "vox_silence") || same_text(op, "silence") {
        Some(reply(VoxState { tts_muted: true, ..s }, "vox_silence", "Agent speech output (TTS) silenced"))
    } else if same_text(op, "vox_speak") || same_text(op, "speak") {
        Some(reply(VoxState { tts_muted: false, ..s }, "vox_speak", "Agent speech output (TTS) enabled"))
    } else {
        None
    }
}

/// The voice-state grounding text.
pub open spec fn voice_state_text(s: VoxState) -> Seq<char> {
    "--- voice state ---\nMicrophone capture: "@ + (if s.mic_muted {
        "muted (/unmute to enable)"@
    } else {
        "active (/mute to silence)"@
    }) + "\nSpeech output (TTS): "@ + (if s.tts_muted {
        "silenced (/speak to enable)"@
    } else {
        "active (/silence to mute)"@
    })
        + "\nModality rule: Prefer responding with voice (TTS) when user input was received via voice. Prefer responding with text when user input was received via text, unless instructed otherwise."@
}

/// Build the voice-state grounding text.
pub fn voice_state(s: VoxState) -> (r: String)
    ensures
        r@ == voice_state_text(s),
{
    let mut out = String::new();
    crate::text::push_text(&mut out, "--- voice state ---\nMicrophone capture: ");
    crate::text::push_text(
        &mut out,
        if s.mic_muted {
            "muted (/unmute to enable)"
        } else {
            "active (/mute to silence)"
        },
    );
    crate::text::push_text(&mut out, "\nSpeech output (TTS): ");
    crate::text::push_text(
        &mut out,
        if s.tts_muted {
            "silenced (/speak to enable)"
        } else {
            "active (/silence to mute)"
        },
    );
    crate::text::push_text(
        &mut out,
        "\nModality rule: Prefer responding with voice (TTS) when user input was received via voice. Prefer responding with text when user input was received via text, unless instructed otherwise.",
    );
    out
}

/// The sample rate of a capture.
pub const SAMPLE_RATE: u32 = 16000;

/// The bytes a capture of `seconds` takes: 16-bit samples at 16 kHz, the
/// seconds narrowed to 32 bits. The product must fit in 32 bits.
pub fn capture_bytes(seconds: u64) -> (r: u32)
    requires
        (seconds % 0x1_0000_0000) * 32000 <= u32::MAX,
    ensures
        r == (seconds % 0x1_0000_0000) * 32000,
{
    let s = (seconds % 0x1_0000_0000) as u32;
    let samples = SAMPLE_RATE * s;
    samples * 2
}

/// The seconds a capture request asks for: `seconds` when it is a number,
/// else 3.
pub fn capture_seconds(args: &OrganArgs) -> (r: u64)
    ensures
        r == (match crate::text::parse_u64(crate::sdk::param_or(args@, "seconds"@, "3"@)) {
            Some(v) => v,
            None => 3,
        }),
{
    match crate::text::parse_u64_str(args.get_or("seconds", "3")) {
        Some(v) => v,
        None => 3,
    }
}


/// What a request asks the voice organ for.
#[derive(Debug)]
pub enum VoxRequest {
    /// The voice-activity stimulus.
    VoiceActivity,
    /// A stimulus it does not know.
    UnknownStimulus { message: String },
    /// The voice-state grounding.
    VoiceState,
    /// A switch of the microphone or speech output.
    Switch { op: String },
    /// The two mute flags.
    Status,
    /// A capture.
    Listen,
    /// The organ's readiness.
    Ready,
}

/// Whether an operation is a switch command.
pub open spec fn is_switch(op: Seq<char>) -> bool {
    op == "vox_mute"@ || op == "mute"@ || op == "vox_unmute"@ || op == "unmute"@ || op == "vox_silence"@
        || op == "silence"@ || op == "vox_speak"@ || op == "speak"@
}

/// A request as values: a tag (0 stimulus, 1 unknown stimulus, 2 voice
/// state, 3 switch, 4 status, 5 listen, 6 ready) and its text.
pub open spec fn vox_request_of(a: crate::sdk::ArgsView) -> (int, Seq<char>) {
    match a.2 {
        Some(s) => if s == "voice_activity"@ {
            (0, Seq::empty())
        } else {
            (1, "Unknown stimulus: "@ + s)
        },
        None => if a.1 == Some("voice_state"@) {
            (2, Seq::empty())
        } else {
            let op = crate::sdk::op_of(a);
            if is_switch(op) {
                (3, op)
            } else if op == "vox_status"@ {
                (4, Seq::empty())
            } else if a.1 == Some("hearing"@) {
                (5, Seq::empty())
            } else {
                (6, Seq::empty())
            }
        },
    }
}

pub open spec fn vox_view(r: VoxRequest) -> (int, Seq<char>) {
    match r {
        VoxRequest::VoiceActivity => (0, Seq::empty()),
        VoxRequest::UnknownStimulus { message } => (1, message@),
        VoxRequest::VoiceState => (2, Seq::empty()),
        VoxRequest::Switch { op } => (3, op@),
        VoxRequest::Status => (4, Seq::empty()),
        VoxRequest::Listen => (5, Seq::empty()),
        VoxRequest::Ready => (6, Seq::empty()),
    }
}

/// Read what a request asks the voice organ for.
pub fn vox_request(args: &OrganArgs) -> (r: VoxRequest)
    ensures
        vox_view(r) == vox_request_of(args@),
{
    match &args.stimulus {
        Some(s) => {
            if same_text(s.as_str(), "voice_activity") {
                VoxRequest::VoiceActivity
            } else {
                let mut m = String::new();
                crate::text::push_text(&mut m, "Unknown stimulus: ");
                crate::text::push_text(&mut m, s.as_str());
                VoxRequest::UnknownStimulus { message: m }
            }
        },
        None => {
            let sense_is = |name: &str| -> (b: bool)
                ensures
                    b == (args@.1 == Some(name@)),
                {
                    match &args.sense {
                        Some(x) => same_text(x.as_str(), name),
                        None => false,
                    }
                };
            if sense_is("voice_state") {
                return VoxRequest::VoiceState;
            }
            let op = args.op();
            if same_text(op, "vox_mute") || same_text(op, "mute") || same_text(op, "vox_unmute") || same_text(
                op,
                "unmute",
            ) || same_text(op, "vox_silence") || same_text(op, "silence") || same_text(op, "vox_speak")
                || same_text(op, "speak") {
                VoxRequest::Switch { op: String::from_str(op) }
            } else if same_text(op, "vox_status") {
                VoxRequest::Status
            } else if sense_is("hearing") {
                VoxRequest::Listen
            } else {
                VoxRequest::Ready
            }
        },
    }
}


/// The state after an operation: switched by a switch command, unchanged
/// by anything else.
pub open spec fn after_switch(s: VoxState, op: Seq<char>) -> VoxState {
    match switched(s, op) {
        Some(t) => t.0,
        None => s,
    }
}

/// A switch command applied twice leaves the same state as once, and the
/// microphone commands leave the speech output alone, and the other way
/// round.
pub proof fn lemma_switch_idempotent(s: VoxState, op: Seq<char>)
    ensures
        after_switch(after_switch(s, op), op) == after_switch(s, op),
        (op == "vox_mute"@ || op == "mute"@ || op == "vox_unmute"@ || op == "unmute"@) ==> after_switch(
            s,
            op,
        ).tts_muted == s.tts_muted,
        (op == "vox_silence"@ || op == "silence"@ || op == "vox_speak"@ || op == "speak"@) ==> after_switch(
            s,
            op,
        ).mic_muted == s.mic_muted,
{
    reveal_strlit("vox_mute");
    reveal_strlit("mute");
    reveal_strlit("vox_unmute");
    reveal_strlit("unmute");
    reveal_strlit("vox_silence");
    reveal_strlit("silence");
    reveal_strlit("vox_speak");
    reveal_strlit("speak");
    assert("vox_mute"@.len() == 8 && "mute"@.len() == 4 && "vox_unmute"@.len() == 10 && "unmute"@.len() == 6);
    assert("vox_silence"@.len() == 11 && "silence"@.len() == 7 && "vox_speak"@.len() == 9 && "speak"@.len() == 5);
}

} // verus!
