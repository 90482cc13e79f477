//! Windows sense organ: the records that the Win32 calls fill, and the
//! decisions taken on them (power source, idle time, CPU load, window
//! titles, audio device lines, and which action a request names).

use vstd::prelude::*;
use crate::sdk::{ArgsView, OrganArgs};
use crate::text::same_text as is;
use crate::text::{chars_of, lines, split_lines, trim, trim_chars, string_from_chars};

verus! {

/// The foreground window: its title and owning process.
#[derive(Debug)]
pub struct ForegroundInfo {
    pub title: String,
    pub pid: u32,
}

/// A visible top-level window: its title and owning process.
#[derive(Debug)]
pub struct WindowInfo {
    pub title: String,
    pub pid: u32,
}

/// The power source ("ac_connected", "battery" or "unknown") and the
/// battery charge when it is known.
#[derive(Debug)]
pub struct PowerInfo {
    pub power_source: String,
    pub battery_percent: Option<u8>,
}

/// `LASTINPUTINFO` as `GetLastInputInfo` fills it.
#[allow(non_camel_case_types)]
#[derive(Debug)]
pub struct LASTINPUTINFO {
    pub cb_size: u32,
    pub dw_time: u32,
}

/// `SYSTEM_POWER_STATUS` as `GetSystemPowerStatus` fills it.
#[allow(non_camel_case_types)]
#[derive(Debug)]
pub struct SYSTEM_POWER_STATUS {
    pub ac_line_status: u8,
    pub battery_flag: u8,
    pub battery_life_percent: u8,
    pub system_status_flag: u8,
    pub battery_life_time: u32,
    pub battery_full_life_time: u32,
}

/// `FILETIME`: a count of 100 ns intervals split into two 32-bit halves.
#[allow(non_camel_case_types)]
#[derive(Clone, Copy)]
pub struct FILETIME {
    pub dw_low_date_time: u32,
    pub dw_high_date_time: u32,
}

/// The 64-bit count that a `FILETIME` holds.
pub open spec fn filetime_value(ft: FILETIME) -> nat {
    ft.dw_high_date_time as nat * 0x1_0000_0000 + ft.dw_low_date_time as nat
}

/// Join the two halves of a `FILETIME`.
pub fn filetime_to_u64(ft: &FILETIME) -> (r: u64)
    ensures
        r == filetime_value(*ft),
{
    let hi = ft.dw_high_date_time as u64;
    let lo = ft.dw_low_date_time as u64;
    let r = (hi << 32u64) | lo;
    assert(r == hi * 0x1_0000_0000 + lo) by (bit_vector)
        requires
            hi < 0x1_0000_0000,
            lo < 0x1_0000_0000,
            r == (hi << 32u64) | lo,
    ;
    r
}

/// `a - b`, or 0 where `b` is larger.
pub open spec fn monus(a: nat, b: nat) -> nat {
    if a >= b {
        (a - b) as nat
    } else {
        0
    }
}

/// The idle, kernel and user time spent between two `GetSystemTimes`
/// samples, each clamped at zero.
pub fn system_time_deltas(before: &[FILETIME; 3], after: &[FILETIME; 3]) -> (r: (u64, u64, u64))
    ensures
        r.0 == monus(filetime_value(after[0]), filetime_value(before[0])),
        r.1 == monus(filetime_value(after[1]), filetime_value(before[1])),
        r.2 == monus(filetime_value(after[2]), filetime_value(before[2])),
{
    let i1 = filetime_to_u64(&before[0]);
    let k1 = filetime_to_u64(&before[1]);
    let u1 = filetime_to_u64(&before[2]);
    let i2 = filetime_to_u64(&after[0]);
    let k2 = filetime_to_u64(&after[1]);
    let u2 = filetime_to_u64(&after[2]);
    let idle = if i2 >= i1 { i2 - i1 } else { 0 };
    let kernel = if k2 >= k1 { k2 - k1 } else { 0 };
    let user = if u2 >= u1 { u2 - u1 } else { 0 };
    (idle, kernel, user)
}

/// The busy and total time of a CPU sample: kernel time counts idle time
/// too, so the busy part is `kernel + user - idle`, clamped at zero.
pub fn cpu_busy_total(idle: u64, kernel: u64, user: u64) -> (r: (u64, u64))
    requires
        kernel + user <= u64::MAX,
    ensures
        r.1 == kernel + user,
        r.0 == monus((kernel + user) as nat, idle as nat),
{
    let total = kernel + user;
    let busy = if total >= idle { total - idle } else { 0 };
    (busy, total)
}

/// Whether a CPU load of `busy / total` reaches `threshold` percent; an
/// empty sample counts as no load.
pub open spec fn cpu_at_least(busy: nat, total: nat, threshold: nat) -> bool {
    if total == 0 {
        threshold == 0
    } else {
        busy * 100 >= threshold * total
    }
}

/// The `high_cpu` trigger: the load reaches the threshold.
pub fn high_cpu_triggered(busy: u64, total: u64, threshold: u64) -> (r: bool)
    ensures
        r == cpu_at_least(busy as nat, total as nat, threshold as nat),
{
    if total == 0 {
        threshold == 0
    } else {
        let t = threshold as u128;
        let n = total as u128;
        assert(t * n <= 0xFFFF_FFFF_FFFF_FFFFu128 * 0xFFFF_FFFF_FFFF_FFFFu128) by (nonlinear_arith)
            requires
                t <= 0xFFFF_FFFF_FFFF_FFFFu128,
                n <= 0xFFFF_FFFF_FFFF_FFFFu128,
        ;
        (busy as u128) * 100 >= t * n
    }
}

/// The power information that `GetSystemPowerStatus` gives, or an unknown
/// source where the call failed.
pub fn power_info_from_status(sps: Option<&SYSTEM_POWER_STATUS>) -> (r: PowerInfo)
    ensures
        match sps {
            None => r.power_source@ == "unknown"@ && r.battery_percent is None,
            Some(s) => {
                &&& (s.ac_line_status == 1 ==> r.power_source@ == "ac_connected"@)
                &&& (s.ac_line_status != 1 ==> r.power_source@ == "battery"@)
                &&& r.battery_percent == (if s.battery_life_percent <= 100 {
                    Some(s.battery_life_percent)
                } else {
                    None
                })
            },
        },
{
    match sps {
        None => PowerInfo { power_source: String::from_str("unknown"), battery_percent: None },
        Some(s) => {
            let power_source = if s.ac_line_status == 1 {
                String::from_str("ac_connected")
            } else {
                String::from_str("battery")
            };
            let battery_percent = if s.battery_life_percent <= 100 {
                Some(s.battery_life_percent)
            } else {
                None
            };
            PowerInfo { power_source, battery_percent }
        },
    }
}

/// The `battery_low` trigger: on battery, with a known charge at or below
/// the threshold.
pub fn battery_low_triggered(power: &PowerInfo, threshold: u8) -> (r: bool)
    ensures
        r == (power.power_source@ == "battery"@ && (power.battery_percent matches Some(p)
            && p <= threshold)),
{
    let battery = String::from_str("battery");
    let on_battery = power.power_source == battery;
    match power.battery_percent {
        Some(p) => on_battery && p <= threshold,
        None => false,
    }
}

/// A threshold option narrowed to a byte as `as u8` narrows it, with
/// `default` where none was given.
pub fn threshold_u8(given: Option<u64>, default: u8) -> (r: u8)
    ensures
        r == (match given {
            Some(v) => (v % 256) as u8,
            None => default,
        }),
{
    match given {
        Some(v) => (v % 256) as u8,
        None => default,
    }
}

/// Milliseconds since the last input, as the tick counter's wrapping
/// difference.
pub fn idle_millis(tick: u32, info: &LASTINPUTINFO) -> (r: u32)
    ensures
        r as int == (tick as int - info.dw_time as int) % 0x1_0000_0000,
{
    if tick >= info.dw_time {
        tick - info.dw_time
    } else {
        let back: u32 = info.dw_time - tick;
        let r: u32 = ((0xFFFF_FFFFu32 - back) + 1) as u32;
        assert((tick as int - info.dw_time as int) % 0x1_0000_0000 == 0x1_0000_0000 - back) by {
            let d = tick as int - info.dw_time as int;
            assert(d == -(back as int));
            assert(0x1_0000_0000 - back + (-1) * 0x1_0000_0000 == d);
        }
        r
    }
}

/// The `user_idle` trigger: idle for at least `threshold_secs` seconds.
pub fn idle_triggered(idle_ms: u32, threshold_secs: u64) -> (r: bool)
    ensures
        r == (idle_ms as int >= threshold_secs as int * 1000),
{
    (idle_ms as u128) >= (threshold_secs as u128) * 1000
}

/// Titles of windows that are never reported.
pub open spec fn hidden_title(t: Seq<char>) -> bool {
    t == "Program Manager"@ || t == "Windows Input Experience"@ || t == "Settings"@
}

/// The title under which a visible window is listed: trimmed, and only
/// when it is not empty or one of the shell's own windows.
pub fn listed_window_title(raw: &str) -> (r: Option<String>)
    ensures
        match r {
            Some(t) => t@ == trim(raw@) && t@.len() > 0 && !hidden_title(t@),
            None => trim(raw@).len() == 0 || hidden_title(trim(raw@)),
        },
{
    let cs = chars_of(raw);
    let t = trim_chars(cs.as_slice());
    let title = string_from_chars(t.as_slice());
    let a = String::from_str("Program Manager");
    let b = String::from_str("Windows Input Experience");
    let c = String::from_str("Settings");
    if t.len() == 0 || title == a || title == b || title == c {
        None
    } else {
        Some(title)
    }
}

/// The device names in the listing command's output: each line trimmed,
/// empty ones left out.
pub open spec fn device_names(ls: Seq<Seq<char>>) -> Seq<Seq<char>>
    decreases ls.len(),
{
    if ls.len() == 0 {
        Seq::empty()
    } else {
        let t = trim(ls[0]);
        (if t.len() > 0 {
            seq![t]
        } else {
            Seq::empty()
        }) + device_names(ls.drop_first())
    }
}

/// The audio devices named in the listing command's output.
pub fn audio_device_names(output: &str) -> (r: Vec<String>)
    ensures
        r@.map_values(|s: String| s@) == device_names(lines(output@)),
{
    let cs = chars_of(output);
    let ls = split_lines(cs.as_slice());
    let ghost lv = ls@.map_values(|l: Vec<char>| l@);
    let mut names: Vec<String> = Vec::new();
    let mut k: usize = 0;
    while k < ls.len()
        invariant
            k <= ls@.len(),
            lv == ls@.map_values(|l: Vec<char>| l@),
            names@.map_values(|s: String| s@) == device_names(lv.take(k as int)),
        decreases ls@.len() - k,
    {
        proof {
            lemma_device_names_push(lv.take(k as int), lv[k as int]);
            assert(lv.take(k as int).push(lv[k as int]) =~= lv.take(k + 1));
        }
        let t = trim_chars(ls[k].as_slice());
        if t.len() > 0 {
            let s = string_from_chars(t.as_slice());
            let ghost before = names@.map_values(|s: String| s@);
            names.push(s);
            assert(names@.map_values(|s: String| s@) =~= before + seq![trim(lv[k as int])]);
        } else {
            assert(device_names(lv.take(k as int)) + Seq::<Seq<char>>::empty() =~= device_names(lv.take(k as int)));
        }
        k = k + 1;
    }
    assert(lv.take(ls@.len() as int) =~= lv);
    names
}

proof fn lemma_device_names_push(ls: Seq<Seq<char>>, l: Seq<char>)
    ensures
        device_names(ls.push(l)) == device_names(ls) + (if trim(l).len() > 0 {
            seq![trim(l)]
        } else {
            Seq::<Seq<char>>::empty()
        }),
    decreases ls.len(),
{
    if ls.len() == 0 {
        assert(ls.push(l).drop_first() =~= Seq::<Seq<char>>::empty());
        assert(ls.push(l)[0] == l);
        assert(device_names(ls.push(l).drop_first()) == Seq::<Seq<char>>::empty());
        assert(device_names(ls.push(l)) =~= device_names(ls) + (if trim(l).len() > 0 {
            seq![trim(l)]
        } else {
            Seq::<Seq<char>>::empty()
        }));
    } else {
        assert(ls.push(l).drop_first() =~= ls.drop_first().push(l));
        lemma_device_names_push(ls.drop_first(), l);
        let t = trim(ls[0]);
        let head: Seq<Seq<char>> = if t.len() > 0 { seq![t] } else { Seq::empty() };
        let tail: Seq<Seq<char>> = if trim(l).len() > 0 { seq![trim(l)] } else { Seq::empty() };
        assert(head + (device_names(ls.drop_first()) + tail) =~= (head + device_names(ls.drop_first())) + tail);
    }
}

/// The action a request names: its `action` parameter, else the tool,
/// else the action flag, else `overview`.
pub open spec fn action_of(a: ArgsView) -> Seq<char> {
    if a.5.contains_key("action"@) {
        a.5["action"@]
    } else {
        match a.0 {
            Some(t) => t,
            None => match a.4 {
                Some(x) => x,
                None => "overview"@,
            },
        }
    }
}

/// Which action a request asks the Windows organ for.
pub fn requested_action(args: &OrganArgs) -> (r: &str)
    ensures
        r@ == action_of(args@),
{
    match args.get("action") {
        Some(v) => v,
        None => match &args.tool {
            Some(t) => t.as_str(),
            None => match &args.action {
                Some(x) => x.as_str(),
                None => "overview",
            },
        },
    }
}


/// A probe of the Windows organ, with its threshold where it has one.
#[derive(Debug)]
#[allow(inconsistent_fields)]
pub enum WinProbe {
    UserIdle { threshold_secs: u64 },
    BatteryLow { threshold_percent: u8 },
    NetworkState,
    DisplayLocked,
    HighCpu { threshold_percent: u64 },
    LowerCpuPriority,
    ActiveWindow,
    IdleTime,
    PowerState,
}

/// What a request asks the Windows organ for: a stimulus, reflex or sense
/// probe, an action, or an error for a name it does not know.
#[derive(Debug)]
pub enum WinRequest {
    Probe { probe: WinProbe },
    Action { action: String },
    Unknown { message: String },
}

/// A probe as values: a tag and its threshold.
pub open spec fn probe_view(p: WinProbe) -> (int, int) {
    match p {
        WinProbe::UserIdle { threshold_secs } => (0, threshold_secs as int),
        WinProbe::BatteryLow { threshold_percent } => (1, threshold_percent as int),
        WinProbe::NetworkState => (2, 0),
        WinProbe::DisplayLocked => (3, 0),
        WinProbe::HighCpu { threshold_percent } => (4, threshold_percent as int),
        WinProbe::LowerCpuPriority => (5, 0),
        WinProbe::ActiveWindow => (6, 0),
        WinProbe::IdleTime => (7, 0),
        WinProbe::PowerState => (8, 0),
    }
}

pub open spec fn u64_param(a: ArgsView, key: Seq<char>, d: u64) -> u64 {
    if a.5.contains_key(key) {
        match crate::text::parse_u64(a.5[key]) {
            Some(v) => v,
            None => d,
        }
    } else {
        d
    }
}

/// A request as values: a tag (0 probe, 1 action, 2 error), the probe and
/// the text.
pub open spec fn win_request_of(a: ArgsView) -> (int, (int, int), Seq<char>) {
    let cpu = (4int, u64_param(a, "threshold_percent"@, 85) as int);
    match a.2 {
        Some(s) => if s == "user_idle"@ || s == "user_idle_threshold"@ {
            (0, (0, u64_param(a, "threshold_secs"@, 900) as int), Seq::empty())
        } else if s == "battery_low"@ {
            (0, (1, (u64_param(a, "threshold_percent"@, 15) % 256) as int), Seq::empty())
        } else if s == "network_state"@ {
            (0, (2, 0), Seq::empty())
        } else if s == "display_locked"@ {
            (0, (3, 0), Seq::empty())
        } else if s == "high_cpu"@ {
            (0, cpu, Seq::empty())
        } else {
            (2, (0, 0), "Unknown stimulus: "@ + s)
        },
        None => match a.3 {
            Some(x) => if x == "lower_cpu_priority"@ {
                (0, (5, 0), Seq::empty())
            } else if x == "network_state"@ {
                (0, (2, 0), Seq::empty())
            } else if x == "display_locked"@ {
                (0, (3, 0), Seq::empty())
            } else if x == "high_cpu"@ {
                (0, cpu, Seq::empty())
            } else {
                (2, (0, 0), "Unknown reflex: "@ + x)
            },
            None => match a.1 {
                Some(x) => if x == "active_window"@ {
                    (0, (6, 0), Seq::empty())
                } else if x == "idle_time"@ {
                    (0, (7, 0), Seq::empty())
                } else if x == "power_state"@ {
                    (0, (8, 0), Seq::empty())
                } else if x == "network_state"@ {
                    (0, (2, 0), Seq::empty())
                } else if x == "display_locked"@ {
                    (0, (3, 0), Seq::empty())
                } else if x == "high_cpu"@ {
                    (0, cpu, Seq::empty())
                } else {
                    (2, (0, 0), "Unknown sense: "@ + x)
                },
                None => (1, (0, 0), action_of(a)),
            },
        },
    }
}

pub open spec fn win_view(r: WinRequest) -> (int, (int, int), Seq<char>) {
    match r {
        WinRequest::Probe { probe } => (0, probe_view(probe), Seq::empty()),
        WinRequest::Action { action } => (1, (0, 0), action@),
        WinRequest::Unknown { message } => (2, (0, 0), message@),
    }
}

fn probe(p: WinProbe) -> (r: WinRequest)
    ensures
        win_view(r) == (0int, probe_view(p), Seq::<char>::empty()),
{
    WinRequest::Probe { probe: p }
}

fn unknown_name(prefix: &str, name: &str) -> (r: WinRequest)
    ensures
        win_view(r) == (2int, (0int, 0int), prefix@ + name@),
{
    let mut m = String::new();
    crate::text::push_text(&mut m, prefix);
    crate::text::push_text(&mut m, name);
    WinRequest::Unknown { message: m }
}

/// Read what a request asks the Windows organ for: its stimulus, else its
/// reflex, else its sense, else its action.
pub fn win_request(args: &OrganArgs) -> (r: WinRequest)
    ensures
        win_view(r) == win_request_of(args@),
{
    let cpu = match args.get_u64("threshold_percent") {
        Some(v) => v,
        None => 85,
    };
    match &args.stimulus {
        Some(s) => {
            let s = s.as_str();
            if is(s, "user_idle") || is(s, "user_idle_threshold") {
                let t = match args.get_u64("threshold_secs") {
                    Some(v) => v,
                    None => 900,
                };
                probe(WinProbe::UserIdle { threshold_secs: t })
            } else if is(s, "battery_low") {
                probe(WinProbe::BatteryLow { threshold_percent: threshold_u8(args.get_u64("threshold_percent"), 15) })
            } else if is(s, "network_state") {
                probe(WinProbe::NetworkState)
            } else if is(s, "display_locked") {
                probe(WinProbe::DisplayLocked)
            } else if is(s, "high_cpu") {
                probe(WinProbe::HighCpu { threshold_percent: cpu })
            } else {
                unknown_name("Unknown stimulus: ", s)
            }
        },
        None => match &args.reflex {
            Some(x) => {
                let x = x.as_str();
                if is(x, "lower_cpu_priority") {
                    probe(WinProbe::LowerCpuPriority)
                } else if is(x, "network_state") {
                    probe(WinProbe::NetworkState)
                } else if is(x, "display_locked") {
                    probe(WinProbe::DisplayLocked)
                } else if is(x, "high_cpu") {
                    probe(WinProbe::HighCpu { threshold_percent: cpu })
                } else {
                    unknown_name("Unknown reflex: ", x)
                }
            },
            None => match &args.sense {
                Some(x) => {
                    let x = x.as_str();
                    if is(x, "active_window") {
                        probe(WinProbe::ActiveWindow)
                    } else if is(x, "idle_time") {
                        probe(WinProbe::IdleTime)
                    } else if is(x, "power_state") {
                        probe(WinProbe::PowerState)
                    } else if is(x, "network_state") {
                        probe(WinProbe::NetworkState)
                    } else if is(x, "display_locked") {
                        probe(WinProbe::DisplayLocked)
                    } else if is(x, "high_cpu") {
                        probe(WinProbe::HighCpu { threshold_percent: cpu })
                    } else {
                        unknown_name("Unknown sense: ", x)
                    }
                },
                None => WinRequest::Action { action: String::from_str(requested_action(args)) },
            },
        },
    }
}

} // verus!
