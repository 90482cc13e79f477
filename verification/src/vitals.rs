//! Vitals organ: reading memory figures, battery and CPU times into a
//! vitals reading, and the `system_vitals` sense line.
//!
//! Percentages are held in tenths of a percent, the precision to which the
//! organ rounds them.

use vstd::prelude::*;
use crate::winsense::{SYSTEM_POWER_STATUS, cpu_busy_total, monus};
use crate::text::{chars_of, char_is_ws, dec, digit_char, has_prefix, is_ws, lines, parse_u64, parse_u64_str, push_chars, push_dec, push_text, split_lines, string_from_chars};

verus! {

/// A vitals sample: CPU load and memory use in tenths of a percent, the
/// battery description, and the two alarms.
#[derive(Debug)]
pub struct VitalsReading {
    pub cpu_tenths: Option<u64>,
    pub mem_tenths: Option<u64>,
    pub battery: Option<String>,
    pub is_critical_battery: bool,
    pub is_cpu_throttle: bool,
}

/// A percentage given in tenths, as `{}` prints the one-decimal float:
/// no decimals when the tenths digit is zero.
pub open spec fn percent_text(tenths: nat) -> Seq<char> {
    if tenths % 10 == 0 {
        dec(tenths / 10)
    } else {
        dec(tenths / 10) + seq!['.', digit_char(tenths % 10)]
    }
}

/// Render a percentage given in tenths.
pub fn push_percent(out: &mut String, tenths: u64)
    ensures
        final(out)@ == old(out)@ + percent_text(tenths as nat),
{
    push_dec(out, tenths / 10);
    if tenths % 10 != 0 {
        let frac: Vec<char> = vec!['.', digit_of(tenths % 10)];
        push_chars(out, frac.as_slice());
        assert(out@ =~= old(out)@ + percent_text(tenths as nat));
    }
}

fn digit_of(d: u64) -> (c: char)
    requires
        d < 10,
    ensures
        c == digit_char(d as nat),
{
    let ds = crate::text::dec_chars(d);
    ds[0]
}

/// The `system_vitals` line: CPU, RAM and battery, with "N/A" for a
/// missing percentage and "none" for a missing battery.
pub open spec fn vitals_line(v: VitalsReading) -> Seq<char> {
    "CPU: "@ + (match v.cpu_tenths {
        Some(c) => percent_text(c as nat) + "%"@,
        None => "N/A"@,
    }) + " | RAM: "@ + (match v.mem_tenths {
        Some(m) => percent_text(m as nat) + "%"@,
        None => "N/A"@,
    }) + " | Battery: "@ + (match v.battery {
        Some(b) => b@,
        None => "none"@,
    })
}

/// Answer a sense request from a vitals reading: `system_vitals` gives the
/// vitals line; any other sense is an error naming it.
pub fn handle_sense(sense: &str, vitals: &VitalsReading) -> (r: Result<String, String>)
    ensures
        sense@ == "system_vitals"@ ==> (r matches Ok(line) && line@ == vitals_line(*vitals)),
        sense@ != "system_vitals"@ ==> (r matches Err(e) && e@ == "Unknown sense: "@ + sense@),
{
    let name = String::from_str("system_vitals");
    let given = String::from_str(sense);
    if given == name {
        let mut out = String::new();
        push_text(&mut out, "CPU: ");
        match vitals.cpu_tenths {
            Some(c) => {
                push_percent(&mut out, c);
                push_text(&mut out, "%");
            },
            None => push_text(&mut out, "N/A"),
        }
        push_text(&mut out, " | RAM: ");
        match vitals.mem_tenths {
            Some(m) => {
                push_percent(&mut out, m);
                push_text(&mut out, "%");
            },
            None => push_text(&mut out, "N/A"),
        }
        push_text(&mut out, " | Battery: ");
        match &vitals.battery {
            Some(b) => push_text(&mut out, b.as_str()),
            None => push_text(&mut out, "none"),
        }
        Ok(out)
    } else {
        let mut e = String::new();
        push_text(&mut e, "Unknown sense: ");
        push_text(&mut e, sense);
        Err(e)
    }
}

/// The whitespace-separated words of `cur + rest` (`split_whitespace`),
/// where `cur` is the part of the current word already read.
pub open spec fn words_from(cur: Seq<char>, rest: Seq<char>) -> Seq<Seq<char>>
    decreases rest.len(),
{
    if rest.len() == 0 {
        if cur.len() == 0 {
            Seq::empty()
        } else {
            seq![cur]
        }
    } else if is_ws(rest[0]) {
        (if cur.len() == 0 {
            Seq::empty()
        } else {
            seq![cur]
        }) + words_from(Seq::empty(), rest.drop_first())
    } else {
        words_from(cur.push(rest[0]), rest.drop_first())
    }
}

/// The whitespace-separated words of `s`.
pub open spec fn words(s: Seq<char>) -> Seq<Seq<char>> {
    words_from(Seq::empty(), s)
}

/// The words of a character slice.
pub fn split_words(s: &[char]) -> (r: Vec<Vec<char>>)
    ensures
        r@.map_values(|w: Vec<char>| w@) == words(s@),
{
    let mut done: Vec<Vec<char>> = Vec::new();
    let mut cur: Vec<char> = Vec::new();
    let mut i: usize = 0;
    assert(s@.skip(0) =~= s@);
    assert(done@.map_values(|w: Vec<char>| w@) =~= Seq::<Seq<char>>::empty());
    assert(cur@ =~= Seq::<char>::empty());
    while i < s.len()
        invariant
            i <= s@.len(),
            words(s@) == done@.map_values(|w: Vec<char>| w@) + words_from(cur@, s@.skip(i as int)),
        decreases s@.len() - i,
    {
        let ghost old_done = done@.map_values(|w: Vec<char>| w@);
        assert(s@.skip(i as int).drop_first() =~= s@.skip(i + 1));
        let c = s[i];
        if char_is_ws(c) {
            if cur.len() > 0 {
                let ghost oc = cur@;
                done.push(cur);
                cur = Vec::new();
                assert(done@.map_values(|w: Vec<char>| w@) =~= old_done + seq![oc]);
            } else {
                assert(old_done + Seq::<Seq<char>>::empty() =~= old_done);
            }
            assert(cur@ =~= Seq::<char>::empty());
        } else {
            cur.push(c);
        }
        i = i + 1;
    }
    if cur.len() > 0 {
        done.push(cur);
    }
    assert(done@.map_values(|w: Vec<char>| w@) =~= words(s@));
    done
}

/// The figure on a meminfo line: its second word read as an integer, or 0.
pub open spec fn meminfo_figure(line: Seq<char>) -> u64 {
    if words(line).len() > 1 {
        match parse_u64(words(line)[1]) {
            Some(v) => v,
            None => 0,
        }
    } else {
        0
    }
}

/// The `(MemTotal, MemAvailable)` figures after reading `ls` from `acc`:
/// the last line for each key counts.
pub open spec fn meminfo_scan(acc: (u64, u64), ls: Seq<Seq<char>>) -> (u64, u64)
    decreases ls.len(),
{
    if ls.len() == 0 {
        acc
    } else {
        let l = ls[0];
        let next = if "MemTotal:"@.is_prefix_of(l) {
            (meminfo_figure(l), acc.1)
        } else if "MemAvailable:"@.is_prefix_of(l) {
            (acc.0, meminfo_figure(l))
        } else {
            acc
        };
        meminfo_scan(next, ls.drop_first())
    }
}

/// `round(1000 * part / whole)`, halves rounded up.
pub open spec fn round_tenths(part: nat, whole: nat) -> nat {
    ((2000 * part + whole) / (2 * whole)) as nat
}

/// The memory use in tenths of a percent from `/proc/meminfo` text, when
/// the total is known and positive.
pub open spec fn meminfo_usage(text: Seq<char>) -> Option<u64> {
    let (total, avail) = meminfo_scan((0, 0), lines(text));
    if total > 0 {
        let used: nat = if avail <= total {
            (total - avail) as nat
        } else {
            0
        };
        Some(round_tenths(used, total as nat) as u64)
    } else {
        None
    }
}

fn meminfo_figure_exec(line: &Vec<char>) -> (v: u64)
    ensures
        v == meminfo_figure(line@),
{
    let ws = split_words(line.as_slice());
    if ws.len() > 1 {
        let s = string_from_chars(ws[1].as_slice());
        match parse_u64_str(s.as_str()) {
            Some(v) => v,
            None => 0,
        }
    } else {
        0
    }
}

/// A vitals reading from the text of `/proc/meminfo`: the memory use, an
/// "ac" battery, and no CPU figure.
pub fn vitals_from_meminfo(text: &str) -> (r: VitalsReading)
    ensures
        r.mem_tenths == meminfo_usage(text@),
        r.cpu_tenths is None,
        r.battery matches Some(b) && b@ == "ac"@,
        !r.is_critical_battery,
        !r.is_cpu_throttle,
{
    let cs = chars_of(text);
    let ls = split_lines(cs.as_slice());
    let ghost lv = ls@.map_values(|l: Vec<char>| l@);
    let total_kw = chars_of("MemTotal:");
    let avail_kw = chars_of("MemAvailable:");
    let mut total: u64 = 0;
    let mut avail: u64 = 0;
    let mut i: usize = 0;
    assert(lv.skip(0) =~= lv);
    while i < ls.len()
        invariant
            i <= ls@.len(),
            lv == ls@.map_values(|l: Vec<char>| l@),
            lv == lines(text@),
            total_kw@ == "MemTotal:"@,
            avail_kw@ == "MemAvailable:"@,
            meminfo_scan((0, 0), lv) == meminfo_scan((total, avail), lv.skip(i as int)),
        decreases ls@.len() - i,
    {
        assert(lv.skip(i as int).drop_first() =~= lv.skip(i + 1));
        assert(lv.skip(i as int)[0] == ls@[i as int]@);
        let line = &ls[i];
        if has_prefix(line.as_slice(), total_kw.as_slice()) {
            total = meminfo_figure_exec(line);
        } else if has_prefix(line.as_slice(), avail_kw.as_slice()) {
            avail = meminfo_figure_exec(line);
        }
        i = i + 1;
    }
    assert(lv.skip(i as int) =~= Seq::<Seq<char>>::empty());
    let mem = if total > 0 {
        let used: u64 = if avail <= total { total - avail } else { 0 };
        let t = ((2000 * (used as u128) + total as u128) / (2 * total as u128)) as u64;
        Some(t)
    } else {
        None
    };
    VitalsReading {
        cpu_tenths: None,
        mem_tenths: mem,
        battery: Some(String::from_str("ac")),
        is_critical_battery: false,
        is_cpu_throttle: false,
    }
}

/// The battery description and the critical-battery alarm that a power
/// status gives: the charge as a percentage when it is known, else
/// "none"; critical when on battery at 15% or less.
pub open spec fn battery_reading(s: SYSTEM_POWER_STATUS) -> (Seq<char>, bool) {
    if s.battery_life_percent <= 100 {
        (
            dec(s.battery_life_percent as nat) + "%"@,
            s.ac_line_status == 0 && s.battery_life_percent <= 15,
        )
    } else {
        ("none"@, false)
    }
}

/// Describe the battery from a power status.
pub fn battery_from_status(s: &SYSTEM_POWER_STATUS) -> (r: (String, bool))
    ensures
        (r.0@, r.1) == battery_reading(*s),
{
    if s.battery_life_percent <= 100 {
        let mut out = String::new();
        push_dec(&mut out, s.battery_life_percent as u64);
        push_text(&mut out, "%");
        (out, s.ac_line_status == 0 && s.battery_life_percent <= 15)
    } else {
        (String::from_str("none"), false)
    }
}

/// The CPU load in tenths of a percent over a sample of idle, kernel and
/// user time; none for an empty sample.
pub open spec fn cpu_load_tenths(idle: nat, kernel: nat, user: nat) -> Option<u64> {
    if kernel + user == 0 {
        None
    } else {
        Some(round_tenths(monus(kernel + user, idle), kernel + user) as u64)
    }
}

fn round_tenths_exec(part: u64, whole: u64) -> (r: u64)
    requires
        whole > 0,
        part <= whole,
    ensures
        r == round_tenths(part as nat, whole as nat),
{
    let p = part as u128;
    let w = whole as u128;
    assert(2000 * p + w <= 2001 * 0xFFFF_FFFF_FFFF_FFFFu128) by (nonlinear_arith)
        requires
            p <= w,
            w <= 0xFFFF_FFFF_FFFF_FFFFu128,
    ;
    let q = (2000 * p + w) / (2 * w);
    assert(q <= 1000) by (nonlinear_arith)
        requires
            p <= w,
            w > 0,
            q == (2000 * p + w) / (2 * w),
    ;
    q as u64
}

/// The CPU load of a sample, in tenths of a percent.
pub fn cpu_tenths_from_times(idle: u64, kernel: u64, user: u64) -> (r: Option<u64>)
    requires
        kernel + user <= u64::MAX,
    ensures
        r == cpu_load_tenths(idle as nat, kernel as nat, user as nat),
{
    let (busy, total) = cpu_busy_total(idle, kernel, user);
    if total == 0 {
        None
    } else {
        Some(round_tenths_exec(busy, total))
    }
}

/// A vitals reading from what the Windows calls returned: the memory load
/// in percent, the power status and the CPU time sample, each absent where
/// its call failed.
pub fn vitals_from_windows(
    mem_load: Option<u32>,
    power: Option<&SYSTEM_POWER_STATUS>,
    cpu_times: Option<(u64, u64, u64)>,
) -> (r: VitalsReading)
    requires
        cpu_times matches Some(t) ==> t.1 + t.2 <= u64::MAX,
    ensures
        r.mem_tenths == (match mem_load {
            Some(m) => Some((m * 10) as u64),
            None => None,
        }),
        match power {
            Some(s) => r.battery matches Some(b) && (b@, r.is_critical_battery)
                == battery_reading(*s),
            None => r.battery is None && !r.is_critical_battery,
        },
        r.cpu_tenths == (match cpu_times {
            Some(t) => cpu_load_tenths(t.0 as nat, t.1 as nat, t.2 as nat),
            None => None,
        }),
        r.is_cpu_throttle == (r.cpu_tenths matches Some(c) && c > 900),
{
    let mem_tenths = match mem_load {
        Some(m) => Some(m as u64 * 10),
        None => None,
    };
    let (battery, critical) = match power {
        Some(s) => {
            let (b, c) = battery_from_status(s);
            (Some(b), c)
        },
        None => (None, false),
    };
    let cpu_tenths = match cpu_times {
        Some(t) => cpu_tenths_from_times(t.0, t.1, t.2),
        None => None,
    };
    let throttle = match cpu_tenths {
        Some(c) => c > 900,
        None => false,
    };
    VitalsReading {
        cpu_tenths,
        mem_tenths,
        battery,
        is_critical_battery: critical,
        is_cpu_throttle: throttle,
    }
}

/// Answer a stimulus request from a vitals reading: whether it fires and
/// why; an unknown stimulus is an error naming it.
pub fn handle_stimulus(stimulus: &str, vitals: &VitalsReading) -> (r: Result<(bool, String), String>)
    ensures
        stimulus@ == "battery_critical"@ ==> (r matches Ok(p) && p.0 == vitals.is_critical_battery
            && p.1@ == (if p.0 {
            "Host battery below 15% on DC"@
        } else {
            "Battery nominal"@
        })),
        stimulus@ == "cpu_throttle"@ ==> (r matches Ok(p) && p.0 == vitals.is_cpu_throttle && p.1@
            == (if p.0 {
            "Host CPU load exceeds 90%"@
        } else {
            "CPU nominal"@
        })),
        stimulus@ != "battery_critical"@ && stimulus@ != "cpu_throttle"@ ==> (r matches Err(e) && e@
            == "Unknown stimulus: "@ + stimulus@),
{
    proof {
        reveal_strlit("battery_critical");
        reveal_strlit("cpu_throttle");
        assert("battery_critical"@.len() != "cpu_throttle"@.len());
    }
    let given = String::from_str(stimulus);
    let battery = String::from_str("battery_critical");
    let cpu = String::from_str("cpu_throttle");
    if given == battery {
        let t = vitals.is_critical_battery;
        let reason = if t {
            String::from_str("Host battery below 15% on DC")
        } else {
            String::from_str("Battery nominal")
        };
        Ok((t, reason))
    } else if given == cpu {
        let t = vitals.is_cpu_throttle;
        let reason = if t {
            String::from_str("Host CPU load exceeds 90%")
        } else {
            String::from_str("CPU nominal")
        };
        Ok((t, reason))
    } else {
        let mut e = String::new();
        push_text(&mut e, "Unknown stimulus: ");
        push_text(&mut e, stimulus);
        Err(e)
    }
}


/// Check a tool request: `vitals_summary` is the only tool.
pub fn handle_tool(tool: &str) -> (r: Result<(), String>)
    ensures
        tool@ == "vitals_summary"@ ==> r is Ok,
        tool@ != "vitals_summary"@ ==> (r matches Err(e) && e@ == "Unknown tool: "@ + tool@),
{
    if crate::text::same_text(tool, "vitals_summary") {
        Ok(())
    } else {
        let mut e = String::new();
        push_text(&mut e, "Unknown tool: ");
        push_text(&mut e, tool);
        Err(e)
    }
}

} // verus!
