use presence_organs::vitals::{
    battery_from_status, cpu_tenths_from_times, handle_sense, handle_stimulus, vitals_from_meminfo,
    vitals_from_windows,
};
use presence_organs::winsense::{
    audio_device_names, battery_low_triggered, filetime_to_u64, high_cpu_triggered, idle_millis,
    idle_triggered, listed_window_title, power_info_from_status, requested_action,
    system_time_deltas, threshold_u8, FILETIME, LASTINPUTINFO, SYSTEM_POWER_STATUS,
};
use presence_organs::sdk::OrganArgs;

const MEMINFO: &str = "MemTotal:       16000000 kB\nMemFree:         1000000 kB\nMemAvailable:    4000000 kB\n";

fn status(ac: u8, pct: u8) -> SYSTEM_POWER_STATUS {
    SYSTEM_POWER_STATUS {
        ac_line_status: ac,
        battery_flag: 0,
        battery_life_percent: pct,
        system_status_flag: 0,
        battery_life_time: 0,
        battery_full_life_time: 0,
    }
}

#[test]
fn test_handle_sense() {
    let v = vitals_from_meminfo(MEMINFO);
    let res = handle_sense("system_vitals", &v).unwrap();
    assert!(res.contains("CPU:"));
    assert!(res.contains("RAM:"));
}

#[test]
fn test_sample_vitals() {
    let v = vitals_from_meminfo(MEMINFO);
    assert!(v.mem_tenths.is_some());
}

#[test]
fn vitals_line_exact() {
    let v = vitals_from_meminfo(MEMINFO);
    assert_eq!(v.mem_tenths, Some(750));
    assert_eq!(handle_sense("system_vitals", &v).unwrap(), "CPU: N/A | RAM: 75% | Battery: ac");
    let w = vitals_from_windows(Some(42), Some(&status(0, 12)), Some((30, 100, 20)));
    assert_eq!(
        handle_sense("system_vitals", &w).unwrap(),
        "CPU: 75% | RAM: 42% | Battery: 12%"
    );
    assert!(w.is_critical_battery);
    assert!(!w.is_cpu_throttle);
}

#[test]
fn vitals_meminfo_without_total() {
    let v = vitals_from_meminfo("MemFree: 10 kB\n");
    assert_eq!(v.mem_tenths, None);
    assert_eq!(v.battery.as_deref(), Some("ac"));
}

#[test]
fn vitals_fractional_percent() {
    let v = vitals_from_meminfo("MemTotal: 3 kB\nMemAvailable: 2 kB\n");
    assert_eq!(v.mem_tenths, Some(333));
    assert_eq!(handle_sense("system_vitals", &v).unwrap(), "CPU: N/A | RAM: 33.3% | Battery: ac");
}

#[test]
fn vitals_unknown_sense_and_stimulus() {
    let v = vitals_from_meminfo(MEMINFO);
    assert_eq!(handle_sense("other", &v).unwrap_err(), "Unknown sense: other");
    assert_eq!(handle_stimulus("other", &v).unwrap_err(), "Unknown stimulus: other");
    let (t, reason) = handle_stimulus("battery_critical", &v).unwrap();
    assert!(!t);
    assert_eq!(reason, "Battery nominal");
}

#[test]
fn vitals_throttle_and_battery() {
    assert_eq!(cpu_tenths_from_times(5, 100, 0), Some(950));
    assert_eq!(cpu_tenths_from_times(0, 0, 0), None);
    let w = vitals_from_windows(None, None, Some((5, 100, 0)));
    assert!(w.is_cpu_throttle);
    let (t, reason) = handle_stimulus("cpu_throttle", &w).unwrap();
    assert!(t);
    assert_eq!(reason, "Host CPU load exceeds 90%");
    assert_eq!(battery_from_status(&status(1, 255)), ("none".to_string(), false));
    assert_eq!(battery_from_status(&status(1, 10)), ("10%".to_string(), false));
    assert_eq!(battery_from_status(&status(0, 15)), ("15%".to_string(), true));
}

#[test]
fn winsense_filetime_and_deltas() {
    let ft = FILETIME { dw_low_date_time: 5, dw_high_date_time: 1 };
    assert_eq!(filetime_to_u64(&ft), (1u64 << 32) + 5);
    let before = [
        FILETIME { dw_low_date_time: 10, dw_high_date_time: 0 },
        FILETIME { dw_low_date_time: 20, dw_high_date_time: 0 },
        FILETIME { dw_low_date_time: 30, dw_high_date_time: 0 },
    ];
    let after = [
        FILETIME { dw_low_date_time: 15, dw_high_date_time: 0 },
        FILETIME { dw_low_date_time: 10, dw_high_date_time: 0 },
        FILETIME { dw_low_date_time: 40, dw_high_date_time: 0 },
    ];
    assert_eq!(system_time_deltas(&before, &after), (5, 0, 10));
}

#[test]
fn winsense_power_and_triggers() {
    let p = power_info_from_status(Some(&status(0, 12)));
    assert_eq!(p.power_source, "battery");
    assert_eq!(p.battery_percent, Some(12));
    assert!(battery_low_triggered(&p, 15));
    assert!(!battery_low_triggered(&p, 10));
    let ac = power_info_from_status(Some(&status(1, 200)));
    assert_eq!(ac.power_source, "ac_connected");
    assert_eq!(ac.battery_percent, None);
    let unknown = power_info_from_status(None);
    assert_eq!(unknown.power_source, "unknown");
    assert_eq!(threshold_u8(Some(300), 15), 44);
    assert_eq!(threshold_u8(None, 15), 15);
    assert!(high_cpu_triggered(90, 100, 85));
    assert!(!high_cpu_triggered(80, 100, 85));
    assert!(idle_triggered(900_000, 900));
    assert!(!idle_triggered(899_999, 900));
}

#[test]
fn winsense_idle_wraps() {
    let info = LASTINPUTINFO { cb_size: 8, dw_time: 10 };
    assert_eq!(idle_millis(4, &info), u32::MAX - 5);
    assert_eq!(idle_millis(110, &info), 100);
}

#[test]
fn winsense_titles_and_audio() {
    assert_eq!(listed_window_title("  Editor  ").as_deref(), Some("Editor"));
    assert_eq!(listed_window_title("Program Manager"), None);
    assert_eq!(listed_window_title("   "), None);
    assert_eq!(
        audio_device_names("Speakers\r\n\n  Headset  \n"),
        vec!["Speakers".to_string(), "Headset".to_string()]
    );
}

#[test]
fn winsense_action_selection() {
    let a = OrganArgs::from_args(&["--tool", "windows", "--action", "power"]);
    assert_eq!(requested_action(&a), "windows");
    let d = OrganArgs::from_args(&["--action", "power"]);
    assert_eq!(requested_action(&d), "power");
    let b = OrganArgs::from_args(&["--tool", "windows"]);
    assert_eq!(requested_action(&b), "windows");
    let c = OrganArgs::from_args(&[]);
    assert_eq!(requested_action(&c), "overview");
}
