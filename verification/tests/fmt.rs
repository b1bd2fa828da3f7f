use paneview::fmt::{activity_indicator, animated_flow, animated_route, compact_count, scanline, short_mount, truncate};

#[test]
fn truncate_appends_marker_when_cut() {
    assert_eq!(truncate("abcdef", 4), "abc~");
}

#[test]
fn truncate_returns_input_when_fits() {
    assert_eq!(truncate("ab", 4), "ab");
}

#[test]
fn short_mount_keeps_root() {
    assert_eq!(short_mount("/"), "/");
}

#[test]
fn short_mount_takes_last_segment() {
    assert_eq!(short_mount("/System/Volumes/Data"), "Data");
}

#[test]
fn compact_count_formats_thousands() {
    assert_eq!(compact_count(2_500), "2.5K");
    assert_eq!(compact_count(7_400_000), "7.4M");
}

fn float_compact(value: u64) -> String {
    if value >= 1_000_000_000 {
        format!("{:.1}B", value as f64 / 1_000_000_000.0)
    } else if value >= 1_000_000 {
        format!("{:.1}M", value as f64 / 1_000_000.0)
    } else if value >= 1_000 {
        format!("{:.1}K", value as f64 / 1_000.0)
    } else {
        value.to_string()
    }
}

#[test]
fn compact_count_matches_float_formatting() {
    let mut samples: Vec<u64> = vec![
        0, 7, 999, 1_000, 1_049, 1_050, 1_051, 1_150, 1_250, 2_450, 2_550, 999_949, 999_950, 999_999, 1_000_000,
        1_050_000, 1_250_000, 2_450_000, 999_999_999, 1_000_000_000, 1_050_000_000, 2_450_000_000,
        9_007_199_254_740_993, u64::MAX,
    ];
    let mut x: u64 = 0x2545_F491_4F6C_DD1D;
    for _ in 0..3000 {
        x ^= x << 13;
        x ^= x >> 7;
        x ^= x << 17;
        samples.push(x >> (x % 64));
        // Values just around the ties at a half tenth.
        let unit: u64 = [1_000u64, 1_000_000, 1_000_000_000][(x % 3) as usize];
        let tie: u64 = (x % 999 + 1) * unit / 10 + unit / 20;
        samples.push(tie);
        samples.push(tie + 1);
        samples.push(tie - 1);
    }
    for v in samples {
        assert_eq!(compact_count(v), float_compact(v), "value = {v}");
    }
}

#[test]
fn truncate_edge_widths() {
    assert_eq!(truncate("abcdef", 0), "");
    assert_eq!(truncate("abcdef", 1), "a");
    assert_eq!(truncate("héllo", 3), "hé~");
    assert_eq!(truncate("abc", 3), "abc");
}

#[test]
fn short_mount_ignores_trailing_slashes() {
    assert_eq!(short_mount("/mnt/data/"), "data");
    assert_eq!(short_mount("//"), "//");
    assert_eq!(short_mount("disk"), "disk");
}

#[test]
fn scanline_draws_the_pulse() {
    assert_eq!(scanline(0, 5), "");
    assert_eq!(scanline(10, 0), "==>*>==---");
    assert_eq!(scanline(10, 10), "-----==>*=");
    assert_eq!(scanline(4, 0), "==>=");
}

#[test]
fn activity_indicator_spins_every_eight_steps() {
    assert_eq!(activity_indicator(0), "|");
    assert_eq!(activity_indicator(8), "/");
    assert_eq!(activity_indicator(16), "-");
    assert_eq!(activity_indicator(24), "\\");
    assert_eq!(activity_indicator(32), "|");
}

#[test]
fn animations_move_the_marker() {
    assert_eq!(animated_route(0), "[host]-*[net]--[disk]");
    assert_eq!(animated_route(10), "[host]--*net]--[disk]");
    assert_eq!(animated_flow(14), "[pane]=>[iface]=*[lan]");
    assert_eq!(animated_flow(21), "[pane]=>[iface]=>*lan]");
}
