//! Frequencies, channels and settings.

use quasar_sdr::frequency::{format_mhz, pan_center, parse_mhz};
use quasar_sdr::model::{Mode, Settings, VfoConfig, MAX_RF_HZ, MIN_RF_HZ};

#[test]
fn marine_frequency_parses_in_both_locales_and_rejects_invalid_input() {
    assert_eq!(parse_mhz("156.800"), Ok(156_800_000));
    assert_eq!(parse_mhz("156,800"), Ok(156_800_000));
    for bad in ["", "abc", "NaN", "inf", "-156", "2000"] {
        assert!(parse_mhz(bad).is_err());
    }
}

#[test]
fn tuning_outside_window_retunes_without_moving_other_vfos() {
    let mut settings = Settings {
        center_hz: 145_500_000,
        ..Default::default()
    };
    let mut other_vfo = VfoConfig::new(2, 0, Mode::Nfm);
    other_vfo.frequency_hz = 145_515_000;
    settings.vfos.push(other_vfo);
    let other = settings.vfos[1].frequency_hz;
    settings.tune_vfo(1, 156_800_000);
    assert_eq!(settings.center_hz, 156_800_000);
    assert_eq!(settings.vfos[0].frequency_hz, 156_800_000);
    assert_eq!(settings.vfos[1].frequency_hz, other);
    assert!(!settings.vfos[1].in_band(settings.center_hz));
    settings.tune_vfo(1, 157_000_000);
    assert_eq!(settings.center_hz, 156_800_000);
}

#[test]
fn panning_uses_full_capture_bandwidth_and_hardware_limits() {
    assert_eq!(pan_center(156_800_000, 100_000, 1_000_000), 156_560_000);
    assert_eq!(pan_center(MIN_RF_HZ, 100_000, 1_000_000), MIN_RF_HZ);
    assert_eq!(pan_center(MAX_RF_HZ, -100_000, 1_000_000), MAX_RF_HZ);
}

#[test]
fn defaults_receive_marine_channel_16_with_relative_sql() {
    let settings = Settings::default();
    assert_eq!(settings.center_hz, 156_800_000);
    assert_eq!(settings.vfos.len(), 1);
    assert_eq!(settings.vfos[0].frequency_hz, 156_800_000);
    assert_eq!(settings.vfos[0].mode, Mode::Nfm);
    assert_eq!(settings.vfos[0].squelch_db, 0);
    assert!(settings.adaptive_squelch);
    assert_eq!(settings.sql_relative_db, 10_000_000);
    assert_eq!(settings.rf_gain_db, 280);
}

#[test]
fn both_kinds_of_bad_frequency_have_their_message() {
    assert_eq!(
        parse_mhz("abc").unwrap_err(),
        "Fréquence invalide : saisir des MHz, par exemple 156.800"
    );
    for far in ["NaN", "inf", "-156", "2000", "1e400", "0.4999995"] {
        assert_eq!(
            parse_mhz(far).unwrap_err(),
            "Fréquence hors plage : 0,500 à 1766 MHz (Blog V4)"
        );
    }
}

#[test]
fn numbers_of_all_forms_are_read() {
    assert_eq!(parse_mhz("  88.5\t"), Ok(88_500_000));
    assert_eq!(parse_mhz("+1.5e2"), Ok(150_000_000));
    assert_eq!(parse_mhz("15680E-2"), Ok(156_800_000));
    assert_eq!(parse_mhz(".5"), Ok(500_000));
    assert_eq!(parse_mhz("1766."), Ok(1_766_000_000));
    assert_eq!(parse_mhz("100.0000004"), Ok(100_000_000));
    assert_eq!(parse_mhz("100.0000006"), Ok(100_000_001));
    assert!(parse_mhz("1e").is_err());
    assert!(parse_mhz(".").is_err());
    assert!(parse_mhz("1.2.3").is_err());
    assert!(parse_mhz("0x10").is_err());
    assert!(parse_mhz("+-1").is_err());
}

#[test]
fn written_frequencies_read_back() {
    for hz in [MIN_RF_HZ, 999_999, 156_800_000, 433_920_017, MAX_RF_HZ] {
        assert_eq!(parse_mhz(&format_mhz(hz)), Ok(hz));
    }
    assert_eq!(format_mhz(156_800_000), "156.800000");
    assert_eq!(format_mhz(500_000), "0.500000");
    assert_eq!(format_mhz(-1), "-0.000001");
}

#[test]
fn a_drag_by_nothing_moves_nothing() {
    assert_eq!(pan_center(433_920_017, 0, 777_333), 433_920_017);
    // Less than a pixel counts as one.
    assert_eq!(pan_center(100_000_000, 10, 1), 99_976_000);
}

#[test]
fn channels_know_their_place_and_width() {
    let vfo = VfoConfig::new(300, -45_000, Mode::Wfm);
    assert_eq!(vfo.priority, 255);
    assert_eq!(vfo.gain, 500_000);
    assert_eq!(vfo.frequency_hz, 156_755_000);
    assert_eq!(vfo.offset_hz(156_800_000), -45_000);
    assert_eq!(VfoConfig::new(7, 0, Mode::Am).priority, 7);
    // Half the width of the channel must fit into the usable band.
    let edge = 156_755_000 + 1_152_000 - 80_000;
    assert!(vfo.in_band(edge));
    assert!(!vfo.in_band(edge + 1));
    let widths: Vec<u32> = Mode::ALL.iter().map(|m| m.bandwidth()).collect();
    assert_eq!(widths, vec![25_000, 160_000, 10_000, 6_000, 6_000]);
    let names: Vec<&str> = Mode::ALL.iter().map(|m| m.label()).collect();
    assert_eq!(names, vec!["NFM", "WFM mono", "AM", "LSB", "USB"]);
}

#[test]
fn tuning_keeps_to_the_range_of_the_hardware() {
    let mut settings = Settings::default();
    settings.tune_vfo(1, 10);
    assert_eq!(settings.vfos[0].frequency_hz, MIN_RF_HZ);
    assert_eq!(settings.center_hz, MIN_RF_HZ);
    settings.tune_vfo(1, i64::MAX);
    assert_eq!(settings.vfos[0].frequency_hz, MAX_RF_HZ);
    let before = settings.center_hz;
    settings.tune_vfo(9, 100_000_000);
    assert_eq!(settings.center_hz, before);
    assert_eq!(settings.vfos[0].frequency_hz, MAX_RF_HZ);
}

/// The frequency by floating point.
fn by_double(text: &str) -> Option<i64> {
    let hz = text.parse::<f64>().ok()? * 1e6;
    if hz >= MIN_RF_HZ as f64 && hz <= MAX_RF_HZ as f64 {
        Some(hz.round() as i64)
    } else {
        None
    }
}

#[test]
fn numbers_have_double_precision() {
    assert_eq!(parse_mhz("0.49999999999999999999"), Ok(500_000));
    assert_eq!(parse_mhz("1766.0000000000000001"), Ok(1_766_000_000));
    assert!(parse_mhz("0.4999999999999999").is_err());
    assert!(parse_mhz("1766.0000000000003").is_err());
    let mut texts: Vec<String> = vec![
        "0.4999999999999999722".into(),
        "0.49999999999999997224442438437108648940920829772949218750".into(),
        "0.49999999999999997224442438437108648940920829772949218749".into(),
        "1766.00000000000011368683772161602973937988281250".into(),
        "1766.00000000000011368683772161602973937988281251".into(),
        "17660000e-4".into(),
        "1e-2".into(),
        "9.9e-3".into(),
        "9999.9".into(),
        "0.0000001e7".into(),
        "0.000".into(),
    ];
    let mut seed = 7_u64;
    let mut next = || {
        seed ^= seed << 13;
        seed ^= seed >> 7;
        seed ^= seed << 17;
        seed
    };
    for _ in 0..3_000 {
        // Many of them lie half a hertz from a whole number.
        let hz = 400_000 + next() % 1_800_000_000;
        texts.push(format!("{}.{:06}5", hz / 1_000_000, hz % 1_000_000));
        texts.push(format!("{}.{:06}{}", hz / 1_000_000, hz % 1_000_000, next()));
        texts.push(format!("{}.{:06}4999999999{}", hz / 1_000_000, hz % 1_000_000, next()));
        texts.push(format!("{}{}e-{}", hz, next(), 10 + next() % 20));
    }
    for text in &texts {
        assert_eq!(parse_mhz(text).ok(), by_double(text), "{text}");
    }
}
