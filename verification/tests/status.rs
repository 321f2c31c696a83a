use gtc_control::domain::{ModeSelection, RegisterValue, Snapshot, SnapshotEntry};
use gtc_control::status::{
    build_status, decode_firmware, decode_flags, decode_phase, decode_state, error_flags,
    note_flags, ActiveMode, DeviceState, OperationPhase, Priority,
};

fn entry(name: &str, value: RegisterValue) -> SnapshotEntry {
    SnapshotEntry { name: name.into(), value, unit: None }
}

#[test]
fn firmware_decoding_matches_pdf_example_2_3_17() {
    let fw = decode_firmware(0x2311);
    assert_eq!(fw.major, 2);
    assert_eq!(fw.minor, 3);
    assert_eq!(fw.patch, 17);
    assert_eq!(fw.to_string(), "2.3.17");
}

#[test]
fn firmware_decoding_matches_observed_5_1_0() {
    let fw = decode_firmware(0x5100);
    assert_eq!(fw.to_string(), "5.1.0");
}

#[test]
fn firmware_decoding_loses_nothing() {
    for word in 0..=u16::MAX {
        let fw = decode_firmware(word);
        assert_eq!(
            u16::from(fw.major) << 12 | u16::from(fw.minor) << 8 | u16::from(fw.patch),
            word
        );
    }
}

#[test]
fn state_decoding_matches_observed_449() {
    let s = decode_state(449);
    assert!(s.power_on, "bit 0 = power");
    assert!(!s.transitioning);
    assert!(s.heating_available);
    assert!(s.cooling_available);
    assert!(s.active_mode_heating);
    assert!(!s.timer_today);
    assert!(!s.timer_week);
    assert_eq!(s.priority, Priority::NoSensor);
    assert_eq!(s.active_mode(), ActiveMode::Heating);
}

#[test]
fn state_off_when_bit_0_clear() {
    let s = decode_state(0);
    assert!(!s.power_on);
    assert_eq!(s.active_mode(), ActiveMode::Ventilation);
}

#[test]
fn state_priority_decoding() {
    let humidity = decode_state(1 | (1 << 11));
    assert_eq!(humidity.priority, Priority::Humidity);
    let co2 = decode_state(1 | (2 << 11));
    assert_eq!(co2.priority, Priority::Co2);
    let pressure = decode_state(1 | (3 << 11));
    assert_eq!(pressure.priority, Priority::Pressure);
}

#[test]
fn state_bits_are_read_one_by_one() {
    assert!(decode_state(1 << 1).transitioning);
    assert!(decode_state(1 << 6).heating_available);
    assert!(decode_state(1 << 7).cooling_available);
    assert!(decode_state(1 << 8).active_mode_heating);
    assert!(decode_state(1 << 9).timer_today);
    assert!(decode_state(1 << 10).timer_week);
    let both = decode_state((1 << 6) | (1 << 7));
    assert_eq!(both.active_mode(), ActiveMode::Cooling);
}

#[test]
fn state_active_mode_falls_back_to_installed() {
    let heat_only = DeviceState {
        power_on: true,
        transitioning: false,
        heating_available: true,
        cooling_available: false,
        active_mode_heating: false,
        timer_today: false,
        timer_week: false,
        priority: Priority::NoSensor,
    };
    assert_eq!(heat_only.active_mode(), ActiveMode::Heating);

    let cool_only = DeviceState {
        heating_available: false,
        cooling_available: true,
        active_mode_heating: true,
        ..heat_only
    };
    assert_eq!(cool_only.active_mode(), ActiveMode::Cooling);
}

#[test]
fn phase_idle_is_zero() {
    assert_eq!(decode_phase(0), OperationPhase::Idle);
}

#[test]
fn phase_known_values_decode_individually() {
    let pairs: &[(u16, OperationPhase)] = &[
        (1, OperationPhase::OpeningDamper),
        (3, OperationPhase::FanStarting),
        (6, OperationPhase::ClosingDamper),
        (12, OperationPhase::RotorAccelerating),
    ];
    for (word, expected) in pairs {
        assert_eq!(decode_phase(*word), *expected);
    }
}

#[test]
fn phase_unknown_carries_raw_bits() {
    assert_eq!(decode_phase(31), OperationPhase::Unknown(31));
}

#[test]
fn phase_only_looks_at_low_five_bits() {
    assert_eq!(decode_phase(0xFFE0 | 3), OperationPhase::FanStarting);
}

#[test]
fn labels_of_modes_priorities_and_phases() {
    assert_eq!(ActiveMode::Heating.label(), "Heating");
    assert_eq!(ActiveMode::Cooling.label(), "Cooling");
    assert_eq!(ActiveMode::Ventilation.label(), "Ventilation only");
    assert_eq!(Priority::NoSensor.label(), "Temperature setpoint");
    assert_eq!(Priority::Humidity.label(), "Humidity");
    assert_eq!(Priority::Co2.label(), "CO₂");
    assert_eq!(Priority::Pressure.label(), "Pressure");
    let labels = [
        "Idle",
        "Opening damper",
        "Heater preheating",
        "Fan starting",
        "Northern start",
        "Fan coasting",
        "Closing damper",
        "Electric heater purge",
        "Opening hot-water valve",
        "Closing hot-water valve",
        "Opening cold-water valve",
        "Closing cold-water valve",
        "Rotor accelerating",
        "Other phase",
    ];
    for (word, label) in labels.iter().enumerate() {
        assert_eq!(decode_phase(word as u16).label(), *label);
    }
}

#[test]
fn errors_empty_for_zero() {
    assert!(decode_flags(0, &error_flags()).is_empty());
}

#[test]
fn errors_collect_multiple_set_bits() {
    // Bit 0 (T1 fault) and bit 11 (fire alarm).
    let word = 1 | (1 << 11);
    let labels = decode_flags(word, &error_flags());
    assert_eq!(labels.len(), 2);
    assert!(labels.iter().any(|l| l.contains("T1")));
    assert!(labels.iter().any(|l| l.contains("Fire")));
}

#[test]
fn notes_decode_real_device_value_16() {
    let labels = decode_flags(16, &note_flags());
    assert_eq!(labels.len(), 1);
    assert!(labels[0].contains("overheat"));
}

#[test]
fn every_flag_of_the_tables_is_raised() {
    assert_eq!(decode_flags(0xFFFF, &error_flags()).len(), 15);
    assert_eq!(decode_flags(0xFFFF, &note_flags()).len(), 10);
    assert!(decode_flags(1 << 12, &error_flags()).is_empty());
    for (bit, label) in error_flags() {
        assert_eq!(decode_flags(1 << bit, &error_flags()), vec![label]);
    }
    for (bit, label) in note_flags() {
        assert_eq!(decode_flags(1 << bit, &note_flags()), vec![label]);
    }
}

#[test]
fn build_status_empty_snapshot() {
    let view = build_status(&Snapshot::new());
    assert!(view.firmware.is_none());
    assert!(view.state.is_none());
    assert!(view.phase.is_none());
    assert!(view.errors.is_empty());
    assert!(view.notes.is_empty());
    assert!(view.temperature_setpoint.is_none());
    assert!(view.mode_selection.is_none());
}

#[test]
fn build_status_picks_up_mode_selection() {
    let snap = Snapshot {
        entries: vec![entry("mode_system", RegisterValue::Mode(ModeSelection::Auto))],
    };
    let view = build_status(&snap);
    assert_eq!(view.mode_selection, Some(ModeSelection::Auto));
}

#[test]
fn build_status_picks_up_temperature_setpoint() {
    let snap = Snapshot {
        entries: vec![SnapshotEntry {
            name: "temp_setpoint".into(),
            value: RegisterValue::Temperature(225),
            unit: Some("°C".into()),
        }],
    };
    let view = build_status(&snap);
    let target = f32::from(view.temperature_setpoint.unwrap()) / 10.0;
    assert!((target - 22.5).abs() < 1e-6);
}

#[test]
fn build_status_ignores_non_temperature_setpoint_values() {
    let snap = Snapshot { entries: vec![entry("temp_setpoint", RegisterValue::U16(225))] };
    let view = build_status(&snap);
    assert!(view.temperature_setpoint.is_none());
}

#[test]
fn build_status_recognises_well_known_names() {
    let snap = Snapshot {
        entries: vec![
            entry("firmware_version", RegisterValue::U16(0x5100)),
            entry("state_word_0", RegisterValue::U16(449)),
            entry("state_word_1", RegisterValue::U16(0)),
            entry("error_code", RegisterValue::U16(0)),
            entry("error_code_aux", RegisterValue::U16(16)),
        ],
    };
    let view = build_status(&snap);
    assert_eq!(view.firmware.unwrap().to_string(), "5.1.0");
    assert!(view.state.unwrap().power_on);
    assert_eq!(view.phase.unwrap(), OperationPhase::Idle);
    assert!(view.errors.is_empty());
    assert_eq!(view.notes.len(), 1);
}

#[test]
fn build_status_ignores_unrelated_entries() {
    let snap = Snapshot {
        entries: vec![SnapshotEntry {
            name: "supply_air_temp".into(),
            value: RegisterValue::Temperature(215),
            unit: Some("°C".into()),
        }],
    };
    let view = build_status(&snap);
    assert!(view.firmware.is_none());
    assert!(view.state.is_none());
}

#[test]
fn build_status_reads_words_of_other_integer_types() {
    let snap = Snapshot {
        entries: vec![
            entry("firmware_version", RegisterValue::I16(-1)),
            entry("error_code", RegisterValue::Percent(1)),
            entry("state_word_0", RegisterValue::Bool(true)),
            // Only the first entry of a name counts.
            entry("error_code", RegisterValue::U16(0xFFFF)),
        ],
    };
    let view = build_status(&snap);
    assert_eq!(view.firmware.unwrap().to_string(), "15.15.255");
    assert_eq!(view.errors.len(), 1);
    assert!(view.state.is_none());
}

#[test]
fn a_snapshot_of_other_registers_has_an_empty_view() {
    let snap = Snapshot {
        entries: vec![entry("a", RegisterValue::U16(1)), entry("b", RegisterValue::U16(2))],
    };
    assert_eq!(build_status(&snap), build_status(&Snapshot::new()));
}
