use gtc_control::domain::{
    ModeSelection, RegisterDef, RegisterDefError, RegisterKind, RegisterValue, RegisterValueType,
    Snapshot, SnapshotEntry, ValueConversionError,
};

fn def(kind: RegisterKind, value_type: RegisterValueType, writable: bool, name: &str) -> RegisterDef {
    RegisterDef {
        name: name.into(),
        kind,
        address: 0,
        value_type,
        writable,
        unit: None,
        group: None,
        display_name: None,
    }
}

#[test]
fn validate_rejects_writable_on_input() {
    let def = def(RegisterKind::Input, RegisterValueType::I16, true, "temp");
    let err = def.validate().unwrap_err();
    assert!(matches!(err, RegisterDefError::WritableOnReadOnlyKind { .. }));
    assert_eq!(
        err.to_string(),
        "register `temp`: kind `Input` is read-only and cannot be `writable: true`"
    );
}

#[test]
fn validate_rejects_bool_on_holding() {
    let def = def(RegisterKind::Holding, RegisterValueType::Bool, true, "power");
    let err = def.validate().unwrap_err();
    assert!(matches!(err, RegisterDefError::ValueTypeKindMismatch { .. }));
    assert_eq!(
        err.to_string(),
        "register `power`: value type `Bool` is incompatible with kind `Holding`"
    );
}

#[test]
fn validate_accepts_bool_on_coil() {
    assert!(def(RegisterKind::Coil, RegisterValueType::Bool, true, "power").validate().is_ok());
}

#[test]
fn validate_checks_writability_before_the_value_type() {
    let err = def(RegisterKind::Discrete, RegisterValueType::U16, true, "x").validate().unwrap_err();
    assert_eq!(
        err,
        RegisterDefError::WritableOnReadOnlyKind { name: "x".into(), kind: RegisterKind::Discrete }
    );
    let err = def(RegisterKind::Discrete, RegisterValueType::Mode, false, "x").validate().unwrap_err();
    assert_eq!(
        err,
        RegisterDefError::ValueTypeKindMismatch {
            name: "x".into(),
            kind: RegisterKind::Discrete,
            value_type: RegisterValueType::Mode
        }
    );
}

#[test]
fn kinds_tell_bits_and_writability() {
    assert!(RegisterKind::Holding.is_writable_kind());
    assert!(RegisterKind::Coil.is_writable_kind());
    assert!(!RegisterKind::Input.is_writable_kind());
    assert!(!RegisterKind::Discrete.is_writable_kind());
    assert!(RegisterKind::Coil.is_bit());
    assert!(RegisterKind::Discrete.is_bit());
    assert!(!RegisterKind::Holding.is_bit());
    assert!(!RegisterKind::Input.is_bit());
}

#[test]
fn decode_temperature_x10_rounds_to_one_decimal() {
    let v = RegisterValueType::TemperatureX10.decode_word(215).unwrap();
    match v {
        RegisterValue::Temperature(t) => assert!((f32::from(t) / 10.0 - 21.5).abs() < 1e-6),
        other => panic!("expected Temperature, got {other:?}"),
    }
}

#[test]
fn decode_temperature_x10_handles_negative() {
    let raw: u16 = (-50_i16) as u16;
    let v = RegisterValueType::TemperatureX10.decode_word(raw).unwrap();
    match v {
        RegisterValue::Temperature(t) => assert!((f32::from(t) / 10.0 - (-5.0)).abs() < 1e-6),
        other => panic!("expected Temperature, got {other:?}"),
    }
}

#[test]
fn parse_percent_rejects_above_100() {
    let err = RegisterValueType::Percent.parse_word("150").unwrap_err();
    assert!(matches!(err, ValueConversionError::OutOfRange { .. }));
    assert_eq!(err.to_string(), "value `150` out of range: percent must be in 0..=100");
    assert_eq!(RegisterValueType::Percent.parse_word("100"), Ok(100));
}

#[test]
fn parse_bool_accepts_synonyms() {
    for v in ["true", "On", "1"] {
        assert!(RegisterValueType::Bool.parse_bit(v).unwrap());
    }
    for v in ["false", "OFF", "0"] {
        assert!(!RegisterValueType::Bool.parse_bit(v).unwrap());
    }
}

#[test]
fn parse_bool_rejects_garbage() {
    let err = RegisterValueType::Bool.parse_bit("maybe").unwrap_err();
    assert!(matches!(err, ValueConversionError::Parse(_)));
    assert_eq!(
        RegisterValueType::Bool.parse_bit(" MayBe ").unwrap_err().to_string(),
        "could not parse value: expected true/false/on/off/1/0, got `maybe`"
    );
}

#[test]
fn bits_and_words_do_not_mix() {
    assert_eq!(
        RegisterValueType::U16.parse_bit("1"),
        Err(ValueConversionError::WordTypeNotConvertible)
    );
    assert_eq!(
        RegisterValueType::Bool.parse_word("1"),
        Err(ValueConversionError::BitTypeNotConvertible)
    );
    let err = RegisterValueType::Bool.decode_word(1).unwrap_err();
    assert_eq!(err.to_string(), "bit-valued type cannot decode from a 16-bit word");
    let err = RegisterValueType::U16.decode_bit(true).unwrap_err();
    assert_eq!(err.to_string(), "word-valued type cannot decode from a single bit");
    assert_eq!(RegisterValueType::Bool.decode_bit(true), Ok(RegisterValue::Bool(true)));
}

#[test]
fn mode_decoding_only_reads_low_two_bits() {
    assert_eq!(ModeSelection::from_word(0b1010_1010_1010_1000), ModeSelection::Ventilation);
    assert_eq!(ModeSelection::from_word(0b1010_1010_1010_1001), ModeSelection::Heating);
    assert_eq!(ModeSelection::from_word(0b0000_0000_0000_0010), ModeSelection::Cooling);
    assert_eq!(ModeSelection::from_word(0b1111_1111_1111_1111), ModeSelection::Auto);
}

#[test]
fn mode_to_bits_matches_firmware_encoding() {
    assert_eq!(ModeSelection::Ventilation.to_bits(), 0);
    assert_eq!(ModeSelection::Heating.to_bits(), 1);
    assert_eq!(ModeSelection::Cooling.to_bits(), 2);
    assert_eq!(ModeSelection::Auto.to_bits(), 3);
}

#[test]
fn mode_parse_accepts_labels_and_numbers() {
    assert_eq!(ModeSelection::parse("ventilation"), Ok(ModeSelection::Ventilation));
    assert_eq!(ModeSelection::parse("vent"), Ok(ModeSelection::Ventilation));
    assert_eq!(ModeSelection::parse("0"), Ok(ModeSelection::Ventilation));
    assert_eq!(ModeSelection::parse("heating"), Ok(ModeSelection::Heating));
    assert_eq!(ModeSelection::parse("HEAT"), Ok(ModeSelection::Heating));
    assert_eq!(ModeSelection::parse("Cooling"), Ok(ModeSelection::Cooling));
    assert_eq!(ModeSelection::parse(" auto "), Ok(ModeSelection::Auto));
    assert_eq!(ModeSelection::parse("automatic"), Ok(ModeSelection::Auto));
    assert_eq!(ModeSelection::parse("climate"), Ok(ModeSelection::Auto));
    assert_eq!(ModeSelection::parse("1"), Ok(ModeSelection::Heating));
    assert_eq!(ModeSelection::parse("3"), Ok(ModeSelection::Auto));
}

#[test]
fn mode_parse_rejects_garbage() {
    let err = ModeSelection::parse("warm").unwrap_err();
    assert!(matches!(err, ValueConversionError::Parse(_)));
    assert_eq!(
        err.to_string(),
        "could not parse value: expected ventilation/heating/cooling/auto, got `warm`"
    );
}

#[test]
fn parse_word_mode_returns_register_bits() {
    let bits = RegisterValueType::Mode.parse_word("cooling").unwrap();
    assert_eq!(bits, 2);
}

#[test]
fn decode_word_mode_extracts_selection() {
    let v = RegisterValueType::Mode.decode_word(0b1010_1010_1010_1011).unwrap();
    assert_eq!(v, RegisterValue::Mode(ModeSelection::Auto));
}

#[test]
fn mode_display_uses_label() {
    let s = RegisterValue::Mode(ModeSelection::Heating).to_string();
    assert_eq!(s, "heating");
}

#[test]
fn u16_round_trips_through_decode() {
    for w in 0..=u16::MAX {
        assert_eq!(RegisterValueType::U16.decode_word(w).unwrap(), RegisterValue::U16(w));
    }
}

#[test]
fn i16_round_trips_through_decode() {
    for v in i16::MIN..=i16::MAX {
        assert_eq!(RegisterValueType::I16.decode_word(v as u16).unwrap(), RegisterValue::I16(v));
    }
}

#[test]
fn temperature_round_trips_through_decode() {
    for v in -3276_i16..=3276_i16 {
        match RegisterValueType::TemperatureX10.decode_word(v as u16).unwrap() {
            RegisterValue::Temperature(t) => {
                let f = f32::from(t) / 10.0;
                assert_eq!((f * 10.0).round() as i16, v);
            }
            other => panic!("expected Temperature, got {other:?}"),
        }
    }
}

#[test]
fn values_are_displayed() {
    assert_eq!(RegisterValue::U16(65535).to_string(), "65535");
    assert_eq!(RegisterValue::I16(-32768).to_string(), "-32768");
    assert_eq!(RegisterValue::Bool(true).to_string(), "on");
    assert_eq!(RegisterValue::Bool(false).to_string(), "off");
    assert_eq!(RegisterValue::Percent(7).to_string(), "7");
    for t in i16::MIN..=i16::MAX {
        let f = f32::from(t) / 10.0;
        assert_eq!(RegisterValue::Temperature(t).to_string(), format!("{f:.1}"));
    }
}

#[test]
fn displayed_words_parse_back() {
    for w in 0..=u16::MAX {
        for ty in [
            RegisterValueType::U16,
            RegisterValueType::I16,
            RegisterValueType::TemperatureX10,
        ] {
            let shown = ty.decode_word(w).unwrap().to_string();
            assert_eq!(ty.parse_word(&shown), Ok(w));
        }
    }
    for w in 0..=100 {
        let shown = RegisterValueType::Percent.decode_word(w).unwrap().to_string();
        assert_eq!(RegisterValueType::Percent.parse_word(&shown), Ok(w));
    }
    for w in [0u16, 1, 2, 3, 0xFFFE, 0x1235] {
        let shown = RegisterValueType::Mode.decode_word(w).unwrap().to_string();
        assert_eq!(RegisterValueType::Mode.parse_word(&shown), Ok(w & ModeSelection::BIT_MASK));
    }
    for bit in [true, false] {
        let shown = RegisterValue::Bool(bit).to_string();
        assert_eq!(RegisterValueType::Bool.parse_bit(&shown), Ok(bit));
    }
}

#[test]
fn mode_labels_parse_back() {
    for mode in [
        ModeSelection::Ventilation,
        ModeSelection::Heating,
        ModeSelection::Cooling,
        ModeSelection::Auto,
    ] {
        assert_eq!(ModeSelection::parse(mode.label()), Ok(mode));
        assert_eq!(ModeSelection::from_word(mode.to_bits()), mode);
    }
}

#[test]
fn snapshots_are_searched_by_name() {
    let entry = |name: &str, v: u16| SnapshotEntry {
        name: name.into(),
        value: RegisterValue::U16(v),
        unit: None,
    };
    let snapshot = Snapshot { entries: vec![entry("a", 1), entry("b", 2), entry("a", 3)] };
    assert_eq!(snapshot.first("a").unwrap().value, RegisterValue::U16(1));
    assert_eq!(snapshot.last("a").unwrap().value, RegisterValue::U16(3));
    assert!(snapshot.first("c").is_none());
    assert!(snapshot.last("c").is_none());
    assert_eq!(Snapshot::default(), Snapshot::new());
}

#[test]
fn percentages_above_100_are_odd() {
    assert_eq!(RegisterValue::Percent(101).odd_percentage(), Some(101));
    assert_eq!(RegisterValue::Percent(100).odd_percentage(), None);
    assert_eq!(RegisterValue::U16(101).odd_percentage(), None);
}
