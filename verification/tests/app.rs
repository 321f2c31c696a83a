use gtc_control::app::{
    decode_bit, decode_word, merge_mode, plan_write, poll_once, read_one, set_value, AppError,
    WritePlan,
};
use gtc_control::domain::{
    ModeSelection, RegisterDef, RegisterKind, RegisterValue, RegisterValueType,
    ValueConversionError,
};
use gtc_control::modbus::{Bus, FakeModbusClient};

fn temp_def(name: &str, address: u16) -> RegisterDef {
    RegisterDef {
        name: name.into(),
        kind: RegisterKind::Input,
        address,
        value_type: RegisterValueType::TemperatureX10,
        writable: false,
        unit: Some("°C".into()),
        group: Some("Temperatures".into()),
        display_name: None,
    }
}

fn power_def(name: &str, address: u16) -> RegisterDef {
    RegisterDef {
        name: name.into(),
        kind: RegisterKind::Coil,
        address,
        value_type: RegisterValueType::Bool,
        writable: true,
        unit: None,
        group: Some("State".into()),
        display_name: None,
    }
}

fn mode_def() -> RegisterDef {
    RegisterDef {
        name: "mode_system".into(),
        kind: RegisterKind::Holding,
        address: 86,
        value_type: RegisterValueType::Mode,
        writable: true,
        unit: None,
        group: Some("Controls".into()),
        display_name: None,
    }
}

fn fan_def(name: &str) -> RegisterDef {
    RegisterDef {
        name: name.into(),
        kind: RegisterKind::Holding,
        address: 3,
        value_type: RegisterValueType::U16,
        writable: true,
        unit: None,
        group: Some("Fans".into()),
        display_name: None,
    }
}

#[test]
fn poll_once_decodes_seeded_values() {
    let mut client = FakeModbusClient::new();
    client.input.insert(0, 215);
    client.coils.insert(1, true);

    let registers = vec![temp_def("supply", 0), power_def("power", 1)];
    let mut bus = Bus::new(client);
    let snap = poll_once(&mut bus, &registers).unwrap();

    assert_eq!(snap.entries.len(), 2);
    assert_eq!(snap.entries[0].name, "supply");
    assert_eq!(snap.entries[1].name, "power");
    match snap.entries[0].value {
        RegisterValue::Temperature(t) => assert!((f32::from(t) / 10.0 - 21.5).abs() < 1e-6),
        other => panic!("expected Temperature, got {other:?}"),
    }
    assert_eq!(snap.entries[1].value, RegisterValue::Bool(true));
}

#[test]
fn poll_once_preserves_unit_metadata() {
    let mut client = FakeModbusClient::new();
    client.input.insert(0, 100);
    let registers = vec![temp_def("supply", 0)];
    let mut bus = Bus::new(client);
    let snap = poll_once(&mut bus, &registers).unwrap();
    assert_eq!(snap.entries[0].unit.as_deref(), Some("°C"));
}

#[test]
fn poll_once_strips_white_space_in_front_of_the_unit() {
    let client = FakeModbusClient::new();
    let mut def = temp_def("supply", 0);
    def.unit = Some("  °C ".into());
    let mut bus = Bus::new(client);
    let snap = poll_once(&mut bus, &[def]).unwrap();
    assert_eq!(snap.entries[0].unit.as_deref(), Some("°C "));
}

#[test]
fn poll_once_stops_at_the_first_error() {
    let client = FakeModbusClient::new();
    let mut bad = temp_def("bad", 1);
    bad.value_type = RegisterValueType::Bool;
    let mut bus = Bus::new(client);
    let err = poll_once(&mut bus, &[temp_def("a", 0), bad, temp_def("b", 2)]).unwrap_err();
    assert_eq!(
        err,
        AppError::Decode {
            name: "bad".into(),
            source: ValueConversionError::BitTypeNotConvertible
        }
    );
    assert_eq!(
        err.to_string(),
        "register `bad`: value decode failed: bit-valued type cannot decode from a 16-bit word"
    );
}

#[test]
fn read_one_returns_matching_entry() {
    let mut client = FakeModbusClient::new();
    client.input.insert(7, 215);
    client.coils.insert(2, true);
    let registers = vec![temp_def("supply_temp", 7), power_def("power", 2)];

    let mut bus = Bus::new(client);
    let entry = read_one(&mut bus, &registers, "supply_temp").unwrap();
    assert_eq!(entry.name, "supply_temp");
    match entry.value {
        RegisterValue::Temperature(t) => assert!((f32::from(t) / 10.0 - 21.5).abs() < 1e-6),
        other => panic!("expected Temperature, got {other:?}"),
    }
    assert_eq!(entry.unit.as_deref(), Some("°C"));
}

#[test]
fn read_one_unknown_register() {
    let client = FakeModbusClient::new();
    let registers = vec![temp_def("supply", 0)];
    let mut bus = Bus::new(client);
    let err = read_one(&mut bus, &registers, "ghost").unwrap_err();
    assert!(matches!(err, AppError::UnknownRegister { ref name } if name == "ghost"));
    assert_eq!(err.to_string(), "unknown register `ghost`");
}

#[test]
fn read_one_modbus_error_propagates() {
    let mut client = FakeModbusClient::new();
    let registers = vec![power_def("power", 5)];
    client.coils.insert(5, false);
    let mut bus = Bus::new(client);
    let entry = read_one(&mut bus, &registers, "power").unwrap();
    assert_eq!(entry.value, RegisterValue::Bool(false));
}

#[test]
fn an_empty_reply_does_not_decode() {
    let empty = |name: &str| AppError::Decode {
        name: name.into(),
        source: ValueConversionError::Parse("empty read response".into()),
    };
    assert_eq!(decode_word(&temp_def("t", 0), &[]), Err(empty("t")));
    assert_eq!(decode_bit(&power_def("p", 0), &[]), Err(empty("p")));
    assert_eq!(decode_bit(&power_def("p", 0), &[true, false]), Ok(RegisterValue::Bool(true)));
    assert_eq!(decode_word(&temp_def("t", 0), &[5, 6]), Ok(RegisterValue::Temperature(5)));
}

#[test]
fn a_bit_of_a_word_type_does_not_decode() {
    let mut def = power_def("p", 0);
    def.value_type = RegisterValueType::U16;
    assert_eq!(
        decode_bit(&def, &[true]),
        Err(AppError::Decode {
            name: "p".into(),
            source: ValueConversionError::WordTypeNotConvertible
        })
    );
}

#[test]
fn set_value_unknown_register() {
    let client = FakeModbusClient::new();
    let mut bus = Bus::new(client);
    let err = set_value(&mut bus, &[], "missing", "1").unwrap_err();
    assert!(matches!(err, AppError::UnknownRegister { .. }));
}

#[test]
fn set_value_not_writable() {
    let client = FakeModbusClient::new();
    let registers = vec![temp_def("supply", 0)];
    let mut bus = Bus::new(client);
    let err = set_value(&mut bus, &registers, "supply", "20").unwrap_err();
    assert!(matches!(err, AppError::NotWritable { .. }));
    assert_eq!(err.to_string(), "register `supply` is not writable");
}

#[test]
fn set_value_refuses_a_writable_flag_on_a_read_only_kind() {
    let client = FakeModbusClient::new();
    let mut def = temp_def("supply", 0);
    def.writable = true;
    let mut bus = Bus::new(client);
    let err = set_value(&mut bus, &[def], "supply", "20").unwrap_err();
    assert_eq!(err, AppError::NotWritable { name: "supply".into() });
}

#[test]
fn set_value_writes_coil() {
    let client = FakeModbusClient::new();
    let registers = vec![power_def("power", 7)];
    let mut bus = Bus::new(client);
    set_value(&mut bus, &registers, "power", "on").unwrap();
    assert_eq!(bus.client().coils.get(&7).copied(), Some(true));
}

#[test]
fn set_value_writes_holding_percent() {
    let client = FakeModbusClient::new();
    let registers = vec![RegisterDef {
        name: "fan".into(),
        kind: RegisterKind::Holding,
        address: 3,
        value_type: RegisterValueType::Percent,
        writable: true,
        unit: Some("%".into()),
        group: Some("Fans".into()),
        display_name: None,
    }];
    let mut bus = Bus::new(client);
    set_value(&mut bus, &registers, "fan", "60").unwrap();
    assert_eq!(bus.client().holding.get(&3).copied(), Some(60));
}

#[test]
fn set_value_reports_what_does_not_parse() {
    let client = FakeModbusClient::new();
    let mut bus = Bus::new(client);
    let err = set_value(&mut bus, &[power_def("power", 7)], "power", "maybe").unwrap_err();
    assert_eq!(
        err.to_string(),
        "register `power`: could not parse value: could not parse value: expected \
         true/false/on/off/1/0, got `maybe`"
    );
    assert!(bus.client().coils.is_empty());
}

#[test]
fn set_value_mode_preserves_surrounding_bits() {
    let mut client = FakeModbusClient::new();
    let preserved = 0b1011_1100_0000_1001;
    client.holding.insert(86, preserved);

    let mut bus = Bus::new(client);
    set_value(&mut bus, &[mode_def()], "mode_system", "cooling").unwrap();

    let written = bus.client().holding.get(&86).copied().unwrap();
    assert_eq!(written, (preserved & !0b11) | 0b10);
}

#[test]
fn set_value_mode_accepts_auto_alias() {
    let mut client = FakeModbusClient::new();
    client.holding.insert(86, 0);
    let mut bus = Bus::new(client);
    set_value(&mut bus, &[mode_def()], "mode_system", "auto").unwrap();
    assert_eq!(bus.client().holding.get(&86).copied(), Some(0b11));
}

#[test]
fn set_value_mode_rejects_unknown_label() {
    let client = FakeModbusClient::new();
    let mut bus = Bus::new(client);
    let err = set_value(&mut bus, &[mode_def()], "mode_system", "warm").unwrap_err();
    assert!(matches!(err, AppError::Parse { .. }));
}

#[test]
fn set_value_mode_does_not_write_what_is_already_there() {
    let mut client = FakeModbusClient::new();
    // Nothing is stored at the address, which reads as 0: Ventilation.
    let mut bus = Bus::new(client);
    set_value(&mut bus, &[mode_def()], "mode_system", "ventilation").unwrap();
    assert!(bus.client().holding.is_empty());
    let mut client = FakeModbusClient::new();
    client.holding.insert(86, 0xFFF1);
    let mut bus = Bus::new(client);
    set_value(&mut bus, &[mode_def()], "mode_system", "heat").unwrap();
    assert_eq!(bus.client().holding.get(&86).copied(), Some(0xFFF1));
}

#[test]
fn merging_a_mode_keeps_the_other_bits() {
    assert_eq!(merge_mode(&[0b1011_1100_0000_1001], 2), Some(0b1011_1100_0000_1010));
    assert_eq!(merge_mode(&[0xFFFF], 3), None);
    assert_eq!(merge_mode(&[], 0), Some(0));
    assert_eq!(merge_mode(&[], 3), Some(3));
}

#[test]
fn set_value_refuses_zero_supply_fan() {
    for (name, raw) in [
        ("fan_speed_supply", "0"),
        ("fan_speed_exhaust", "0"),
        ("fan_speed_supply", " +00 "),
    ] {
        let mut client = FakeModbusClient::new();
        client.holding.insert(3, 5);
        let mut bus = Bus::new(client);
        let err = set_value(&mut bus, &[fan_def(name)], name, raw).unwrap_err();
        assert!(matches!(err, AppError::Refused { .. }));
        assert_eq!(bus.client().holding.get(&3).copied(), Some(5));
        assert_eq!(
            err.to_string(),
            format!(
                "register `{name}`: write refused: a fan setpoint of 0 burns out the heat exchanger"
            )
        );
    }
    let mut client = FakeModbusClient::new();
    let mut bus = Bus::new(client);
    set_value(&mut bus, &[fan_def("fan_speed_supply")], "fan_speed_supply", "1").unwrap();
    assert_eq!(bus.client().holding.get(&3).copied(), Some(1));
    let other = FakeModbusClient::new();
    let mut bus = Bus::new(other);
    set_value(&mut bus, &[fan_def("other")], "other", "0").unwrap();
    assert_eq!(bus.client().holding.get(&3).copied(), Some(0));
}

#[test]
fn a_fan_is_not_stopped_through_another_value_type() {
    let mut coil = power_def("fan_speed_exhaust", 3);
    assert!(matches!(
        plan_write(&[coil.clone()], "fan_speed_exhaust", "off"),
        Err(AppError::Refused { .. })
    ));
    assert_eq!(
        plan_write(&[coil.clone()], "fan_speed_exhaust", "on"),
        Ok(WritePlan::Bit { address: 3, bit: true })
    );
    coil.kind = RegisterKind::Holding;
    coil.value_type = RegisterValueType::TemperatureX10;
    assert!(matches!(
        plan_write(&[coil.clone()], "fan_speed_exhaust", "0.04"),
        Err(AppError::Refused { .. })
    ));
    assert_eq!(
        plan_write(&[coil], "fan_speed_exhaust", "0.06"),
        Ok(WritePlan::Word { address: 3, word: 1 })
    );
    assert_eq!(
        plan_write(&[mode_def()], "mode_system", "climate"),
        Ok(WritePlan::Mode { address: 86, bits: 3 })
    );
}

#[test]
fn poll_once_decodes_mode_register() {
    let mut client = FakeModbusClient::new();
    // bit 0 + bit 1 = 3 (auto), plus an unrelated flag at bit 9.
    client.holding.insert(86, 0b0000_0010_0000_0011);
    let mut bus = Bus::new(client);
    let snap = poll_once(&mut bus, &[mode_def()]).unwrap();
    assert_eq!(snap.entries.len(), 1);
    assert_eq!(snap.entries[0].value, RegisterValue::Mode(ModeSelection::Auto));
}

#[test]
fn bus_errors_carry_through() {
    let error = AppError::Modbus(gtc_control::modbus::ModbusError::Timeout { millis: 7 });
    assert_eq!(error.to_string(), "modbus error: modbus operation timed out after 7 ms");
}

#[test]
fn set_value_stores_a_temperature_and_nothing_else() {
    let def = RegisterDef {
        name: "temp_setpoint".into(),
        kind: RegisterKind::Holding,
        address: 31,
        value_type: RegisterValueType::TemperatureX10,
        writable: true,
        unit: Some("°C".into()),
        group: None,
        display_name: None,
    };
    let mut bus = Bus::new(FakeModbusClient::new());
    set_value(&mut bus, &[def], "temp_setpoint", "23.0").unwrap();
    assert_eq!(bus.client().holding.len(), 1);
    assert_eq!(bus.client().holding.get(&31).copied(), Some(230));
    assert!(bus.client().input.is_empty());
    assert!(bus.client().coils.is_empty());
    assert!(bus.client().discrete.is_empty());
}

#[test]
fn what_was_set_is_read_back() {
    let mut client = FakeModbusClient::new();
    client.holding.insert(86, 0xABC1);
    let registers = vec![mode_def(), power_def("power", 7), fan_def("fan_speed_supply")];
    let mut bus = Bus::new(client);
    for (name, raw, value) in [
        ("mode_system", "cooling", RegisterValue::Mode(ModeSelection::Cooling)),
        ("power", "on", RegisterValue::Bool(true)),
        ("fan_speed_supply", " 7 ", RegisterValue::U16(7)),
        ("power", "0", RegisterValue::Bool(false)),
    ] {
        set_value(&mut bus, &registers, name, raw).unwrap();
        assert_eq!(read_one(&mut bus, &registers, name).unwrap().value, value);
    }
    assert_eq!(bus.client().holding.get(&86).copied(), Some(0xABC2));
}

#[test]
fn reading_one_register_gives_what_a_poll_gave() {
    let mut client = FakeModbusClient::new();
    client.input.insert(7, 215);
    client.coils.insert(2, true);
    client.holding.insert(86, 0xFFF2);
    let registers = vec![temp_def("supply_temp", 7), power_def("power", 2), mode_def()];
    let mut bus = Bus::new(client);
    let snap = poll_once(&mut bus, &registers).unwrap();
    for (def, entry) in registers.iter().zip(&snap.entries) {
        assert_eq!(&read_one(&mut bus, &registers, &def.name).unwrap(), entry);
    }
    assert_eq!(bus.client().input.get(&7).copied(), Some(215));
    assert_eq!(bus.client().coils.get(&2).copied(), Some(true));
    assert_eq!(bus.client().holding.get(&86).copied(), Some(0xFFF2));
    assert!(bus.client().discrete.is_empty());
}

#[test]
fn the_bus_hands_every_request_to_the_client() {
    let mut client = FakeModbusClient::new();
    client.input.insert(4, 9);
    client.discrete.insert(5, true);
    let mut bus = Bus::new(client);
    assert_eq!(bus.write_holding(31, 230), Ok(()));
    assert_eq!(bus.write_coil(1, true), Ok(()));
    assert_eq!(bus.read_holding(31, 2), Ok(vec![230, 0]));
    assert_eq!(bus.read_input(4, 1), Ok(vec![9]));
    assert_eq!(bus.read_coils(0, 2), Ok(vec![false, true]));
    assert_eq!(bus.read_discrete(5, 1), Ok(vec![true]));
}
