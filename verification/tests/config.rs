use gtc_control::config::{
    load_or_init, user_file_text, validate_registers, BundledConfig, Config, ConfigError, FlagMap,
    ModbusConfig, ModeVisibility, PollConfig, UiConfig, UserConfig, USER_CONFIG_HEADER,
};
use gtc_control::domain::{RegisterDef, RegisterDefError, RegisterKind, RegisterValueType};

fn endpoint(host: &str) -> ModbusConfig {
    ModbusConfig { host: host.into(), port: 502, unit_id: 1, timeout_ms: 1000 }
}

fn coil(name: &str, address: u16) -> RegisterDef {
    RegisterDef {
        name: name.into(),
        kind: RegisterKind::Coil,
        address,
        value_type: RegisterValueType::Bool,
        writable: true,
        unit: None,
        group: None,
        display_name: None,
    }
}

fn bundled(registers: Vec<RegisterDef>) -> BundledConfig {
    BundledConfig {
        modbus: endpoint("default"),
        poll: PollConfig { interval_seconds: 5 },
        ui: UiConfig::default(),
        registers,
    }
}

#[test]
fn temperature_visible_defaults_to_true_for_unlisted() {
    let cfg = Config {
        modbus: endpoint("x"),
        poll: PollConfig { interval_seconds: 5 },
        ui: UiConfig {
            temperatures: FlagMap::from_entries(vec![("supply_air_temp".to_owned(), false)]),
            modes: ModeVisibility::default(),
            exhaust_fan: true,
        },
        registers: Vec::new(),
    };
    assert!(!cfg.temperature_visible("supply_air_temp"));
    assert!(cfg.temperature_visible("outdoor_temp"));
    assert!(cfg.temperature_visible("future_sensor_added_later"));
}

#[test]
fn duplicate_register_name_is_rejected() {
    let registers = vec![coil("power", 0), coil("power", 1)];
    let err = validate_registers(&registers).unwrap_err();
    assert!(matches!(err, ConfigError::DuplicateRegisterName { .. }));
    assert_eq!(err.to_string(), "duplicate register name `power` in bundled config");
}

#[test]
fn invalid_register_propagates() {
    let registers = vec![RegisterDef {
        name: "bad".into(),
        kind: RegisterKind::Input,
        address: 0,
        value_type: RegisterValueType::I16,
        writable: true,
        unit: None,
        group: None,
        display_name: None,
    }];
    let err = validate_registers(&registers).unwrap_err();
    assert!(matches!(err, ConfigError::InvalidRegister { .. }));
    assert_eq!(
        err.to_string(),
        "invalid register definition: register `bad`: kind `Input` is read-only and cannot be \
         `writable: true`"
    );
}

#[test]
fn the_first_faulty_register_is_reported() {
    let mut bad = coil("power", 2);
    bad.value_type = RegisterValueType::U16;
    // The third register is both inconsistent and a duplicate.
    let err = validate_registers(&[coil("power", 0), coil("a", 1), bad, coil("a", 3)]).unwrap_err();
    assert_eq!(
        err,
        ConfigError::InvalidRegister {
            source: RegisterDefError::ValueTypeKindMismatch {
                name: "power".into(),
                kind: RegisterKind::Coil,
                value_type: RegisterValueType::U16
            }
        }
    );
    assert!(validate_registers(&[coil("a", 0), coil("b", 0), coil("c", 0)]).is_ok());
    assert!(validate_registers(&[]).is_ok());
}

#[test]
fn registers_are_looked_up_by_name() {
    let loaded = load_or_init(bundled(vec![coil("a", 1), coil("b", 2)]), None).unwrap();
    assert_eq!(loaded.config.register("b").unwrap().address, 2);
    assert!(loaded.config.register("B").is_none());
}

#[test]
fn the_first_launch_uses_and_writes_the_defaults() {
    let loaded = load_or_init(bundled(vec![coil("a", 1)]), None).unwrap();
    assert_eq!(loaded.config.modbus.host, "default");
    let first = loaded.first_file.unwrap();
    assert_eq!(first.modbus.host, "default");
    assert_eq!(first.poll.interval_seconds, 5);
}

#[test]
fn a_stored_file_wins_over_the_defaults() {
    let stored = UserConfig {
        modbus: endpoint("mine"),
        poll: PollConfig { interval_seconds: 9 },
        ui: UiConfig {
            temperatures: FlagMap::new(),
            modes: ModeVisibility { heating: false, cooling: true, climate: true },
            exhaust_fan: false,
        },
    };
    let loaded = load_or_init(bundled(vec![coil("a", 1)]), Some(stored)).unwrap();
    assert!(loaded.first_file.is_none());
    assert_eq!(loaded.config.modbus.host, "mine");
    assert_eq!(loaded.config.poll.interval_seconds, 9);
    assert!(!loaded.config.ui.exhaust_fan);
    assert!(!loaded.config.ui.modes.heating);
    assert_eq!(loaded.config.registers.len(), 1);
}

#[test]
fn saved_settings_are_loaded_again() {
    let mut config = load_or_init(bundled(vec![coil("a", 1)]), None).unwrap().config;
    config.modbus.host = "10.0.0.5".into();
    config.ui.temperatures.insert("outdoor_temp".into(), false);
    let again = load_or_init(bundled(vec![coil("a", 1)]), Some(config.user_part())).unwrap();
    assert_eq!(again.config.modbus.host, "10.0.0.5");
    assert!(!again.config.temperature_visible("outdoor_temp"));
}

#[test]
fn a_faulty_catalogue_does_not_load() {
    let err = load_or_init(bundled(vec![coil("a", 1), coil("a", 2)]), None).unwrap_err();
    assert_eq!(err, ConfigError::DuplicateRegisterName { name: "a".into() });
}

#[test]
fn flags_are_kept_by_name() {
    let mut flags = FlagMap::from_entries(vec![
        ("a".to_owned(), true),
        ("b".to_owned(), false),
        ("a".to_owned(), false),
    ]);
    assert_eq!(flags.get("a"), Some(false));
    assert_eq!(flags.get("b"), Some(false));
    assert_eq!(flags.get("c"), None);
    flags.insert("b".into(), true);
    flags.insert("c".into(), true);
    assert_eq!(flags.to_entries().len(), 3);
    assert_eq!(flags.clone().get("b"), Some(true));
    assert!(!flags.is_empty());
    assert!(FlagMap::new().is_empty());
}

#[test]
fn defaults_show_everything() {
    let ui = UiConfig::default();
    assert!(ui.exhaust_fan);
    assert!(ui.modes.heating && ui.modes.cooling && ui.modes.climate);
    assert!(ui.temperatures.is_empty());
    assert!(ui.temperature_visible("anything"));
    assert_eq!(ui.clone().modes, ModeVisibility::default());
}

#[test]
fn the_user_file_starts_with_the_header() {
    let text = user_file_text("modbus:\n");
    assert!(text.starts_with("# GTC_Control — user settings.\n#\n# Rewritten by"));
    assert_eq!(text, format!("{USER_CONFIG_HEADER}modbus:\n"));
    assert!(USER_CONFIG_HEADER.ends_with("user-tunable.\n\n"));
}

#[test]
fn endpoints_and_intervals() {
    assert_eq!(endpoint("gtc.local").endpoint(), "gtc.local:502");
    assert_eq!(PollConfig { interval_seconds: 0 }.effective_seconds(), 1);
    assert_eq!(PollConfig { interval_seconds: 7 }.effective_seconds(), 7);
}

#[test]
fn config_errors_are_put_into_words() {
    let cases: Vec<(ConfigError, &str)> = vec![
        (ConfigError::NoHome, "could not determine the user's home directory"),
        (
            ConfigError::Io { path: "/x".into(), source: "denied".into() },
            "filesystem error at /x: denied",
        ),
        (ConfigError::BundledParse("bad".into()), "invalid bundled config YAML: bad"),
        (
            ConfigError::UserParse { path: "/x".into(), source: "bad".into() },
            "invalid YAML in /x: bad",
        ),
        (
            ConfigError::Serialize { path: "/x".into(), source: "bad".into() },
            "failed to serialise user config for /x: bad",
        ),
    ];
    for (error, words) in cases {
        assert_eq!(error.to_string(), words);
    }
}

#[test]
fn a_cloned_config_is_the_same() {
    let mut power = coil("power", 3);
    power.unit = Some("x".into());
    power.display_name = Some("Power".into());
    let cfg = Config {
        modbus: endpoint("unit.local"),
        poll: PollConfig { interval_seconds: 7 },
        ui: UiConfig {
            temperatures: FlagMap::from_entries(vec![("room".to_owned(), false)]),
            modes: ModeVisibility { heating: false, cooling: true, climate: true },
            exhaust_fan: false,
        },
        registers: vec![power],
    };
    let copy = cfg.clone();
    assert_eq!(copy.modbus.host, "unit.local");
    assert_eq!(copy.poll.interval_seconds, 7);
    assert!(!copy.temperature_visible("room"));
    assert_eq!(copy.ui.modes, cfg.ui.modes);
    assert!(!copy.ui.exhaust_fan);
    assert_eq!(copy.registers, cfg.registers);
}
