use gtc_control::app::AppError;
use gtc_control::config::{
    load_or_init, BundledConfig, Config, ConfigError, FlagMap, ModbusConfig, ModeVisibility,
    PollConfig, UiConfig,
};
use gtc_control::domain::{
    ModeSelection, RegisterDef, RegisterKind, RegisterValue, RegisterValueType, Snapshot,
    SnapshotEntry,
};
use gtc_control::modbus::{Bus, FakeModbusClient, ModbusClient, ModbusError};
use gtc_control::tui::actor::{
    next_action, poll_update, run_write, short_error, ActorAction, ActorCommand, ActorEvent,
    PollUpdate, WriteResult,
};
use gtc_control::tui::control::{
    active_controls, apply_step, format_for, mode_picker_options, mode_ui_label,
    next_mode_in_cycle, validate_buffer, ControlId, EditBuffer, PARTS,
};
use gtc_control::tui::keys::{Key, KeyCode};
use gtc_control::tui::settings::{
    commit_settings_edit, start_settings_edit, toggle_settings_item, SettingsEditBuffer,
    SettingsItem, SettingsState,
};
use gtc_control::tui::settings_view;
use gtc_control::tui::state::{
    handle_key, handle_write_result, settings_saved, write_not_sent, Action, ToastKind, UiMode,
    UiState,
};
use gtc_control::tui::style::{Color, Line, Style};
use gtc_control::tui::view::{
    body_lines, data_entry_visible, data_line, footer_lines, header_lines, mode_color,
};

fn def_writable(name: &str) -> RegisterDef {
    RegisterDef {
        name: name.into(),
        kind: RegisterKind::Holding,
        address: 0,
        value_type: RegisterValueType::U16,
        writable: true,
        unit: None,
        group: None,
        display_name: None,
    }
}

fn sensor(name: &str, display_name: Option<&str>) -> RegisterDef {
    RegisterDef {
        name: name.into(),
        kind: RegisterKind::Input,
        address: 0,
        value_type: RegisterValueType::TemperatureX10,
        writable: false,
        unit: Some("°C".into()),
        group: Some("Temperatures".into()),
        display_name: display_name.map(str::to_owned),
    }
}

fn fan_current(name: &str) -> RegisterDef {
    RegisterDef {
        name: name.into(),
        kind: RegisterKind::Input,
        address: 0,
        value_type: RegisterValueType::U16,
        writable: false,
        unit: None,
        group: Some("Fans".into()),
        display_name: None,
    }
}

fn all_visible_ui() -> UiConfig {
    UiConfig {
        temperatures: FlagMap::new(),
        modes: ModeVisibility::default(),
        exhaust_fan: true,
    }
}

fn config() -> Config {
    let mut power = def_writable("power");
    power.kind = RegisterKind::Coil;
    power.value_type = RegisterValueType::Bool;
    power.group = Some("Controls".into());
    let bundled = BundledConfig {
        modbus: ModbusConfig { host: "gtc".into(), port: 502, unit_id: 1, timeout_ms: 1500 },
        poll: PollConfig { interval_seconds: 5 },
        ui: all_visible_ui(),
        registers: vec![
            power,
            def_writable("mode_system"),
            def_writable("temp_setpoint"),
            def_writable("fan_speed_supply"),
            def_writable("fan_speed_exhaust"),
            sensor("supply_air_temp", Some("Supply air")),
            sensor("outdoor_temp", None),
            fan_current("fan_speed_supply_current"),
            fan_current("fan_speed_exhaust_current"),
        ],
    };
    load_or_init(bundled, None).unwrap().config
}

fn entry(name: &str, value: RegisterValue) -> SnapshotEntry {
    SnapshotEntry { name: name.into(), value, unit: None }
}

fn snapshot() -> Snapshot {
    Snapshot {
        entries: vec![
            entry("firmware_version", RegisterValue::U16(0x5100)),
            entry("state_word_0", RegisterValue::U16(449)),
            entry("state_word_1", RegisterValue::U16(3)),
            entry("error_code", RegisterValue::U16(0)),
            entry("error_code_aux", RegisterValue::U16(16 | 32)),
            entry("temp_setpoint", RegisterValue::Temperature(225)),
            entry("mode_system", RegisterValue::Mode(ModeSelection::Auto)),
            entry("power", RegisterValue::Bool(true)),
            SnapshotEntry {
                name: "supply_air_temp".into(),
                value: RegisterValue::Temperature(-5),
                unit: Some("°C".into()),
            },
            entry("fan_speed_supply_current", RegisterValue::U16(4)),
            entry("outdoor_temp", RegisterValue::Temperature(90)),
            entry("fan_speed_supply", RegisterValue::U16(6)),
            entry("fan_speed_exhaust_current", RegisterValue::U16(3)),
            entry("fan_speed_exhaust", RegisterValue::U16(5)),
            entry("mystery", RegisterValue::U16(1)),
        ],
    }
}

const SECOND: u64 = 1_000_000_000;

fn polled() -> UiState {
    let mut state = UiState::new(config(), 5);
    state.set_update(PollUpdate::Polled { snapshot: snapshot(), polled_at: 10 * SECOND });
    state
}

fn key(code: KeyCode) -> Key {
    Key { code, control: false, press: true }
}

fn press(state: &mut UiState, code: KeyCode) -> Action {
    handle_key(state, &key(code), 20 * SECOND)
}

fn plain(line: &Line) -> String {
    line.spans.iter().map(|s| s.text.as_str()).collect()
}

fn texts(lines: &[Line]) -> Vec<String> {
    lines.iter().map(plain).collect()
}

fn body(state: &UiState) -> Vec<String> {
    texts(&body_lines(state, state.current_view().as_ref()))
}

fn sent(action: Action) -> (ControlId, String, String) {
    match action {
        Action::Send(ActorCommand::Write { control, register, value }) => (control, register, value),
        other => panic!("expected a write, got {other:?}"),
    }
}

#[test]
fn active_controls_includes_only_present_registers() {
    let regs = vec![def_writable("power"), def_writable("temp_setpoint")];
    let controls = active_controls(&regs, &all_visible_ui());
    assert_eq!(controls, vec![ControlId::Power, ControlId::Setpoint]);
}

#[test]
fn active_controls_orders_mode_between_power_and_setpoint() {
    let regs = vec![
        def_writable("temp_setpoint"),
        def_writable("mode_system"),
        def_writable("power"),
    ];
    let controls = active_controls(&regs, &all_visible_ui());
    assert_eq!(controls, vec![ControlId::Power, ControlId::Mode, ControlId::Setpoint]);
}

#[test]
fn active_controls_hides_exhaust_fan_when_disabled() {
    let regs = vec![
        def_writable("power"),
        def_writable("fan_speed_supply"),
        def_writable("fan_speed_exhaust"),
    ];
    let mut ui = all_visible_ui();
    ui.exhaust_fan = false;
    let controls = active_controls(&regs, &ui);
    assert_eq!(controls, vec![ControlId::Power, ControlId::SupplyFan]);
}

#[test]
fn mode_cycle_skips_disabled_options() {
    let vis_all = ModeVisibility::default();
    assert_eq!(next_mode_in_cycle(ModeSelection::Ventilation, vis_all), ModeSelection::Heating);
    assert_eq!(next_mode_in_cycle(ModeSelection::Auto, vis_all), ModeSelection::Ventilation);

    let only_climate = ModeVisibility { heating: false, cooling: false, climate: true };
    // Ventilation → (heating, cooling hidden) → Climate
    assert_eq!(next_mode_in_cycle(ModeSelection::Ventilation, only_climate), ModeSelection::Auto);
    assert_eq!(next_mode_in_cycle(ModeSelection::Auto, only_climate), ModeSelection::Ventilation);

    let only_vent = ModeVisibility { heating: false, cooling: false, climate: false };
    assert_eq!(
        next_mode_in_cycle(ModeSelection::Ventilation, only_vent),
        ModeSelection::Ventilation,
    );
}

#[test]
fn mode_cycle_visits_every_enabled_mode() {
    for bits in 0..8u8 {
        let vis = ModeVisibility {
            heating: bits & 1 != 0,
            cooling: bits & 2 != 0,
            climate: bits & 4 != 0,
        };
        let options = mode_picker_options(vis);
        let mut mode = ModeSelection::Ventilation;
        for expected in &options {
            assert_eq!(mode, *expected);
            mode = next_mode_in_cycle(mode, vis);
        }
        assert_eq!(mode, ModeSelection::Ventilation);
    }
}

#[test]
fn mode_ui_labels_mirror_mobile_app() {
    assert_eq!(mode_ui_label(ModeSelection::Ventilation), "Ventilation");
    assert_eq!(mode_ui_label(ModeSelection::Heating), "Heating");
    assert_eq!(mode_ui_label(ModeSelection::Cooling), "Cooling");
    assert_eq!(mode_ui_label(ModeSelection::Auto), "Climate");
}

#[test]
fn mode_colors_tell_the_modes_apart() {
    assert_eq!(mode_color(ModeSelection::Ventilation), Color::Blue);
    assert_eq!(mode_color(ModeSelection::Heating), Color::Yellow);
    assert_eq!(mode_color(ModeSelection::Cooling), Color::Cyan);
    assert_eq!(mode_color(ModeSelection::Auto), Color::Green);
}

#[test]
fn active_controls_skips_non_writable() {
    let mut reg = def_writable("power");
    reg.writable = false;
    let controls = active_controls(&[reg], &all_visible_ui());
    assert!(controls.is_empty());
}

#[test]
fn apply_step_clamps_to_range() {
    let mut buf = EditBuffer { control: ControlId::Setpoint, text: "29.5".into() };
    apply_step(&mut buf, true);
    assert_eq!(buf.text, "30.0");
    apply_step(&mut buf, true);
    assert_eq!(buf.text, "30.0");
}

#[test]
fn apply_step_uses_half_degree_step_for_setpoint() {
    let mut buf = EditBuffer { control: ControlId::Setpoint, text: "22.0".into() };
    apply_step(&mut buf, true);
    assert_eq!(buf.text, "22.5");
}

#[test]
fn apply_step_uses_unit_step_for_fan() {
    let mut buf = EditBuffer { control: ControlId::SupplyFan, text: "5".into() };
    apply_step(&mut buf, true);
    assert_eq!(buf.text, "6");
    apply_step(&mut buf, false);
    assert_eq!(buf.text, "5");
}

#[test]
fn apply_step_leads_to_a_valid_value() {
    for control in [ControlId::Setpoint, ControlId::SupplyFan, ControlId::ExhaustFan] {
        for text in ["", "x", "-3", "0", "7", "99", "inf", "-inf", "14.96", "1e9", "2.5"] {
            for up in [true, false] {
                let mut buf = EditBuffer { control, text: text.into() };
                apply_step(&mut buf, up);
                assert_eq!(validate_buffer(control, &buf.text), Ok(()), "{text} -> {}", buf.text);
            }
        }
    }
}

#[test]
fn validate_buffer_rejects_garbage() {
    assert!(validate_buffer(ControlId::Setpoint, "abc").is_err());
    assert!(validate_buffer(ControlId::SupplyFan, "").is_err());
    assert_eq!(
        validate_buffer(ControlId::Setpoint, " abc "),
        Err("`abc` is not a number".to_owned())
    );
    assert_eq!(validate_buffer(ControlId::SupplyFan, "  "), Err("value is empty".to_owned()));
}

#[test]
fn validate_buffer_rejects_out_of_range() {
    assert!(validate_buffer(ControlId::Setpoint, "12.0").is_err());
    assert!(validate_buffer(ControlId::Setpoint, "31.0").is_err());
    assert!(validate_buffer(ControlId::SupplyFan, "11").is_err());
    assert_eq!(
        validate_buffer(ControlId::Setpoint, "12"),
        Err("must be in 15..=30".to_owned())
    );
}

#[test]
fn validate_buffer_rejects_zero_fan_setpoint() {
    assert!(validate_buffer(ControlId::SupplyFan, "0").is_err());
    assert!(validate_buffer(ControlId::ExhaustFan, "0").is_err());
}

#[test]
fn validate_buffer_accepts_in_range() {
    assert!(validate_buffer(ControlId::Setpoint, "22.5").is_ok());
    assert!(validate_buffer(ControlId::SupplyFan, "1").is_ok());
    assert!(validate_buffer(ControlId::SupplyFan, "10").is_ok());
}

#[test]
fn apply_step_clamps_fan_to_minimum_one() {
    let mut buf = EditBuffer { control: ControlId::SupplyFan, text: "1".into() };
    apply_step(&mut buf, false);
    assert_eq!(buf.text, "1", "stepping down at the minimum must stay at 1");
}

#[test]
fn numbers_are_formatted_with_the_decimals_of_the_control() {
    assert_eq!(format_for(ControlId::Setpoint, PARTS / 2), "0.5");
    assert_eq!(format_for(ControlId::Setpoint, 22 * PARTS + PARTS / 4), "22.2");
    assert_eq!(format_for(ControlId::SupplyFan, 2 * PARTS + PARTS / 2), "2");
    assert_eq!(format_for(ControlId::SupplyFan, 3 * PARTS + PARTS / 2), "4");
}

#[test]
fn accepted_fan_setpoints_are_safe_words() {
    for text in ["0", "1", "+5", "010", "10", "11", "00", "-1", "1.5"] {
        if validate_buffer(ControlId::SupplyFan, text).is_ok() {
            if let Ok(word) = RegisterValueType::U16.parse_word(text) {
                assert!((1..=10).contains(&word));
            }
        }
    }
}

#[test]
fn arrows_move_the_selection_within_the_controls() {
    let mut state = polled();
    assert_eq!(state.selected_control(), Some(ControlId::Power));
    press(&mut state, KeyCode::Up);
    assert_eq!(state.selection, 0);
    for _ in 0..9 {
        press(&mut state, KeyCode::Down);
    }
    assert_eq!(state.selected_control(), Some(ControlId::ExhaustFan));
    press(&mut state, KeyCode::Up);
    assert_eq!(state.selected_control(), Some(ControlId::SupplyFan));
}

#[test]
fn quit_keys_leave_the_main_view_only() {
    for code in [KeyCode::Char('q'), KeyCode::Char('Q'), KeyCode::Esc] {
        assert!(matches!(press(&mut polled(), code), Action::Quit));
    }
    assert!(matches!(press(&mut polled(), KeyCode::Char('c')), Action::Nothing));
    let interrupt = Key { code: KeyCode::Char('c'), control: true, press: true };
    assert!(matches!(handle_key(&mut polled(), &interrupt, 0), Action::Quit));
    let released = Key { code: KeyCode::Esc, control: false, press: false };
    assert!(matches!(handle_key(&mut polled(), &released, 0), Action::Nothing));
    let mut settings = polled();
    press(&mut settings, KeyCode::Char('s'));
    assert!(matches!(press(&mut settings, KeyCode::Char('q')), Action::Nothing));
    assert!(matches!(handle_key(&mut settings, &interrupt, 0), Action::Nothing));
}

#[test]
fn power_is_toggled_from_what_was_read() {
    let mut state = polled();
    let (control, register, value) = sent(press(&mut state, KeyCode::Enter));
    assert_eq!((control, register.as_str(), value.as_str()), (ControlId::Power, "power", "0"));
    assert!(state.pending_for(ControlId::Power).is_some());
    assert!(state.pending_for(ControlId::Mode).is_none());
    let mut unknown = UiState::new(config(), 5);
    let (_, _, value) = sent(press(&mut unknown, KeyCode::Enter));
    assert_eq!(value, "1");
}

#[test]
fn mode_is_cycled_from_what_was_read() {
    let mut state = polled();
    press(&mut state, KeyCode::Down);
    let (control, register, value) = sent(press(&mut state, KeyCode::Enter));
    assert_eq!(
        (control, register.as_str(), value.as_str()),
        (ControlId::Mode, "mode_system", "ventilation")
    );
    let mut unknown = UiState::new(config(), 5);
    press(&mut unknown, KeyCode::Down);
    assert_eq!(sent(press(&mut unknown, KeyCode::Enter)).2, "heating");
}

#[test]
fn a_setpoint_is_edited_and_written() {
    let mut state = polled();
    press(&mut state, KeyCode::Down);
    press(&mut state, KeyCode::Down);
    assert!(matches!(press(&mut state, KeyCode::Enter), Action::Nothing));
    assert_eq!(state.editing(ControlId::Setpoint).unwrap().text, "22.5");
    press(&mut state, KeyCode::Up);
    assert_eq!(state.editing(ControlId::Setpoint).unwrap().text, "23.0");
    press(&mut state, KeyCode::Backspace);
    press(&mut state, KeyCode::Char('4'));
    press(&mut state, KeyCode::Char('x'));
    press(&mut state, KeyCode::Char(' '));
    assert_eq!(state.editing(ControlId::Setpoint).unwrap().text, "23.4");
    let (control, register, value) = sent(press(&mut state, KeyCode::Enter));
    assert_eq!(
        (control, register.as_str(), value.as_str()),
        (ControlId::Setpoint, "temp_setpoint", "23.4")
    );
    assert!(matches!(state.mode, UiMode::Normal));
}

#[test]
fn a_rejected_edit_stays_open_and_tells_why() {
    let mut state = polled();
    for _ in 0..3 {
        press(&mut state, KeyCode::Down);
    }
    press(&mut state, KeyCode::Enter);
    assert_eq!(state.editing(ControlId::SupplyFan).unwrap().text, "6");
    press(&mut state, KeyCode::Backspace);
    press(&mut state, KeyCode::Char('0'));
    assert!(matches!(press(&mut state, KeyCode::Enter), Action::Nothing));
    let toast = state.toast.as_ref().unwrap();
    assert_eq!(toast.text, "must be in 1..=10");
    assert_eq!(toast.kind, ToastKind::Error);
    assert_eq!(toast.shown_at, 20 * SECOND);
    assert!(state.editing(ControlId::SupplyFan).is_some());
    assert!(matches!(press(&mut state, KeyCode::Esc), Action::Nothing));
    assert!(matches!(state.mode, UiMode::Normal));
    assert!(state.pending_write.is_none());
}

#[test]
fn ctrl_c_leaves_the_editor_and_the_program() {
    let mut state = polled();
    press(&mut state, KeyCode::Down);
    press(&mut state, KeyCode::Down);
    press(&mut state, KeyCode::Enter);
    let interrupt = Key { code: KeyCode::Char('C'), control: true, press: true };
    assert!(matches!(handle_key(&mut state, &interrupt, 0), Action::Quit));
    assert!(matches!(state.mode, UiMode::Normal));
}

#[test]
fn answers_clear_the_pending_write_they_belong_to() {
    let mut state = polled();
    let (control, _, value) = sent(press(&mut state, KeyCode::Enter));
    handle_write_result(
        &mut state,
        WriteResult { control, value: "other".into(), outcome: Ok(()), completed_at: 1 },
    );
    assert!(state.pending_write.is_some());
    assert_eq!(state.toast.as_ref().unwrap().text, "Power: other");
    handle_write_result(
        &mut state,
        WriteResult { control, value, outcome: Err("no".into()), completed_at: 2 },
    );
    assert!(state.pending_write.is_none());
    let toast = state.toast.as_ref().unwrap();
    assert_eq!((toast.text.as_str(), toast.kind, toast.shown_at), ("Power: no", ToastKind::Error, 2));
}

#[test]
fn an_unsent_command_is_reported() {
    let mut state = polled();
    press(&mut state, KeyCode::Enter);
    write_not_sent(&mut state, 7);
    assert!(state.pending_write.is_none());
    assert_eq!(state.toast.as_ref().unwrap().text, "actor channel closed");
}

#[test]
fn toasts_are_shown_for_three_seconds() {
    let mut state = polled();
    write_not_sent(&mut state, 7);
    state.prune_toast(0);
    assert!(state.toast.is_some());
    state.prune_toast(7 + 3 * SECOND);
    assert!(state.toast.is_some());
    state.prune_toast(8 + 3 * SECOND);
    assert!(state.toast.is_none());
}

#[test]
fn the_settings_screen_toggles_and_saves() {
    let mut state = polled();
    press(&mut state, KeyCode::Char('S'));
    // Host, port, interval, two sensors, three modes, the exhaust fan.
    for _ in 0..3 {
        press(&mut state, KeyCode::Down);
    }
    press(&mut state, KeyCode::Char(' '));
    for _ in 0..9 {
        press(&mut state, KeyCode::Down);
    }
    press(&mut state, KeyCode::Char(' '));
    assert!(state.cfg.ui.exhaust_fan);
    state.selection = 4;
    let action = press(&mut state, KeyCode::Esc);
    assert!(matches!(action, Action::Save { connection_changed: false }));
    assert!(!state.cfg.ui.exhaust_fan);
    assert!(!state.cfg.temperature_visible("supply_air_temp"));
    assert!(state.cfg.temperature_visible("outdoor_temp"));
    assert_eq!(state.controls.len(), 4);
    assert_eq!(state.selected_control(), Some(ControlId::SupplyFan));
    settings_saved(&mut state, false, Ok(()), 5);
    assert_eq!(state.toast.as_ref().unwrap().text, "settings saved");
    settings_saved(&mut state, true, Ok(()), 5);
    assert_eq!(
        state.toast.as_ref().unwrap().text,
        "settings saved — restart to apply connection changes"
    );
    settings_saved(&mut state, true, Err(ConfigError::NoHome), 5);
    assert_eq!(
        state.toast.as_ref().unwrap().text,
        "settings save failed: could not determine the user's home directory"
    );
}

#[test]
fn toggling_a_setting_twice_restores_it() {
    let mut state = polled();
    press(&mut state, KeyCode::Char('s'));
    for _ in 0..5 {
        press(&mut state, KeyCode::Down);
    }
    for expected in [false, true] {
        press(&mut state, KeyCode::Char(' '));
        match &state.mode {
            UiMode::Settings(s) => assert_eq!(s.draft_ui.modes.heating, expected),
            other => panic!("expected the settings, got {other:?}"),
        }
    }
}

#[test]
fn settings_fields_are_edited() {
    let mut state = polled();
    press(&mut state, KeyCode::Char('s'));
    press(&mut state, KeyCode::Enter);
    press(&mut state, KeyCode::Char(' '));
    press(&mut state, KeyCode::Char('2'));
    press(&mut state, KeyCode::Enter);
    press(&mut state, KeyCode::Down);
    press(&mut state, KeyCode::Enter);
    press(&mut state, KeyCode::Char('x'));
    press(&mut state, KeyCode::Char('9'));
    press(&mut state, KeyCode::Enter);
    press(&mut state, KeyCode::Down);
    press(&mut state, KeyCode::Enter);
    press(&mut state, KeyCode::Backspace);
    press(&mut state, KeyCode::Char('0'));
    // Zero seconds is not accepted: the editor stays open.
    press(&mut state, KeyCode::Enter);
    match &state.mode {
        UiMode::Settings(s) => assert_eq!(s.editing.as_ref().unwrap().text, "0"),
        other => panic!("expected the settings, got {other:?}"),
    }
    press(&mut state, KeyCode::Esc);
    let action = press(&mut state, KeyCode::Char('s'));
    assert!(matches!(action, Action::Save { connection_changed: true }));
    assert_eq!(state.cfg.modbus.host, "gtc2");
    assert_eq!(state.cfg.modbus.port, 5029);
    assert_eq!(state.cfg.poll.interval_seconds, 5);
}

#[test]
fn an_empty_host_and_a_large_port_are_not_accepted() {
    let mut state = polled();
    press(&mut state, KeyCode::Char('s'));
    press(&mut state, KeyCode::Enter);
    for _ in 0..9 {
        press(&mut state, KeyCode::Backspace);
    }
    press(&mut state, KeyCode::Enter);
    match &state.mode {
        UiMode::Settings(s) => assert_eq!(s.editing.as_ref().unwrap().text, ""),
        other => panic!("expected the settings, got {other:?}"),
    }
    press(&mut state, KeyCode::Esc);
    press(&mut state, KeyCode::Down);
    press(&mut state, KeyCode::Enter);
    for c in ['9', '9', '9'] {
        press(&mut state, KeyCode::Char(c));
    }
    press(&mut state, KeyCode::Enter);
    match &state.mode {
        UiMode::Settings(s) => {
            assert_eq!(s.editing.as_ref().unwrap().text, "502999");
            assert_eq!(s.draft_modbus.port, 502);
            assert_eq!(s.draft_modbus.host, "gtc");
        }
        other => panic!("expected the settings, got {other:?}"),
    }
}

#[test]
fn the_header_tells_the_endpoint_and_the_poll() {
    let state = polled();
    let lines = header_lines(&state, state.current_view().as_ref(), 12 * SECOND + 5);
    assert_eq!(
        texts(&lines),
        vec!["gtc:502  unit 1", "Firmware 5.1.0    ● polled 2s ago · next refresh in 2s"]
    );
    let mut late = UiState::new(config(), 5);
    assert_eq!(plain(&header_lines(&late, None, 0)[1]), "● connecting...");
    late.set_update(PollUpdate::Failed { message: "no route".into(), failed_at: 3 * SECOND });
    assert_eq!(plain(&header_lines(&late, None, 9 * SECOND)[1]), "● error 6s ago: no route");
    assert_eq!(plain(&header_lines(&late, None, 0)[1]), "● error 0s ago: no route");
    let state = polled();
    let lines = header_lines(&state, state.current_view().as_ref(), 99 * SECOND);
    assert!(plain(&lines[1]).ends_with("polled 89s ago · next refresh in 0s"));
}

#[test]
fn the_body_shows_status_and_data() {
    let state = polled();
    assert_eq!(
        body(&state),
        vec![
            "  Status",
            "  ▶ Power         ● ON Enter — toggle",
            "    Mode          Climate  (heating now)",
            "    Setpoint      22.5 °C",
            "    Phase         Fan starting",
            "    Errors        ✓ none active",
            "    Notes         ⚠ System overheat (setpoint not reached, heat fully off)",
            "                    • System undercool (setpoint not reached, heat fully on)",
            "",
            "  Temperatures",
            "    Supply air          -0.5 °C",
            "    outdoor_temp        9.0",
            "",
            "  Fans",
            "    fan_speed_supply_current  4   →  target 6",
            "    fan_speed_exhaust_current  3   →  target 5",
            "",
            "  Other",
            "    mystery             1",
            "",
        ]
    );
}

#[test]
fn the_body_tells_of_waiting_and_failure() {
    let mut state = UiState::new(config(), 5);
    assert_eq!(body(&state), vec!["", "  Waiting for the first poll to complete..."]);
    state.set_update(PollUpdate::Failed { message: "no route".into(), failed_at: 3 });
    assert_eq!(body(&state), vec!["", "  Last poll failed", "", "    no route"]);
}

#[test]
fn the_body_shows_edits_and_pending_writes() {
    let mut state = polled();
    press(&mut state, KeyCode::Down);
    press(&mut state, KeyCode::Down);
    press(&mut state, KeyCode::Enter);
    assert!(body(&state).contains(&"  ▶ Setpoint      [22.5█] °C".to_owned()));
    press(&mut state, KeyCode::Enter);
    assert!(body(&state).contains(&"  ▶ Setpoint      22.5 °C writing...".to_owned()));
    press(&mut state, KeyCode::Down);
    assert!(body(&state)
        .contains(&"  ▶ fan_speed_supply_current  4   →  target 6  Enter — edit".to_owned()));
    press(&mut state, KeyCode::Enter);
    assert!(body(&state).contains(&"  ▶ fan_speed_supply_current  4   →  target [6█]".to_owned()));
    press(&mut state, KeyCode::Up);
    press(&mut state, KeyCode::Enter);
    assert!(body(&state)
        .contains(&"  ▶ fan_speed_supply_current  4   →  target 7  writing...".to_owned()));
    assert!(body(&state).contains(&"    Setpoint      22.5 °C".to_owned()));
}

#[test]
fn the_power_row_follows_the_pending_write() {
    let mut state = polled();
    press(&mut state, KeyCode::Enter);
    assert!(body(&state).contains(&"  ▶ Power         ● OFF writing...".to_owned()));
    press(&mut state, KeyCode::Down);
    press(&mut state, KeyCode::Enter);
    assert!(body(&state).contains(&"  ▶ Mode          Ventilation writing...".to_owned()));
}

#[test]
fn the_status_section_shows_transitions_priorities_and_errors() {
    let mut state = UiState::new(config(), 5);
    let word = 1 | 2 | (1 << 9) | (1 << 10) | (2 << 11);
    let snapshot = Snapshot {
        entries: vec![
            entry("state_word_0", RegisterValue::U16(word)),
            entry("error_code", RegisterValue::U16((1 << 10) | (1 << 11))),
        ],
    };
    state.set_update(PollUpdate::Polled { snapshot, polled_at: 0 });
    assert_eq!(
        body(&state),
        vec![
            "  Status",
            "  ▶ Power         ● ON (starting) Enter — toggle",
            "    Mode          —",
            "    Priority      CO₂",
            "    Schedule      ⏱ timer active (today, week)",
            "    Setpoint      —",
            "    Errors        ✗ Fan 1 fault",
            "                    • Fire alarm",
            "",
        ]
    );
}

#[test]
fn without_a_mode_control_the_running_mode_is_shown() {
    for (word, text) in [
        (449, "    Mode          Heating  (heat + cool installed)"),
        (1 << 6, "    Mode          Heating"),
        (1 << 7, "    Mode          Cooling"),
        (0, "    Mode          Ventilation only  (no thermal stage installed)"),
    ] {
        let mut cfg = config();
        cfg.registers = Vec::new();
        let mut state = UiState::new(cfg, 5);
        let snapshot = Snapshot { entries: vec![entry("state_word_0", RegisterValue::U16(word))] };
        state.set_update(PollUpdate::Polled { snapshot, polled_at: 0 });
        assert_eq!(body(&state)[2], text);
    }
}

#[test]
fn hidden_rows_are_not_drawn() {
    let mut cfg = config();
    cfg.ui.exhaust_fan = false;
    cfg.ui.temperatures.insert("outdoor_temp".into(), false);
    assert!(!data_entry_visible(&cfg, "outdoor_temp"));
    assert!(!data_entry_visible(&cfg, "fan_speed_exhaust"));
    assert!(data_entry_visible(&cfg, "supply_air_temp"));
    assert!(data_entry_visible(&cfg, "mystery"));
    let mut state = UiState::new(cfg, 5);
    state.set_update(PollUpdate::Polled { snapshot: snapshot(), polled_at: 0 });
    let text = body(&state).join("\n");
    assert!(!text.contains("outdoor_temp"));
    assert!(!text.contains("exhaust"));
    assert!(text.contains("Supply air"));
}

#[test]
fn a_row_shows_a_target_with_or_without_its_control() {
    let state = polled();
    let actual = entry("a", RegisterValue::U16(1));
    let target = entry("b", RegisterValue::U16(2));
    assert_eq!(
        plain(&data_line("a", &actual, Some(&target), None, &state)),
        "    a                   1   →  target 2"
    );
    assert_eq!(
        plain(&data_line("a", &actual, None, Some(ControlId::SupplyFan), &state)),
        "    a                   1   →  target —"
    );
    assert_eq!(
        plain(&data_line("a", &actual, None, None, &state)),
        "    a                   1"
    );
}

#[test]
fn the_footer_shows_messages_and_keys() {
    let mut state = polled();
    let (message, keys) = footer_lines(&state);
    assert_eq!(plain(&message), "");
    assert_eq!(plain(&keys), "  [↑↓] navigate · [Enter] toggle · [s] settings · [q] quit");
    press(&mut state, KeyCode::Enter);
    assert_eq!(plain(&footer_lines(&state).0), "  ⌛ writing Power: 0...");
    write_not_sent(&mut state, 0);
    let (message, _) = footer_lines(&state);
    assert_eq!(plain(&message), "  ✗ actor channel closed");
    assert_eq!(message.spans[1].style, Style::tinted(Color::Red));
    press(&mut state, KeyCode::Down);
    press(&mut state, KeyCode::Down);
    assert!(plain(&footer_lines(&state).1).contains("[Enter] edit"));
    press(&mut state, KeyCode::Enter);
    assert_eq!(
        plain(&footer_lines(&state).1),
        "  [↑↓] ±0.5 · type digits/. · [Enter] save · [Esc] cancel"
    );
    let mut empty = config();
    empty.registers = Vec::new();
    let state = UiState::new(empty, 5);
    assert!(plain(&footer_lines(&state).1).contains("[Enter] — ·"));
}

#[test]
fn the_settings_screen_is_drawn() {
    let mut state = polled();
    press(&mut state, KeyCode::Char('s'));
    press(&mut state, KeyCode::Down);
    press(&mut state, KeyCode::Enter);
    let UiMode::Settings(settings) = &state.mode else {
        panic!("expected the settings");
    };
    let lines = settings_view::build_settings_lines(settings, &state.cfg.registers);
    assert_eq!(
        texts(&lines),
        vec![
            "  Connection",
            "    Host                  gtc",
            "  ▶ Port                  [502█]",
            "    Poll interval         5 s",
            "",
            "  Temperatures",
            "    Supply air            [✓]",
            "    outdoor_temp          [✓]",
            "",
            "  Modes",
            "    Heating               [✓]",
            "    Cooling               [✓]",
            "    Climate               [✓]",
            "",
            "  Fans",
            "    Exhaust fan           [✓]",
            "",
            "    ───  Ventilation is always selectable",
        ]
    );
    assert_eq!(plain(&settings_view::title_line()), " Settings    edits saved on Esc");
    assert_eq!(
        plain(&settings_view::keys_line()),
        "  [↑↓] navigate · [Space] toggle · [Enter] edit · [Esc] save & close"
    );
}

#[test]
fn settings_rows_tell_how_they_are_used() {
    let mut state = polled();
    press(&mut state, KeyCode::Char('s'));
    let row = |state: &UiState, i: usize| match &state.mode {
        UiMode::Settings(s) => {
            plain(&settings_view::settings_row(s, i, &s.items[i], &state.cfg.registers))
        }
        other => panic!("expected the settings, got {other:?}"),
    };
    assert_eq!(row(&state, 0), "  ▶ Host                  gtc   Enter — edit");
    for _ in 0..3 {
        press(&mut state, KeyCode::Down);
    }
    press(&mut state, KeyCode::Char(' '));
    assert_eq!(row(&state, 3), "  ▶ Supply air            [ ]   Space — toggle");
}

#[test]
fn the_actor_decides_what_comes_next() {
    let write = ActorCommand::Write {
        control: ControlId::Power,
        register: "power".into(),
        value: "1".into(),
    };
    assert!(matches!(
        next_action(ActorEvent::Command(write)),
        ActorAction::Write { control: ControlId::Power, .. }
    ));
    assert!(matches!(
        next_action(ActorEvent::Command(ActorCommand::Shutdown)),
        ActorAction::Stop
    ));
    assert!(matches!(next_action(ActorEvent::CommandsClosed), ActorAction::Stop));
    assert!(matches!(next_action(ActorEvent::Tick), ActorAction::Poll { after_tick: true }));
    assert!(matches!(
        next_action(ActorEvent::Written { succeeded: true }),
        ActorAction::Poll { after_tick: false }
    ));
    assert!(matches!(
        next_action(ActorEvent::Written { succeeded: false }),
        ActorAction::Wait
    ));
    for (after_tick, delivered, stops) in
        [(true, true, false), (true, false, true), (false, true, false), (false, false, false)]
    {
        let action = next_action(ActorEvent::Published { after_tick, delivered });
        assert_eq!(matches!(action, ActorAction::Stop), stops);
    }
}

#[test]
fn writes_of_the_actor_are_answered_in_words() {
    let client = FakeModbusClient::new();
    let cfg = config();
    let mut bus = Bus::new(client);
    assert_eq!(run_write(&mut bus, &cfg.registers, "power", "1"), Ok(()));
    assert_eq!(bus.client().coils.get(&0).copied(), Some(true));
    assert_eq!(
        run_write(&mut bus, &cfg.registers, "ghost", "1"),
        Err("unknown register `ghost`".to_owned())
    );
    assert_eq!(
        run_write(&mut bus, &cfg.registers, "fan_speed_supply", "0"),
        Err("register `fan_speed_supply`: write refused: a fan setpoint of 0 burns out the heat \
             exchanger"
            .to_owned())
    );
}

#[test]
fn polls_become_updates() {
    let error = AppError::NotWritable { name: "x".into() };
    assert_eq!(short_error(&error), "register `x` is not writable");
    match poll_update(Err(error), 9) {
        PollUpdate::Failed { message, failed_at } => {
            assert_eq!((message.as_str(), failed_at), ("register `x` is not writable", 9));
        }
        other => panic!("expected a failure, got {other:?}"),
    }
    match poll_update(Ok(snapshot()), 8) {
        PollUpdate::Polled { snapshot: s, polled_at } => {
            assert_eq!((s, polled_at), (snapshot(), 8));
        }
        other => panic!("expected a snapshot, got {other:?}"),
    }
}

/// A client whose bus is down.
struct Broken {
    requests: usize,
}

impl Broken {
    fn fail<T>(&mut self) -> Result<T, ModbusError> {
        self.requests += 1;
        Err(ModbusError::Timeout { millis: 10 })
    }
}

impl ModbusClient for Broken {
    fn read_holding(&mut self, _address: u16, _count: u16) -> Result<Vec<u16>, ModbusError> {
        self.fail()
    }

    fn read_input(&mut self, _address: u16, _count: u16) -> Result<Vec<u16>, ModbusError> {
        self.fail()
    }

    fn read_coils(&mut self, _address: u16, _count: u16) -> Result<Vec<bool>, ModbusError> {
        self.fail()
    }

    fn read_discrete(&mut self, _address: u16, _count: u16) -> Result<Vec<bool>, ModbusError> {
        self.fail()
    }

    fn write_holding(&mut self, _address: u16, _value: u16) -> Result<(), ModbusError> {
        self.fail()
    }

    fn write_coil(&mut self, _address: u16, _value: bool) -> Result<(), ModbusError> {
        self.fail()
    }
}

#[test]
fn a_bus_that_is_down_fails_every_operation_once() {
    let down = || AppError::Modbus(ModbusError::Timeout { millis: 10 });
    let registers = config().registers;
    let client = Broken { requests: 0 };
    let mut bus = Bus::new(client);
    assert_eq!(gtc_control::app::poll_once(&mut bus, &registers), Err(down()));
    assert_eq!(bus.client().requests, 1);
    assert_eq!(
        gtc_control::app::read_one(&mut bus, &registers, "outdoor_temp"),
        Err(down())
    );
    assert_eq!(bus.client().requests, 2);
    let mut mode = def_writable("mode_system");
    mode.value_type = RegisterValueType::Mode;
    assert_eq!(
        gtc_control::app::set_value(&mut bus, &[mode], "mode_system", "auto"),
        Err(down())
    );
    assert_eq!(bus.client().requests, 3);
    assert_eq!(
        gtc_control::app::set_value(&mut bus, &registers, "fan_speed_supply", "0"),
        Err(AppError::Refused {
            name: "fan_speed_supply".into(),
            reason: "a fan setpoint of 0 burns out the heat exchanger"
        })
    );
    assert_eq!(bus.client().requests, 3);
}

#[test]
fn a_cursor_past_the_last_row_changes_nothing() {
    let mut settings = SettingsState::open(&config());
    settings.cursor = settings.items.len();
    toggle_settings_item(&mut settings);
    start_settings_edit(&mut settings);
    let fresh = SettingsState::open(&config());
    assert_eq!(settings.cursor, settings.items.len());
    assert!(settings.editing.is_none());
    assert_eq!(settings.draft_ui.modes, fresh.draft_ui.modes);
    assert_eq!(settings.draft_ui.exhaust_fan, fresh.draft_ui.exhaust_fan);
}

#[test]
fn committing_an_editor_on_a_flag_closes_it() {
    let mut settings = SettingsState::open(&config());
    let flag = settings.items.iter().position(|i| matches!(i, SettingsItem::ExhaustFan)).unwrap();
    settings.editing = Some(SettingsEditBuffer { item_index: flag, text: "x".into() });
    commit_settings_edit(&mut settings);
    assert!(settings.editing.is_none());
    let fresh = SettingsState::open(&config());
    assert_eq!(settings.draft_modbus.host, fresh.draft_modbus.host);
    assert_eq!(settings.draft_ui.exhaust_fan, fresh.draft_ui.exhaust_fan);
}
