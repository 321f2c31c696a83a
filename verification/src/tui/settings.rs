//! The Settings screen: a draft of the user-tunable configuration, the rows
//! that edit it, and how keys change it.

use crate::config::{Config, Endpoint, ModbusConfig, PollConfig, UiConfig, UiPreferences};
use crate::domain::{RegisterDef, RegisterKind, RegisterValueType};
use crate::number::{self, parse_u16, parse_u64};
use crate::text::{self, decimal_text, digit, space, trim};
use crate::tui::keys::{Key, KeyCode};
use vstd::prelude::*;

verus! {

// ---------------------------------------------------------------------
// Rows
// ---------------------------------------------------------------------

/// One navigable row in the Settings screen. Section headings are not items;
/// they are emitted around items at render time.
#[derive(Debug)]
pub enum SettingsItem {
    /// The Modbus host.
    Host,
    /// The Modbus port.
    Port,
    /// The poll interval.
    PollInterval,
    /// Temperature visibility toggle for the register with this name.
    Temperature(String),
    /// Heating mode in the mode picker.
    ModeHeating,
    /// Cooling mode in the mode picker.
    ModeCooling,
    /// Climate mode in the mode picker.
    ModeClimate,
    /// The exhaust-fan rows.
    ExhaustFan,
}

/// What a [`SettingsItem`] stands for.
pub enum Item {
    Host,
    Port,
    PollInterval,
    Temperature(Seq<char>),
    ModeHeating,
    ModeCooling,
    ModeClimate,
    ExhaustFan,
}

impl View for SettingsItem {
    type V = Item;

    open spec fn view(&self) -> Item {
        match *self {
            SettingsItem::Host => Item::Host,
            SettingsItem::Port => Item::Port,
            SettingsItem::PollInterval => Item::PollInterval,
            SettingsItem::Temperature(name) => Item::Temperature(name@),
            SettingsItem::ModeHeating => Item::ModeHeating,
            SettingsItem::ModeCooling => Item::ModeCooling,
            SettingsItem::ModeClimate => Item::ModeClimate,
            SettingsItem::ExhaustFan => Item::ExhaustFan,
        }
    }
}

impl Item {
    /// The row holds a text or a number that is edited, not a flag that is
    /// toggled.
    pub open spec fn is_field(self) -> bool {
        self is Host || self is Port || self is PollInterval
    }
}

/// The rows that a list of items stands for.
pub open spec fn rows(items: Seq<SettingsItem>) -> Seq<Item> {
    items.map_values(|i: SettingsItem| i@)
}

/// The register is a temperature sensor.
pub open spec fn is_sensor(def: RegisterDef) -> bool {
    def.kind == RegisterKind::Input && def.value_type == RegisterValueType::TemperatureX10
}

/// The rows of the temperature sensors, in the order of the catalogue.
pub open spec fn sensor_rows(registers: Seq<RegisterDef>) -> Seq<Item>
    decreases registers.len(),
{
    if registers.len() == 0 {
        Seq::empty()
    } else {
        let before = sensor_rows(registers.drop_last());
        if is_sensor(registers.last()) {
            before.push(Item::Temperature(registers.last().name@))
        } else {
            before
        }
    }
}

/// The rows of the screen.
pub open spec fn settings_rows(registers: Seq<RegisterDef>) -> Seq<Item> {
    seq![Item::Host, Item::Port, Item::PollInterval] + sensor_rows(registers) + seq![
        Item::ModeHeating,
        Item::ModeCooling,
        Item::ModeClimate,
        Item::ExhaustFan,
    ]
}

/// The rows of the screen: the connection, one row per temperature sensor of
/// the catalogue, the modes, the exhaust fan.
pub fn build_settings_items(cfg: &Config) -> (r: Vec<SettingsItem>)
    ensures
        rows(r@) == settings_rows(cfg.registers@),
{
    let mut items: Vec<SettingsItem> = Vec::new();
    items.push(SettingsItem::Host);
    items.push(SettingsItem::Port);
    items.push(SettingsItem::PollInterval);
    let ghost head = seq![Item::Host, Item::Port, Item::PollInterval];
    let registers = &cfg.registers;
    let mut i: usize = 0;
    assert(registers@.take(0) =~= Seq::empty());
    assert(rows(items@) =~= head + sensor_rows(registers@.take(0)));
    while i < registers.len()
        invariant
            i <= registers@.len(),
            rows(items@) == head + sensor_rows(registers@.take(i as int)),
        decreases registers@.len() - i,
    {
        let ghost before = items@;
        let reg = &registers[i];
        proof {
            let t = registers@.take(i + 1);
            assert(t.drop_last() =~= registers@.take(i as int));
            assert(t.last() == *reg);
        }
        if matches!(reg.kind, RegisterKind::Input) && matches!(
            reg.value_type,
            RegisterValueType::TemperatureX10
        ) {
            items.push(SettingsItem::Temperature(reg.name.clone()));
            assert(rows(items@) =~= rows(before).push(Item::Temperature(reg.name@)));
        }
        i = i + 1;
        assert(rows(items@) =~= head + sensor_rows(registers@.take(i as int)));
    }
    assert(registers@.take(registers@.len() as int) =~= registers@);
    items.push(SettingsItem::ModeHeating);
    items.push(SettingsItem::ModeCooling);
    items.push(SettingsItem::ModeClimate);
    items.push(SettingsItem::ExhaustFan);
    assert(rows(items@) =~= settings_rows(registers@));
    items
}

// ---------------------------------------------------------------------
// State
// ---------------------------------------------------------------------

/// The text being typed into one row.
#[derive(Debug)]
pub struct SettingsEditBuffer {
    /// Which row is edited.
    pub item_index: usize,
    /// What has been typed.
    pub text: String,
}

/// State backing the full-screen Settings view: a draft of the user-tunable
/// config that the screen changes in place and that replaces the live values
/// on close.
#[derive(Debug)]
pub struct SettingsState {
    /// Draft of the Modbus endpoint.
    pub draft_modbus: ModbusConfig,
    /// Draft of the polling cadence.
    pub draft_poll: PollConfig,
    /// Draft of the UI preferences.
    pub draft_ui: UiConfig,
    /// The rows.
    pub items: Vec<SettingsItem>,
    /// The selected row.
    pub cursor: usize,
    /// The row being edited, if any.
    pub editing: Option<SettingsEditBuffer>,
}

/// What a [`SettingsState`] stands for.
#[verifier::ext_equal]
pub struct Settings {
    pub modbus: Endpoint,
    pub poll: PollConfig,
    pub ui: UiPreferences,
    pub items: Seq<Item>,
    pub cursor: nat,
    pub editing: Option<(nat, Seq<char>)>,
}

impl View for SettingsState {
    type V = Settings;

    open spec fn view(&self) -> Settings {
        Settings {
            modbus: self.draft_modbus@,
            poll: self.draft_poll,
            ui: self.draft_ui@,
            items: rows(self.items@),
            cursor: self.cursor as nat,
            editing: match self.editing {
                Some(buf) => Some((buf.item_index as nat, buf.text@)),
                None => None,
            },
        }
    }
}

impl Settings {
    /// The cursor is on a row, and what is edited is the selected field.
    pub open spec fn well_formed(self) -> bool {
        &&& self.on_row()
        &&& match self.editing {
            Some(edit) => edit.0 == self.cursor && self.items[self.cursor as int].is_field(),
            None => true,
        }
    }

    /// What is edited is one of the rows.
    pub open spec fn editable(self) -> bool {
        self.editing matches Some(edit) ==> edit.0 < self.items.len()
    }

    /// The cursor is on a row.
    pub open spec fn on_row(self) -> bool {
        self.cursor < self.items.len()
    }

    /// The selected row, if the cursor is on one.
    pub open spec fn item(self) -> Item {
        self.items[self.cursor as int]
    }
}

/// The draft that the screen opens with.
pub open spec fn opened(
    modbus: Endpoint,
    poll: PollConfig,
    ui: UiPreferences,
    registers: Seq<RegisterDef>,
) -> Settings {
    Settings { modbus, poll, ui, items: settings_rows(registers), cursor: 0, editing: None }
}

impl SettingsState {
    /// The draft that the screen opens with: the live configuration, the
    /// cursor on the first row.
    pub fn open(cfg: &Config) -> (r: SettingsState)
        ensures
            r@ == opened(cfg.modbus@, cfg.poll, cfg.ui@, cfg.registers@),
            r@.well_formed(),
    {
        SettingsState {
            draft_modbus: cfg.modbus.clone(),
            draft_poll: cfg.poll,
            draft_ui: cfg.ui.clone(),
            items: build_settings_items(cfg),
            cursor: 0,
            editing: None,
        }
    }
}

// ---------------------------------------------------------------------
// Toggling
// ---------------------------------------------------------------------

/// The flag of a row; a field has none.
pub open spec fn flag_of(ui: UiPreferences, item: Item) -> bool {
    match item {
        Item::Temperature(name) => ui.shows_temperature(name),
        Item::ModeHeating => ui.modes.heating,
        Item::ModeCooling => ui.modes.cooling,
        Item::ModeClimate => ui.modes.climate,
        Item::ExhaustFan => ui.exhaust_fan,
        Item::Host | Item::Port | Item::PollInterval => false,
    }
}

/// The preferences with the flag of a row turned over; fields are left alone.
pub open spec fn flipped(ui: UiPreferences, item: Item) -> UiPreferences {
    match item {
        Item::Temperature(name) => UiPreferences {
            temperatures: ui.temperatures.insert(name, !ui.shows_temperature(name)),
            ..ui
        },
        Item::ModeHeating => UiPreferences {
            modes: crate::config::ModeVisibility { heating: !ui.modes.heating, ..ui.modes },
            ..ui
        },
        Item::ModeCooling => UiPreferences {
            modes: crate::config::ModeVisibility { cooling: !ui.modes.cooling, ..ui.modes },
            ..ui
        },
        Item::ModeClimate => UiPreferences {
            modes: crate::config::ModeVisibility { climate: !ui.modes.climate, ..ui.modes },
            ..ui
        },
        Item::ExhaustFan => UiPreferences { exhaust_fan: !ui.exhaust_fan, ..ui },
        Item::Host | Item::Port | Item::PollInterval => ui,
    }
}

/// The screen after Space: the flag of the selected row is turned over.
pub open spec fn toggled(s: Settings) -> Settings {
    if s.on_row() {
        Settings { ui: flipped(s.ui, s.item()), ..s }
    } else {
        s
    }
}

/// Turn the flag of the selected row over. Text and number rows are edited
/// with Enter instead and stay as they are, and so does everything when the
/// cursor is past the last row.
pub fn toggle_settings_item(settings: &mut SettingsState)
    ensures
        final(settings)@ == toggled(old(settings)@),
        old(settings)@.well_formed() ==> final(settings)@.well_formed(),
{
    if settings.cursor >= settings.items.len() {
        return ;
    }
    let ghost before = settings@;
    assert(before.item() == settings.items@[settings.cursor as int]@);
    match &settings.items[settings.cursor] {
        SettingsItem::Host | SettingsItem::Port | SettingsItem::PollInterval => {},
        SettingsItem::Temperature(name) => {
            let current = settings.draft_ui.temperature_visible(name.as_str());
            let name = name.clone();
            settings.draft_ui.temperatures.insert(name, !current);
        },
        SettingsItem::ModeHeating => {
            settings.draft_ui.modes.heating = !settings.draft_ui.modes.heating;
        },
        SettingsItem::ModeCooling => {
            settings.draft_ui.modes.cooling = !settings.draft_ui.modes.cooling;
        },
        SettingsItem::ModeClimate => {
            settings.draft_ui.modes.climate = !settings.draft_ui.modes.climate;
        },
        SettingsItem::ExhaustFan => {
            settings.draft_ui.exhaust_fan = !settings.draft_ui.exhaust_fan;
        },
    }
}

// ---------------------------------------------------------------------
// Editing
// ---------------------------------------------------------------------

/// The text that the editor of a field starts with.
pub open spec fn field_text(modbus: Endpoint, poll: PollConfig, item: Item) -> Seq<char> {
    match item {
        Item::Host => modbus.host,
        Item::Port => text::decimal(modbus.port as nat),
        Item::PollInterval => text::decimal(poll.interval_seconds as nat),
        _ => Seq::empty(),
    }
}

/// The screen after Enter on the selected row: a field is opened for editing,
/// a flag stays as it is.
pub open spec fn edit_started(s: Settings) -> Settings {
    if s.on_row() && s.item().is_field() {
        Settings {
            editing: Some((s.cursor, field_text(s.modbus, s.poll, s.item()))),
            ..s
        }
    } else {
        s
    }
}

/// Open the selected field for editing. Flags are toggled with Space, not
/// edited.
pub fn start_settings_edit(settings: &mut SettingsState)
    ensures
        final(settings)@ == edit_started(old(settings)@),
        old(settings)@.well_formed() ==> final(settings)@.well_formed(),
{
    if settings.cursor >= settings.items.len() {
        return ;
    }
    assert(settings@.item() == settings.items@[settings.cursor as int]@);
    let text = match &settings.items[settings.cursor] {
        SettingsItem::Host => settings.draft_modbus.host.clone(),
        SettingsItem::Port => decimal_text(settings.draft_modbus.port as u64),
        SettingsItem::PollInterval => decimal_text(settings.draft_poll.interval_seconds),
        _ => {
            return ;
        },
    };
    settings.editing = Some(SettingsEditBuffer { item_index: settings.cursor, text });
}

/// The typed text can be taken into the field.
pub open spec fn acceptable(item: Item, typed: Seq<char>) -> bool {
    let trimmed = text::trimmed(typed);
    match item {
        Item::Host => trimmed.len() > 0,
        Item::Port => number::u16_of(trimmed) is Ok,
        Item::PollInterval => number::u64_of(trimmed) is Ok && number::u64_of(trimmed)->Ok_0 != 0,
        _ => true,
    }
}

/// The screen after Enter in the editor: an acceptable text is taken into the
/// draft and the editor closes, any other leaves everything as it is.
pub open spec fn committed(s: Settings) -> Settings {
    match s.editing {
        None => s,
        Some(edit) => {
            let item = s.items[edit.0 as int];
            let trimmed = text::trimmed(edit.1);
            if !acceptable(item, edit.1) {
                s
            } else {
                match item {
                    Item::Host => Settings {
                        modbus: Endpoint { host: trimmed, ..s.modbus },
                        editing: None,
                        ..s
                    },
                    Item::Port => Settings {
                        modbus: Endpoint {
                            port: number::u16_of(trimmed)->Ok_0 as u16,
                            ..s.modbus
                        },
                        editing: None,
                        ..s
                    },
                    Item::PollInterval => Settings {
                        poll: PollConfig {
                            interval_seconds: number::u64_of(trimmed)->Ok_0 as u64,
                        },
                        editing: None,
                        ..s
                    },
                    _ => Settings { editing: None, ..s },
                }
            }
        },
    }
}

/// Take the typed text into the draft and close the editor. An empty host, a
/// port that is no 16-bit number and an interval that is no positive number
/// keep the editor open.
pub fn commit_settings_edit(settings: &mut SettingsState)
    requires
        old(settings)@.editable(),
    ensures
        final(settings)@ == committed(old(settings)@),
        old(settings)@.well_formed() ==> final(settings)@.well_formed(),
{
    let ghost before = settings@;
    let (index, typed) = match &settings.editing {
        Some(buf) => (buf.item_index, buf.text.clone()),
        None => {
            return ;
        },
    };
    let trimmed = trim(typed.as_str());
    assert(before.items[index as int] == settings.items@[index as int]@);
    match &settings.items[index] {
        SettingsItem::Host => {
            if trimmed.is_empty() {
                return ;
            }
            settings.draft_modbus.host = trimmed.to_owned();
        },
        SettingsItem::Port => match parse_u16(trimmed) {
            Ok(port) => {
                settings.draft_modbus.port = port;
            },
            Err(_) => {
                return ;
            },
        },
        SettingsItem::PollInterval => match parse_u64(trimmed) {
            Ok(seconds) => {
                if seconds == 0 {
                    return ;
                }
                settings.draft_poll = PollConfig { interval_seconds: seconds };
            },
            Err(_) => {
                return ;
            },
        },
        _ => {},
    }
    settings.editing = None;
}

/// The character can be typed into the field.
pub open spec fn accepts(item: Item, c: char) -> bool {
    match item {
        Item::Host => !text::is_space(c),
        Item::Port | Item::PollInterval => text::is_digit(c),
        _ => false,
    }
}

/// Whether the character can be typed into the row: anything but white space
/// into the host, digits into the numbers.
pub fn settings_edit_accepts(item: &SettingsItem, c: char) -> (r: bool)
    ensures
        r == accepts(item@, c),
{
    match item {
        SettingsItem::Host => !space(c),
        SettingsItem::Port | SettingsItem::PollInterval => digit(c),
        _ => false,
    }
}

/// `s` without its last character.
pub open spec fn shortened(s: Seq<char>) -> Seq<char> {
    if s.len() > 0 {
        s.drop_last()
    } else {
        s
    }
}

/// The screen after a key in the editor.
pub open spec fn edit_pressed(s: Settings, key: Key) -> Settings {
    match s.editing {
        None => s,
        Some(edit) => match key.code {
            KeyCode::Esc => Settings { editing: None, ..s },
            KeyCode::Enter => committed(s),
            KeyCode::Backspace => Settings { editing: Some((edit.0, shortened(edit.1))), ..s },
            KeyCode::Char(c) => if accepts(s.items[edit.0 as int], c) {
                Settings { editing: Some((edit.0, edit.1.push(c))), ..s }
            } else {
                s
            },
            _ => s,
        },
    }
}

/// Handle a key while a field is edited.
pub fn handle_settings_edit_key(settings: &mut SettingsState, key: &Key)
    requires
        old(settings)@.editable(),
    ensures
        final(settings)@ == edit_pressed(old(settings)@, *key),
        old(settings)@.well_formed() ==> final(settings)@.well_formed(),
{
    let ghost before = settings@;
    if settings.editing.is_none() {
        return ;
    }
    match key.code {
        KeyCode::Esc => {
            settings.editing = None;
        },
        KeyCode::Enter => {
            commit_settings_edit(settings);
        },
        KeyCode::Backspace => {
            match settings.editing.take() {
                Some(buf) => {
                    let mut text = buf.text;
                    let _ = text.pop();
                    settings.editing = Some(SettingsEditBuffer { item_index: buf.item_index, text });
                },
                None => {},
            }
        },
        KeyCode::Char(c) => {
            match settings.editing.take() {
                Some(buf) => {
                    let index = buf.item_index;
                    let mut text = buf.text;
                    assert(before.items[index as int] == settings.items@[index as int]@);
                    if settings_edit_accepts(&settings.items[index], c) {
                        text.push(c);
                    }
                    settings.editing = Some(SettingsEditBuffer { item_index: index, text });
                },
                None => {},
            }
        },
        _ => {},
    }
}

/// The screen after a key that neither edits a field nor closes the screen:
/// the cursor moves, a flag is toggled, or a field is opened.
pub open spec fn row_pressed(s: Settings, key: Key) -> Settings {
    match key.code {
        KeyCode::Up => Settings {
            cursor: if s.cursor > 0 {
                (s.cursor - 1) as nat
            } else {
                0
            },
            ..s
        },
        KeyCode::Down => if s.cursor + 1 < s.items.len() {
            Settings { cursor: s.cursor + 1, ..s }
        } else {
            s
        },
        KeyCode::Char(' ') => toggled(s),
        KeyCode::Enter => edit_started(s),
        _ => s,
    }
}

/// Handle a key on the rows of the screen, while no field is edited.
pub fn handle_settings_row_key(settings: &mut SettingsState, key: &Key)
    requires
        old(settings)@.editing is None,
    ensures
        final(settings)@ == row_pressed(old(settings)@, *key),
        old(settings)@.well_formed() ==> final(settings)@.well_formed(),
{
    match key.code {
        KeyCode::Up => {
            if settings.cursor > 0 {
                settings.cursor = settings.cursor - 1;
            }
        },
        KeyCode::Down => {
            if settings.items.len() > 0 && settings.cursor < settings.items.len() - 1 {
                settings.cursor = settings.cursor + 1;
            }
        },
        KeyCode::Char(' ') => {
            toggle_settings_item(settings);
        },
        KeyCode::Enter => {
            start_settings_edit(settings);
        },
        _ => {},
    }
}

// ---------------------------------------------------------------------
// Laws
// ---------------------------------------------------------------------

/// Toggling turns the flag of the row over and no other, and toggling twice
/// shows again what was shown before.
pub proof fn law_toggle_turns_one_flag(ui: UiPreferences, item: Item, other: Item)
    requires
        !item.is_field(),
        other != item,
    ensures
        flag_of(flipped(ui, item), item) == !flag_of(ui, item),
        flag_of(flipped(ui, item), other) == flag_of(ui, other),
        flag_of(flipped(flipped(ui, item), item), item) == flag_of(ui, item),
        flag_of(flipped(flipped(ui, item), item), other) == flag_of(ui, other),
{
}

/// Space turns the flag of the selected row over and leaves every other row,
/// the connection and the cursor alone; on a field and past the last row it
/// changes nothing, and pressed twice it shows again what was shown before.
pub proof fn law_toggle_stays_on_its_row(s: Settings, item: Item)
    ensures
        s.on_row() && !s.item().is_field() ==> flag_of(toggled(s).ui, item) == (flag_of(s.ui, item)
            != (item == s.item())),
        s.on_row() && s.item().is_field() ==> toggled(s) == s,
        !s.on_row() ==> toggled(s) == s,
        toggled(s) == (Settings { ui: toggled(s).ui, ..s }),
        flag_of(toggled(toggled(s)).ui, item) == flag_of(s.ui, item),
{
    if s.on_row() && !s.item().is_field() && item != s.item() {
        law_toggle_turns_one_flag(s.ui, s.item(), item);
    }
}

/// Leaving the editor with Esc keeps the draft as it was.
pub proof fn law_cancelled_edit_changes_nothing(s: Settings, key: Key)
    requires
        key.code == KeyCode::Esc,
    ensures
        edit_pressed(s, key).modbus == s.modbus,
        edit_pressed(s, key).poll == s.poll,
        edit_pressed(s, key).ui == s.ui,
        edit_pressed(s, key).editing is None,
{
}

/// Opening the editor of a field and entering what it holds changes nothing,
/// for a host without white space at its ends and an interval that is not 0.
pub proof fn law_unchanged_edit_keeps_the_draft(s: Settings)
    requires
        s.on_row(),
        s.editing is None,
        s.item().is_field(),
        s.item() is Host ==> text::trimmed(s.modbus.host) == s.modbus.host && s.modbus.host.len()
            > 0,
        s.item() is PollInterval ==> s.poll.interval_seconds != 0,
    ensures
        committed(edit_started(s)) == s,
{
    let port = s.modbus.port as int;
    let seconds = s.poll.interval_seconds as int;
    crate::domain::lemma_signed_decimal_trimmed(port);
    crate::domain::lemma_signed_decimal_trimmed(seconds);
    number::law_printed_integer_reads_back(port, 0, 0xFFFF);
    number::law_printed_integer_reads_back(seconds, 0, 0xFFFF_FFFF_FFFF_FFFF);
    assert(committed(edit_started(s)) =~= s);
}

/// Whatever is typed, the draft never takes an empty host or an interval of
/// zero seconds.
pub proof fn law_draft_stays_sensible(s: Settings, key: Key)
    requires
        s.editable(),
        s.modbus.host.len() > 0,
        s.poll.interval_seconds > 0,
    ensures
        edit_pressed(s, key).modbus.host.len() > 0,
        edit_pressed(s, key).poll.interval_seconds > 0,
{
    match s.editing {
        Some(edit) => {
            number::law_integer_in_range(
                text::trimmed(edit.1),
                0,
                0xFFFF_FFFF_FFFF_FFFF,
            );
        },
        None => {},
    }
}


/// Entering a text takes it into the row that is edited and closes the editor:
/// a text that is not empty, without the white space around it, becomes the
/// host; an integer up to 65535 becomes the port; an integer from 1 to
/// 2^64 - 1 becomes the interval in seconds. Any other text changes nothing,
/// and on a row that is no field the editor only closes.
pub proof fn law_commit_takes_the_typed_value(s: Settings, i: nat, typed: Seq<char>)
    requires
        s.editing == Some((i, typed)),
        i < s.items.len(),
    ensures
        ({
            let after = committed(s);
            let t = text::trimmed(typed);
            let integer = number::numeral(t) is Some && t[0] != '-';
            let n = number::numeral(t)->0;
            &&& after.ui == s.ui && after.items == s.items && after.cursor == s.cursor
            &&& after.modbus.unit_id == s.modbus.unit_id
            &&& after.modbus.timeout_ms == s.modbus.timeout_ms
            &&& match s.items[i as int] {
                Item::Host => {
                    &&& t.len() > 0 ==> after.modbus.host == t && after.editing is None
                    &&& t.len() == 0 ==> after == s
                    &&& after.modbus.port == s.modbus.port && after.poll == s.poll
                },
                Item::Port => {
                    &&& integer && n <= 0xFFFF ==> after.modbus.port == n && after.editing is None
                    &&& !(integer && n <= 0xFFFF) ==> after == s
                    &&& after.modbus.host == s.modbus.host && after.poll == s.poll
                },
                Item::PollInterval => {
                    &&& integer && 1 <= n <= 0xFFFF_FFFF_FFFF_FFFF ==> after.poll.interval_seconds
                        == n && after.editing is None
                    &&& !(integer && 1 <= n <= 0xFFFF_FFFF_FFFF_FFFF) ==> after == s
                    &&& after.modbus == s.modbus
                },
                _ => after.modbus == s.modbus && after.poll == s.poll && after.editing is None,
            }
        }),
{
    let t = text::trimmed(typed);
    number::law_integer_is_a_numeral_in_range(t, 0, 0xFFFF);
    number::law_integer_is_a_numeral_in_range(t, 0, 0xFFFF_FFFF_FFFF_FFFF);
    number::law_integer_in_range(t, 0, 0xFFFF);
    number::law_integer_in_range(t, 0, 0xFFFF_FFFF_FFFF_FFFF);
    if number::numeral(t) is Some && t[0] != '-' {
        assert(number::numeral(t)->0 >= 0);
    }
}

/// A number entered as it is printed becomes the port or the interval.
pub proof fn law_printed_number_is_taken(s: Settings, i: nat, typed: Seq<char>, n: nat)
    requires
        s.editing == Some((i, typed)),
        i < s.items.len(),
        text::trimmed(typed) == text::decimal(n),
    ensures
        s.items[i as int] is Port && n <= 0xFFFF ==> committed(s).modbus.port == n,
        s.items[i as int] is PollInterval && 1 <= n <= 0xFFFF_FFFF_FFFF_FFFF ==> committed(
            s,
        ).poll.interval_seconds == n && committed(s).editing is None,
{
    law_commit_takes_the_typed_value(s, i, typed);
    number::law_printed_integer_is_a_numeral(n as int);
    number::lemma_decimal_digits(n);
    assert(text::is_digit(text::decimal(n)[0]));
}

/// While a field is edited, a key types its character where the field takes it
/// (anything but white space into the host, digits into the numbers),
/// Backspace takes the last character away, Enter enters the text, Esc closes
/// the editor, and every other key changes nothing. The draft changes upon
/// Enter alone.
pub proof fn law_keys_in_the_field_editor(s: Settings, i: nat, typed: Seq<char>, key: Key)
    requires
        s.editing == Some((i, typed)),
        i < s.items.len(),
    ensures
        ({
            let after = edit_pressed(s, key);
            let item = s.items[i as int];
            &&& key.code != KeyCode::Enter ==> after == (Settings { editing: after.editing, ..s })
            &&& match key.code {
                KeyCode::Enter => after == committed(s),
                KeyCode::Esc => after.editing is None,
                KeyCode::Backspace => after.editing == Some(
                    (
                        i,
                        if typed.len() > 0 {
                            typed.take(typed.len() - 1)
                        } else {
                            typed
                        },
                    ),
                ),
                KeyCode::Char(c) => after.editing == Some(
                    (
                        i,
                        if item is Host && !text::is_space(c) || (item is Port
                            || item is PollInterval) && '0' <= c <= '9' {
                            typed.push(c)
                        } else {
                            typed
                        },
                    ),
                ),
                _ => after == s,
            }
        }),
{
    if typed.len() > 0 {
        assert(typed.drop_last() =~= typed.take(typed.len() - 1));
    }
}

/// Each row turns over its own preference and no other; a temperature that is
/// not listed counts as shown.
pub proof fn law_each_row_has_its_own_flag(ui: UiPreferences, item: Item, name: Seq<char>)
    ensures
        ({
            let after = flipped(ui, item);
            &&& after.modes.heating == (ui.modes.heating != (item is ModeHeating))
            &&& after.modes.cooling == (ui.modes.cooling != (item is ModeCooling))
            &&& after.modes.climate == (ui.modes.climate != (item is ModeClimate))
            &&& after.exhaust_fan == (ui.exhaust_fan != (item is ExhaustFan))
            &&& item == Item::Temperature(name) ==> after.temperatures.dom().contains(name)
                && after.temperatures[name] == (ui.temperatures.dom().contains(name)
                && !ui.temperatures[name])
            &&& item != Item::Temperature(name) ==> after.temperatures.dom().contains(name)
                == ui.temperatures.dom().contains(name) && (ui.temperatures.dom().contains(name)
                ==> after.temperatures[name] == ui.temperatures[name])
        }),
{
}

/// The editor of a field opens on what the draft holds: the host as it is, the
/// numbers in decimal. Enter on any other row, and past the last one, changes
/// nothing.
pub proof fn law_field_editor_opens_on_the_draft(s: Settings)
    ensures
        ({
            let after = edit_started(s);
            let item = s.items[s.cursor as int];
            let on_field = s.cursor < s.items.len() && (item is Host || item is Port
                || item is PollInterval);
            &&& !on_field ==> after == s
            &&& on_field ==> after == (Settings { editing: after.editing, ..s })
                && (after.editing matches Some(edit) && edit.0 == s.cursor && match item {
                Item::Host => edit.1 == s.modbus.host,
                Item::Port => number::numeral(edit.1) == Some(s.modbus.port as int),
                _ => number::numeral(edit.1) == Some(s.poll.interval_seconds as int),
            })
        }),
{
    number::law_printed_integer_is_a_numeral(s.modbus.port as int);
    number::law_printed_integer_is_a_numeral(s.poll.interval_seconds as int);
}

/// On the rows, the arrows move the cursor by one within the rows, Space turns
/// the flag of the row over, Enter opens a field, and every other key changes
/// nothing.
pub proof fn law_keys_on_the_rows(s: Settings, key: Key)
    ensures
        ({
            let after = row_pressed(s, key);
            match key.code {
                KeyCode::Up => after == (Settings { cursor: after.cursor, ..s }) && after.cursor
                    == if s.cursor == 0 {
                    0
                } else {
                    s.cursor - 1
                },
                KeyCode::Down => after == (Settings { cursor: after.cursor, ..s }) && after.cursor
                    == if s.cursor + 1 < s.items.len() {
                    s.cursor + 1
                } else {
                    s.cursor
                },
                KeyCode::Char(c) => if c == ' ' && s.cursor < s.items.len() {
                    after == (Settings { ui: flipped(s.ui, s.items[s.cursor as int]), ..s })
                } else {
                    after == s
                },
                KeyCode::Enter => after == edit_started(s),
                _ => after == s,
            }
        }),
{
}

/// The rows are the host, the port and the interval, then one row for each
/// input register that is a temperature, in the order of the catalogue, then
/// the three modes and the exhaust fan.
pub proof fn law_rows_of_the_screen(registers: Seq<RegisterDef>, name: Seq<char>)
    ensures
        ({
            let all = settings_rows(registers);
            let n = all.len() as int;
            &&& n >= 7
            &&& all[0] == Item::Host && all[1] == Item::Port && all[2] == Item::PollInterval
            &&& all[n - 4] == Item::ModeHeating && all[n - 3] == Item::ModeCooling
            &&& all[n - 2] == Item::ModeClimate && all[n - 1] == Item::ExhaustFan
            &&& all.subrange(3, n - 4) == sensor_rows(registers)
        }),
        sensor_rows(registers).contains(Item::Temperature(name)) <==> exists|i: int|
            0 <= i < registers.len() && (#[trigger] registers[i]).name@ == name && registers[i].kind
                == RegisterKind::Input && registers[i].value_type
                == RegisterValueType::TemperatureX10,
        forall|i: int|
            0 <= i < sensor_rows(registers).len() ==> #[trigger] sensor_rows(
                registers,
            )[i] is Temperature,
{
    let all = settings_rows(registers);
    let n = all.len() as int;
    assert(all.subrange(3, n - 4) =~= sensor_rows(registers));
    lemma_sensor_rows(registers, name);
}

proof fn lemma_sensor_rows(registers: Seq<RegisterDef>, name: Seq<char>)
    ensures
        sensor_rows(registers).contains(Item::Temperature(name)) <==> exists|i: int|
            0 <= i < registers.len() && (#[trigger] registers[i]).name@ == name && registers[i].kind
                == RegisterKind::Input && registers[i].value_type
                == RegisterValueType::TemperatureX10,
        forall|i: int|
            0 <= i < sensor_rows(registers).len() ==> #[trigger] sensor_rows(
                registers,
            )[i] is Temperature,
    decreases registers.len(),
{
    if registers.len() > 0 {
        let rest = registers.drop_last();
        let last = registers.last();
        let row = Item::Temperature(name);
        lemma_sensor_rows(rest, name);
        let before = sensor_rows(rest);
        let all = sensor_rows(registers);
        if before.contains(row) {
            let k = choose|k: int| 0 <= k < before.len() && before[k] == row;
            assert(all[k] == row);
            let i = choose|i: int|
                0 <= i < rest.len() && (#[trigger] rest[i]).name@ == name && rest[i].kind
                    == RegisterKind::Input && rest[i].value_type
                    == RegisterValueType::TemperatureX10;
            assert(registers[i] == rest[i]);
        } else {
            if is_sensor(last) && last.name@ == name {
                assert(all[all.len() - 1] == row);
                assert(registers[registers.len() - 1] == last);
            }
            assert forall|i: int|
                0 <= i < registers.len() && (#[trigger] registers[i]).name@ == name
                    && registers[i].kind == RegisterKind::Input && registers[i].value_type
                    == RegisterValueType::TemperatureX10 implies is_sensor(last) && last.name@
                == name by {
                if i < rest.len() {
                    assert(rest[i] == registers[i]);
                }
            }
            if all.contains(row) {
                let k = choose|k: int| 0 <= k < all.len() && all[k] == row;
                if k < before.len() {
                    assert(before[k] == row);
                }
            }
        }
    }
}


/// What the screen stands for is all that it holds.
pub proof fn law_screen_as_it_is(state: SettingsState, i: int)
    ensures
        state@.modbus == state.draft_modbus@,
        state@.poll == state.draft_poll,
        state@.ui == state.draft_ui@,
        state@.cursor == state.cursor,
        state@.items.len() == state.items@.len(),
        0 <= i < state.items@.len() ==> state@.items[i] == match state.items@[i] {
            SettingsItem::Host => Item::Host,
            SettingsItem::Port => Item::Port,
            SettingsItem::PollInterval => Item::PollInterval,
            SettingsItem::Temperature(name) => Item::Temperature(name@),
            SettingsItem::ModeHeating => Item::ModeHeating,
            SettingsItem::ModeCooling => Item::ModeCooling,
            SettingsItem::ModeClimate => Item::ModeClimate,
            SettingsItem::ExhaustFan => Item::ExhaustFan,
        },
        state.editing is None <==> state@.editing is None,
        state.editing matches Some(buf) ==> state@.editing == Some(
            (buf.item_index as nat, buf.text@),
        ),
{
}

/// The flag of a row is the preference that the row is about.
pub proof fn law_flag_of_a_row(ui: UiPreferences, name: Seq<char>)
    ensures
        flag_of(ui, Item::Temperature(name)) <==> !(ui.temperatures.dom().contains(name)
            && !ui.temperatures[name]),
        flag_of(ui, Item::ModeHeating) == ui.modes.heating,
        flag_of(ui, Item::ModeCooling) == ui.modes.cooling,
        flag_of(ui, Item::ModeClimate) == ui.modes.climate,
        flag_of(ui, Item::ExhaustFan) == ui.exhaust_fan,
{
}

/// The screen opens on the configuration it is given, with the cursor on the
/// first row and no field open.
pub proof fn law_screen_opens_on_the_configuration(
    modbus: Endpoint,
    poll: PollConfig,
    ui: UiPreferences,
    registers: Seq<RegisterDef>,
)
    ensures
        ({
            let s = opened(modbus, poll, ui, registers);
            &&& s.modbus == modbus && s.poll == poll && s.ui == ui
            &&& s.items == settings_rows(registers) && s.cursor == 0 && s.editing is None
        }),
{
}

} // verus!
