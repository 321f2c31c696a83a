//! Configuration: bundled register catalogue + user-editable preferences.
//!
//! The register addresses, value types, and group labels are compiled into
//! the program; users do not touch them. The user-tunable subset (Modbus
//! endpoint, polling cadence, and the `ui` visibility toggles) lives in
//! `~/.gtc-control/config.yml`, which is created from the bundled defaults on
//! first launch and rewritten by the interactive Settings screen on close.
//!
//! This module holds the configuration values, their validation, and how the
//! two files are combined. Reading, writing and parsing the files is left to
//! the program.

use crate::domain::{self, find_definition, DefinitionFault, RegisterDef, RegisterDefError};
use crate::text::{self, push_decimal, same};
use vstd::prelude::*;

verus! {

/// Header written at the top of the user's config file so a human opening the
/// file in an editor knows what it is.
pub const USER_CONFIG_HEADER: &'static str =
    "# GTC_Control — user settings.\n#\n# Rewritten by the interactive Settings screen (press `s` in the main\n# view, edit, press `Esc` to save). Edits made in an external editor\n# are picked up on the next launch. Comments are not preserved across\n# Settings-screen saves; if you add them, expect them to be stripped.\n#\n# The register catalogue (addresses, value types) is baked into the\n# binary — only the fields you see below are user-tunable.\n\n";

/// Directory inside the home directory where the user settings are stored.
pub const CONFIG_DIR_NAME: &'static str = ".gtc-control";

/// File name for the user-editable settings file.
pub const CONFIG_FILE_NAME: &'static str = "config.yml";

// ---------------------------------------------------------------------
// Values
// ---------------------------------------------------------------------

/// Modbus TCP endpoint configuration.
#[derive(Debug)]
pub struct ModbusConfig {
    /// Hostname or IPv4 address of the GTC Ethernet module.
    pub host: String,
    /// TCP port; Modbus standard is 502.
    pub port: u16,
    /// Modbus unit/slave identifier, typically `1` for GTC.
    pub unit_id: u8,
    /// Per-request read timeout in milliseconds.
    pub timeout_ms: u64,
}

impl Clone for ModbusConfig {
    fn clone(&self) -> (r: ModbusConfig)
        ensures
            r == *self,
    {
        ModbusConfig {
            host: self.host.clone(),
            port: self.port,
            unit_id: self.unit_id,
            timeout_ms: self.timeout_ms,
        }
    }
}

/// What a [`ModbusConfig`] stands for.
#[verifier::ext_equal]
pub struct Endpoint {
    pub host: Seq<char>,
    pub port: u16,
    pub unit_id: u8,
    pub timeout_ms: u64,
}

impl View for ModbusConfig {
    type V = Endpoint;

    open spec fn view(&self) -> Endpoint {
        Endpoint {
            host: self.host@,
            port: self.port,
            unit_id: self.unit_id,
            timeout_ms: self.timeout_ms,
        }
    }
}

impl ModbusConfig {
    /// The endpoint as `host:port`.
    pub open spec fn endpoint_text(self) -> Seq<char> {
        self.host@ + ":"@ + text::decimal(self.port as nat)
    }

    /// The endpoint as `host:port`, the form a name lookup takes.
    pub fn endpoint(&self) -> (r: String)
        ensures
            r@ == self.endpoint_text(),
    {
        let mut out = self.host.clone();
        out.append(":");
        push_decimal(&mut out, self.port as u64);
        out
    }
}

/// Polling cadence for the interactive view.
#[derive(Debug, Clone, Copy, PartialEq, Eq, Structural)]
pub struct PollConfig {
    /// Interval between full register sweeps, in seconds.
    pub interval_seconds: u64,
}

impl PollConfig {
    /// The interval in use: a configured 0 counts as one second.
    pub open spec fn effective(self) -> u64 {
        if self.interval_seconds == 0 {
            1
        } else {
            self.interval_seconds
        }
    }

    /// The interval to poll at, at least one second.
    pub fn effective_seconds(&self) -> (r: u64)
        ensures
            r == self.effective(),
            r >= 1,
    {
        if self.interval_seconds == 0 {
            1
        } else {
            self.interval_seconds
        }
    }
}

/// Per-mode visibility toggles. `Ventilation` is intentionally missing: it is
/// always selectable.
#[derive(Debug, Clone, Copy, PartialEq, Eq, Structural)]
pub struct ModeVisibility {
    /// Heating-only mode shows up in the Mode cycle.
    pub heating: bool,
    /// Cooling-only mode shows up in the Mode cycle.
    pub cooling: bool,
    /// Climate (firmware "automatic") mode shows up in the Mode cycle.
    pub climate: bool,
}

impl Default for ModeVisibility {
    /// Every mode is selectable.
    fn default() -> (r: ModeVisibility)
        ensures
            r == (ModeVisibility { heating: true, cooling: true, climate: true }),
    {
        ModeVisibility { heating: true, cooling: true, climate: true }
    }
}

/// The map that a list of names and flags stands for; of two entries with
/// the same name the later one counts.
pub open spec fn flag_map(entries: Seq<(String, bool)>) -> Map<Seq<char>, bool>
    decreases entries.len(),
{
    if entries.len() == 0 {
        Map::empty()
    } else {
        flag_map(entries.drop_last()).insert(entries.last().0@, entries.last().1)
    }
}

/// No name occurs twice.
spec fn names_differ(entries: Seq<(String, bool)>) -> bool {
    forall|i: int, j: int|
        0 <= i < j < entries.len() ==> (#[trigger] entries[i]).0@ != (#[trigger] entries[j]).0@
}

/// Where `name` occurs in `entries`.
spec fn has_name(entries: Seq<(String, bool)>, name: Seq<char>) -> bool {
    exists|i: int| 0 <= i < entries.len() && (#[trigger] entries[i]).0@ == name
}

proof fn lemma_flag_map_absent(entries: Seq<(String, bool)>, name: Seq<char>)
    requires
        !has_name(entries, name),
    ensures
        !flag_map(entries).dom().contains(name),
    decreases entries.len(),
{
    if entries.len() > 0 {
        let rest = entries.drop_last();
        assert(!has_name(rest, name)) by {
            if has_name(rest, name) {
                let i = choose|i: int| 0 <= i < rest.len() && (#[trigger] rest[i]).0@ == name;
                assert(entries[i].0@ == name);
            }
        }
        assert(entries[entries.len() - 1].0@ != name);
        lemma_flag_map_absent(rest, name);
    }
}

proof fn lemma_flag_map_at(entries: Seq<(String, bool)>, i: int)
    requires
        0 <= i < entries.len(),
        forall|j: int| i < j < entries.len() ==> (#[trigger] entries[j]).0@ != entries[i].0@,
    ensures
        flag_map(entries).dom().contains(entries[i].0@),
        flag_map(entries)[entries[i].0@] == entries[i].1,
    decreases entries.len(),
{
    if i < entries.len() - 1 {
        let rest = entries.drop_last();
        assert(rest[i] == entries[i]);
        assert forall|j: int| i < j < rest.len() implies (#[trigger] rest[j]).0@ != rest[i].0@ by {
            assert(entries[j].0@ != entries[i].0@);
        }
        lemma_flag_map_at(rest, i);
        assert(entries[entries.len() - 1].0@ != entries[i].0@);
    }
}

proof fn lemma_flag_map_update(entries: Seq<(String, bool)>, i: int, name: String, flag: bool)
    requires
        names_differ(entries),
        0 <= i < entries.len(),
        entries[i].0@ == name@,
    ensures
        flag_map(entries.update(i, (name, flag))) == flag_map(entries).insert(name@, flag),
    decreases entries.len(),
{
    let next = entries.update(i, (name, flag));
    let rest = entries.drop_last();
    if i == entries.len() - 1 {
        assert(next.drop_last() =~= rest);
        assert(flag_map(next) =~= flag_map(entries).insert(name@, flag));
    } else {
        assert(rest[i] == entries[i]);
        assert(names_differ(rest)) by {
            assert forall|a: int, b: int| 0 <= a < b < rest.len() implies (#[trigger] rest[a]).0@
                != (#[trigger] rest[b]).0@ by {
                assert(entries[a].0@ != entries[b].0@);
            }
        }
        lemma_flag_map_update(rest, i, name, flag);
        assert(next.drop_last() =~= rest.update(i, (name, flag)));
        assert(next.last() == entries.last());
        assert(entries[i].0@ != entries[entries.len() - 1].0@);
        assert(flag_map(next) =~= flag_map(entries).insert(name@, flag));
    }
}

/// Flags by name, each name at most once.
#[derive(Debug)]
pub struct FlagMap {
    entries: Vec<(String, bool)>,
}

impl View for FlagMap {
    type V = Map<Seq<char>, bool>;

    closed spec fn view(&self) -> Map<Seq<char>, bool> {
        flag_map(self.entries@)
    }
}

impl FlagMap {
    #[verifier::type_invariant]
    spec fn well_formed(self) -> bool {
        names_differ(self.entries@)
    }

    /// No flags.
    pub fn new() -> (r: FlagMap)
        ensures
            r@ == Map::<Seq<char>, bool>::empty(),
    {
        FlagMap { entries: Vec::new() }
    }

    /// The flags of a list; of two entries with the same name the later one
    /// counts.
    pub fn from_entries(entries: Vec<(String, bool)>) -> (r: FlagMap)
        ensures
            r@ == flag_map(entries@),
    {
        let mut out = FlagMap::new();
        let mut i: usize = 0;
        assert(entries@.take(0) =~= Seq::empty());
        while i < entries.len()
            invariant
                i <= entries@.len(),
                out@ == flag_map(entries@.take(i as int)),
            decreases entries@.len() - i,
        {
            proof {
                let t = entries@.take(i + 1);
                assert(t.drop_last() =~= entries@.take(i as int));
                assert(t.last() == entries@[i as int]);
            }
            out.insert(entries[i].0.clone(), entries[i].1);
            i = i + 1;
        }
        assert(entries@.take(entries@.len() as int) =~= entries@);
        out
    }

    /// The position of `name`.
    fn position(&self, name: &str) -> (r: Option<usize>)
        ensures
            match r {
                Some(i) => i < self.entries@.len() && self.entries@[i as int].0@ == name@,
                None => !has_name(self.entries@, name@),
            },
    {
        let mut i: usize = 0;
        while i < self.entries.len()
            invariant
                i <= self.entries@.len(),
                forall|j: int| 0 <= j < i ==> (#[trigger] self.entries@[j]).0@ != name@,
            decreases self.entries@.len() - i,
        {
            if same(self.entries[i].0.as_str(), name) {
                return Some(i);
            }
            i = i + 1;
        }
        None
    }

    /// The flag of `name`.
    pub fn get(&self, name: &str) -> (r: Option<bool>)
        ensures
            r == (if self@.dom().contains(name@) {
                Some(self@[name@])
            } else {
                None
            }),
    {
        proof {
            use_type_invariant(self);
        }
        match self.position(name) {
            Some(i) => {
                proof {
                    assert forall|j: int| i < j < self.entries@.len() implies (
                    #[trigger] self.entries@[j]).0@ != self.entries@[i as int].0@ by {
                        assert(self.entries@[i as int].0@ != self.entries@[j].0@);
                    }
                    lemma_flag_map_at(self.entries@, i as int);
                }
                Some(self.entries[i].1)
            },
            None => {
                proof {
                    lemma_flag_map_absent(self.entries@, name@);
                }
                None
            },
        }
    }

    /// Sets the flag of `name`.
    pub fn insert(&mut self, name: String, flag: bool)
        ensures
            final(self)@ == old(self)@.insert(name@, flag),
    {
        proof {
            use_type_invariant(&*self);
        }
        let place = self.position(name.as_str());
        let mut entries: Vec<(String, bool)> = Vec::new();
        std::mem::swap(&mut entries, &mut self.entries);
        let ghost before = entries@;
        match place {
            Some(i) => {
                proof {
                    lemma_flag_map_update(before, i as int, name, flag);
                }
                entries.set(i, (name, flag));
                proof {
                    assert forall|a: int, b: int| 0 <= a < b < entries@.len() implies (
                    #[trigger] entries@[a]).0@ != (#[trigger] entries@[b]).0@ by {
                        assert(before[a].0@ != before[b].0@);
                    }
                }
            },
            None => {
                entries.push((name, flag));
                proof {
                    assert(entries@.drop_last() =~= before);
                    assert forall|a: int, b: int| 0 <= a < b < entries@.len() implies (
                    #[trigger] entries@[a]).0@ != (#[trigger] entries@[b]).0@ by {
                        if b < before.len() {
                            assert(before[a].0@ != before[b].0@);
                        } else {
                            assert(before[a].0@ != name@);
                        }
                    }
                }
            },
        }
        self.entries = entries;
    }

    /// The names with their flags.
    pub fn to_entries(&self) -> (r: Vec<(String, bool)>)
        ensures
            flag_map(r@) == self@,
            forall|i: int, j: int|
                0 <= i < j < r@.len() ==> (#[trigger] r@[i]).0@ != (#[trigger] r@[j]).0@,
    {
        proof {
            use_type_invariant(self);
        }
        let mut out: Vec<(String, bool)> = Vec::new();
        let mut i: usize = 0;
        while i < self.entries.len()
            invariant
                i <= self.entries@.len(),
                out@ == self.entries@.take(i as int),
            decreases self.entries@.len() - i,
        {
            out.push((self.entries[i].0.clone(), self.entries[i].1));
            i = i + 1;
            assert(out@ =~= self.entries@.take(i as int));
        }
        assert(out@ =~= self.entries@);
        out
    }

    /// Whether there are no flags.
    pub fn is_empty(&self) -> (r: bool)
        ensures
            r == (self@ == Map::<Seq<char>, bool>::empty()),
    {
        let r = self.entries.len() == 0;
        proof {
            if !r {
                let m = flag_map(self.entries@);
                assert(m.dom().contains(self.entries@.last().0@));
            }
        }
        r
    }
}

impl Clone for FlagMap {
    fn clone(&self) -> (r: FlagMap)
        ensures
            r@ == self@,
    {
        FlagMap::from_entries(self.to_entries())
    }
}

/// UI visibility preferences. Each entry hides or shows a row in the
/// interactive view without affecting the underlying register catalogue or
/// Modbus traffic.
#[derive(Debug)]
pub struct UiConfig {
    /// Whether each temperature sensor row is visible. Missing keys default
    /// to `true`; see [`Config::temperature_visible`].
    pub temperatures: FlagMap,
    /// Which thermal modes the user can pick from the Mode cycle.
    /// `Ventilation` is always selectable and is therefore not represented
    /// here.
    pub modes: ModeVisibility,
    /// Whether the exhaust-fan rows (current speed + setpoint) are visible.
    /// The supply fan is always shown.
    pub exhaust_fan: bool,
}

/// What a [`UiConfig`] stands for.
#[verifier::ext_equal]
pub struct UiPreferences {
    pub temperatures: Map<Seq<char>, bool>,
    pub modes: ModeVisibility,
    pub exhaust_fan: bool,
}

impl View for UiConfig {
    type V = UiPreferences;

    open spec fn view(&self) -> UiPreferences {
        UiPreferences {
            temperatures: self.temperatures@,
            modes: self.modes,
            exhaust_fan: self.exhaust_fan,
        }
    }
}

impl UiPreferences {
    /// The row of the temperature sensor `name` is shown.
    pub open spec fn shows_temperature(self, name: Seq<char>) -> bool {
        self.temperatures.dom().contains(name) ==> self.temperatures[name]
    }
}

impl UiConfig {
    /// Whether the row of the temperature sensor `name` is shown; sensors
    /// that are not listed are.
    pub fn temperature_visible(&self, name: &str) -> (r: bool)
        ensures
            r == self@.shows_temperature(name@),
    {
        match self.temperatures.get(name) {
            Some(flag) => flag,
            None => true,
        }
    }
}

impl Clone for UiConfig {
    fn clone(&self) -> (r: UiConfig)
        ensures
            r@ == self@,
    {
        UiConfig {
            temperatures: self.temperatures.clone(),
            modes: self.modes,
            exhaust_fan: self.exhaust_fan,
        }
    }
}

impl Default for UiConfig {
    /// Everything is shown: `exhaust_fan = true`, all modes selectable, no
    /// explicit temperature entries.
    fn default() -> (r: UiConfig)
        ensures
            r@ == (UiPreferences {
                temperatures: Map::empty(),
                modes: ModeVisibility { heating: true, cooling: true, climate: true },
                exhaust_fan: true,
            }),
    {
        UiConfig { temperatures: FlagMap::new(), modes: ModeVisibility::default(), exhaust_fan: true }
    }
}

/// The default preferences hide nothing.
pub proof fn law_default_shows_everything(ui: UiPreferences, name: Seq<char>)
    requires
        ui.temperatures == Map::<Seq<char>, bool>::empty(),
    ensures
        ui.shows_temperature(name),
{
}

/// Resolved configuration the rest of the crate sees.
#[derive(Debug)]
pub struct Config {
    /// Modbus endpoint settings.
    pub modbus: ModbusConfig,
    /// Polling cadence.
    pub poll: PollConfig,
    /// UI visibility preferences.
    pub ui: UiConfig,
    /// Register catalogue.
    pub registers: Vec<RegisterDef>,
}

impl Clone for Config {
    fn clone(&self) -> (r: Config)
        ensures
            r.modbus == self.modbus,
            r.poll == self.poll,
            r.ui@ == self.ui@,
            r.registers@ == self.registers@,
    {
        let registers = self.registers.clone();
        assert(registers@ =~= self.registers@);
        Config {
            modbus: self.modbus.clone(),
            poll: self.poll,
            ui: self.ui.clone(),
            registers,
        }
    }
}

impl Config {
    /// Look up a register definition by name.
    pub fn register(&self, name: &str) -> (r: Option<&RegisterDef>)
        ensures
            match domain::definition_named(self.registers@, name@) {
                Some(d) => r matches Some(x) && *x == d,
                None => r is None,
            },
    {
        find_definition(self.registers.as_slice(), name)
    }

    /// Whether a given temperature sensor row should be drawn in the
    /// interactive view. Defaults to `true` for register names not listed in
    /// [`UiConfig::temperatures`].
    pub fn temperature_visible(&self, register_name: &str) -> (r: bool)
        ensures
            r == self.ui@.shows_temperature(register_name@),
    {
        self.ui.temperature_visible(register_name)
    }
}


// ---------------------------------------------------------------------
// The two files
// ---------------------------------------------------------------------

/// The contents of the bundled configuration: the user-tunable defaults and
/// the register catalogue.
#[derive(Debug)]
pub struct BundledConfig {
    /// Default Modbus endpoint.
    pub modbus: ModbusConfig,
    /// Default polling cadence.
    pub poll: PollConfig,
    /// Default UI preferences.
    pub ui: UiConfig,
    /// Register catalogue.
    pub registers: Vec<RegisterDef>,
}

/// The contents of the user's config file: everything except the register
/// catalogue.
#[derive(Debug)]
pub struct UserConfig {
    /// Modbus endpoint.
    pub modbus: ModbusConfig,
    /// Polling cadence.
    pub poll: PollConfig,
    /// UI preferences.
    pub ui: UiConfig,
}

/// What a [`UserConfig`] stands for.
#[verifier::ext_equal]
pub struct UserSettings {
    pub modbus: Endpoint,
    pub poll: PollConfig,
    pub ui: UiPreferences,
}

impl View for UserConfig {
    type V = UserSettings;

    open spec fn view(&self) -> UserSettings {
        UserSettings { modbus: self.modbus@, poll: self.poll, ui: self.ui@ }
    }
}

impl Config {
    /// The settings that the user's config file holds.
    pub open spec fn user_settings(self) -> UserSettings {
        UserSettings { modbus: self.modbus@, poll: self.poll, ui: self.ui@ }
    }

    /// The part of the configuration that the user's config file holds.
    pub fn user_part(&self) -> (r: UserConfig)
        ensures
            r@ == self.user_settings(),
    {
        UserConfig { modbus: self.modbus.clone(), poll: self.poll, ui: self.ui.clone() }
    }
}

impl BundledConfig {
    /// The first user config file, made from the bundled defaults.
    pub fn user_defaults(&self) -> (r: UserConfig)
        ensures
            r@ == self.default_settings(),
    {
        UserConfig { modbus: self.modbus.clone(), poll: self.poll, ui: self.ui.clone() }
    }

    /// The resolved configuration: the user's settings with the bundled
    /// register catalogue.
    pub fn merge(self, user: UserConfig) -> (r: Config)
        ensures
            r.user_settings() == user@,
            r.registers@ == self.registers@,
    {
        Config { modbus: user.modbus, poll: user.poll, ui: user.ui, registers: self.registers }
    }
}

/// The text of the user's config file: the header, then the settings.
pub fn user_file_text(body: &str) -> (r: String)
    ensures
        r@ == USER_CONFIG_HEADER@ + body@,
{
    let mut out = USER_CONFIG_HEADER.to_owned();
    out.append(body);
    out
}

// ---------------------------------------------------------------------
// Errors
// ---------------------------------------------------------------------

/// What a [`ConfigError`] stands for.
pub enum ConfigFault {
    /// The host has no home directory.
    NoHome,
    /// Filesystem operation failed.
    Io { path: Seq<char>, source: Seq<char> },
    /// The bundled configuration failed to parse.
    BundledParse(Seq<char>),
    /// The user's config file failed to parse.
    UserParse { path: Seq<char>, source: Seq<char> },
    /// The settings could not be serialised.
    Serialize { path: Seq<char>, source: Seq<char> },
    /// One register definition is inconsistent.
    InvalidRegister { fault: DefinitionFault },
    /// Two or more registers share the same name.
    DuplicateRegisterName { name: Seq<char> },
}

impl ConfigFault {
    /// The fault in words.
    pub open spec fn text(self) -> Seq<char> {
        match self {
            ConfigFault::NoHome => "could not determine the user's home directory"@,
            ConfigFault::Io { path, source } => "filesystem error at "@ + path + ": "@ + source,
            ConfigFault::BundledParse(source) => "invalid bundled config YAML: "@ + source,
            ConfigFault::UserParse { path, source } => "invalid YAML in "@ + path + ": "@ + source,
            ConfigFault::Serialize { path, source } => "failed to serialise user config for "@
                + path + ": "@ + source,
            ConfigFault::InvalidRegister { fault } => "invalid register definition: "@
                + fault.text(),
            ConfigFault::DuplicateRegisterName { name } => "duplicate register name `"@ + name
                + "` in bundled config"@,
        }
    }
}

/// Errors raised while resolving, parsing, or validating the config.
#[derive(Debug, PartialEq, Eq)]
pub enum ConfigError {
    /// The host has no home directory.
    NoHome,
    /// Filesystem operation failed (create dir, read file, write file,
    /// rename temp file).
    Io {
        /// Path the operation was attempted against.
        path: String,
        /// Underlying OS error.
        source: String,
    },
    /// The bundled YAML failed to parse.
    BundledParse(String),
    /// The user's config file is not valid YAML or does not match the
    /// user-config schema.
    UserParse {
        /// Path that failed to parse.
        path: String,
        /// Underlying parse error.
        source: String,
    },
    /// Could not serialise the in-memory user config to YAML.
    Serialize {
        /// Target path of the (attempted) write.
        path: String,
        /// Underlying serialisation error.
        source: String,
    },
    /// One register failed [`RegisterDef::validate`].
    InvalidRegister {
        /// Underlying validation error.
        source: RegisterDefError,
    },
    /// Two or more registers share the same `name`.
    DuplicateRegisterName {
        /// The duplicate name.
        name: String,
    },
}

impl View for ConfigError {
    type V = ConfigFault;

    open spec fn view(&self) -> ConfigFault {
        match *self {
            ConfigError::NoHome => ConfigFault::NoHome,
            ConfigError::Io { path, source } => ConfigFault::Io { path: path@, source: source@ },
            ConfigError::BundledParse(source) => ConfigFault::BundledParse(source@),
            ConfigError::UserParse { path, source } => ConfigFault::UserParse {
                path: path@,
                source: source@,
            },
            ConfigError::Serialize { path, source } => ConfigFault::Serialize {
                path: path@,
                source: source@,
            },
            ConfigError::InvalidRegister { source } => ConfigFault::InvalidRegister {
                fault: source@,
            },
            ConfigError::DuplicateRegisterName { name } => ConfigFault::DuplicateRegisterName {
                name: name@,
            },
        }
    }
}

impl ConfigError {
    /// The error in words.
    pub fn to_string(&self) -> (r: String)
        ensures
            r@ == self@.text(),
    {
        match self {
            ConfigError::NoHome => "could not determine the user's home directory".to_owned(),
            ConfigError::Io { path, source } => {
                let mut out = "filesystem error at ".to_owned();
                out.append(path.as_str());
                out.append(": ");
                out.append(source.as_str());
                out
            },
            ConfigError::BundledParse(source) => {
                let mut out = "invalid bundled config YAML: ".to_owned();
                out.append(source.as_str());
                out
            },
            ConfigError::UserParse { path, source } => {
                let mut out = "invalid YAML in ".to_owned();
                out.append(path.as_str());
                out.append(": ");
                out.append(source.as_str());
                out
            },
            ConfigError::Serialize { path, source } => {
                let mut out = "failed to serialise user config for ".to_owned();
                out.append(path.as_str());
                out.append(": ");
                out.append(source.as_str());
                out
            },
            ConfigError::InvalidRegister { source } => {
                let mut out = "invalid register definition: ".to_owned();
                out.append(source.to_string().as_str());
                out
            },
            ConfigError::DuplicateRegisterName { name } => {
                let mut out = "duplicate register name `".to_owned();
                out.append(name.as_str());
                out.append("` in bundled config");
                out
            },
        }
    }
}

// ---------------------------------------------------------------------
// Validation
// ---------------------------------------------------------------------

/// One of `registers` has the given name.
pub open spec fn has_register(registers: Seq<RegisterDef>, name: Seq<char>) -> bool {
    exists|i: int| 0 <= i < registers.len() && (#[trigger] registers[i]).name@ == name
}

/// The first thing that is wrong with the catalogue, going through it in
/// order: a definition that is inconsistent, or one whose name came before.
pub open spec fn catalogue_fault(registers: Seq<RegisterDef>) -> Option<ConfigFault>
    decreases registers.len(),
{
    if registers.len() == 0 {
        None
    } else {
        let before = registers.drop_last();
        let last = registers.last();
        match catalogue_fault(before) {
            Some(fault) => Some(fault),
            None => match last.fault() {
                Some(fault) => Some(ConfigFault::InvalidRegister { fault }),
                None => if has_register(before, last.name@) {
                    Some(ConfigFault::DuplicateRegisterName { name: last.name@ })
                } else {
                    None
                },
            },
        }
    }
}

proof fn lemma_catalogue_fault_stays(registers: Seq<RegisterDef>, i: int)
    requires
        0 <= i <= registers.len(),
        catalogue_fault(registers.take(i)) is Some,
    ensures
        catalogue_fault(registers) == catalogue_fault(registers.take(i)),
    decreases registers.len() - i,
{
    if i < registers.len() {
        let before = registers.drop_last();
        assert(before.take(i) =~= registers.take(i));
        lemma_catalogue_fault_stays(before, i);
    } else {
        assert(registers.take(i) =~= registers);
    }
}

/// Check that every register definition is consistent and that no two share
/// a name.
///
/// # Errors
/// Returns [`ConfigError::InvalidRegister`] or
/// [`ConfigError::DuplicateRegisterName`] for the first register that fails.
pub fn validate_registers(registers: &[RegisterDef]) -> (r: Result<(), ConfigError>)
    ensures
        text::outcome(r) == match catalogue_fault(registers@) {
            Some(fault) => Err(fault),
            None => Ok(()),
        },
{
    let mut i: usize = 0;
    assert(registers@.take(0) =~= Seq::empty());
    while i < registers.len()
        invariant
            i <= registers@.len(),
            catalogue_fault(registers@.take(i as int)) is None,
        decreases registers@.len() - i,
    {
        let ghost before = registers@.take(i as int);
        let ghost next = registers@.take(i + 1);
        assert(next.drop_last() =~= before);
        assert(next.last() == registers@[i as int]);
        match registers[i].validate() {
            Ok(()) => {},
            Err(source) => {
                proof {
                    lemma_catalogue_fault_stays(registers@, i + 1);
                }
                return Err(ConfigError::InvalidRegister { source });
            },
        }
        let mut j: usize = 0;
        while j < i
            invariant
                j <= i < registers@.len(),
                before == registers@.take(i as int),
                next == registers@.take(i + 1),
                next.drop_last() == before,
                next.last() == registers@[i as int],
                catalogue_fault(before) is None,
                registers@[i as int].fault() is None,
                forall|k: int|
                    0 <= k < j ==> (#[trigger] before[k]).name@ != registers@[i as int].name@,
            decreases i - j,
        {
            assert(before[j as int] == registers@[j as int]);
            if same(registers[j].name.as_str(), registers[i].name.as_str()) {
                proof {
                    assert(has_register(before, registers@[i as int].name@));
                    lemma_catalogue_fault_stays(registers@, i + 1);
                }
                return Err(
                    ConfigError::DuplicateRegisterName { name: registers[i].name.clone() },
                );
            }
            j = j + 1;
        }
        i = i + 1;
    }
    assert(registers@.take(registers@.len() as int) =~= registers@);
    Ok(())
}

/// A catalogue passes exactly if every definition is consistent and no two
/// share a name.
pub proof fn law_valid_catalogue(registers: Seq<RegisterDef>)
    ensures
        catalogue_fault(registers) is None <==> (forall|i: int|
            0 <= i < registers.len() ==> (#[trigger] registers[i]).valid()) && (forall|
            i: int,
            j: int,
        |
            0 <= i < j < registers.len() ==> (#[trigger] registers[i]).name@ != (
            #[trigger] registers[j]).name@),
    decreases registers.len(),
{
    if registers.len() > 0 {
        let before = registers.drop_last();
        let n = before.len() as int;
        law_valid_catalogue(before);
        if catalogue_fault(registers) is None {
            assert forall|i: int| 0 <= i < registers.len() implies (
            #[trigger] registers[i]).valid() by {
                if i < n {
                    assert(before[i].valid());
                }
            }
            assert forall|i: int, j: int| 0 <= i < j < registers.len() implies (
            #[trigger] registers[i]).name@ != (#[trigger] registers[j]).name@ by {
                if j < n {
                    assert(before[i].name@ != before[j].name@);
                } else {
                    assert(before[i].name@ != registers[n].name@);
                }
            }
        }
        if (forall|i: int| 0 <= i < registers.len() ==> (#[trigger] registers[i]).valid()) && (
        forall|i: int, j: int|
            0 <= i < j < registers.len() ==> (#[trigger] registers[i]).name@ != (
            #[trigger] registers[j]).name@) {
            assert forall|i: int| 0 <= i < n implies (#[trigger] before[i]).valid() by {
                assert(registers[i].valid());
            }
            assert forall|i: int, j: int| 0 <= i < j < n implies (#[trigger] before[i]).name@ != (
            #[trigger] before[j]).name@ by {
                assert(registers[i].name@ != registers[j].name@);
            }
            assert(registers[n].valid());
            assert(!has_register(before, registers.last().name@)) by {
                if has_register(before, registers.last().name@) {
                    let k = choose|k: int|
                        0 <= k < n && (#[trigger] before[k]).name@ == registers.last().name@;
                    assert(registers[k].name@ != registers[n].name@);
                }
            }
        }
    }
}

/// In a catalogue that passes, looking up the name of a register finds that
/// register.
pub proof fn law_lookup_is_exact(registers: Seq<RegisterDef>, i: int)
    requires
        catalogue_fault(registers) is None,
        0 <= i < registers.len(),
    ensures
        domain::definition_named(registers, registers[i].name@) == Some(registers[i]),
{
    law_valid_catalogue(registers);
    domain::law_unique_name_is_found(registers, i);
}

// ---------------------------------------------------------------------
// Loading
// ---------------------------------------------------------------------

/// What loading the configuration gives.
#[derive(Debug)]
pub struct Loaded {
    /// The resolved configuration.
    pub config: Config,
    /// The user's config file to create, if there is none yet.
    pub first_file: Option<UserConfig>,
}

/// The settings in the user's config file, or those of the bundled
/// configuration where there is no file yet.
pub open spec fn loaded_settings(defaults: UserSettings, stored: Option<UserSettings>) -> UserSettings {
    match stored {
        Some(settings) => settings,
        None => defaults,
    }
}

/// What an optional user config stands for.
pub open spec fn stored_settings(stored: Option<UserConfig>) -> Option<UserSettings> {
    match stored {
        Some(user) => Some(user@),
        None => None,
    }
}

impl BundledConfig {
    /// The user-tunable defaults.
    pub open spec fn default_settings(self) -> UserSettings {
        UserSettings { modbus: self.modbus@, poll: self.poll, ui: self.ui@ }
    }
}

/// `r` is what loading `bundled` and `stored` gives.
pub open spec fn loads(
    bundled: BundledConfig,
    stored: Option<UserConfig>,
    r: Result<Loaded, ConfigError>,
) -> bool {
    match catalogue_fault(bundled.registers@) {
        Some(fault) => r matches Err(error) && error@ == fault,
        None => r matches Ok(loaded) && {
            &&& loaded.config.registers@ == bundled.registers@
            &&& loaded.config.user_settings() == loaded_settings(
                bundled.default_settings(),
                stored_settings(stored),
            )
            &&& stored_settings(loaded.first_file) == (if stored is Some {
                None
            } else {
                Some(bundled.default_settings())
            })
        },
    }
}

/// Resolve the configuration from the bundled one and the contents of the
/// user's config file, if it exists: the bundled register catalogue with the
/// user's settings. On first launch, when there is no file, the bundled
/// defaults are used and are to be written as the user's config file.
///
/// # Errors
/// Returns [`ConfigError::InvalidRegister`] or
/// [`ConfigError::DuplicateRegisterName`] for a catalogue that does not pass
/// [`validate_registers`].
pub fn load_or_init(bundled: BundledConfig, stored: Option<UserConfig>) -> (r: Result<
    Loaded,
    ConfigError,
>)
    ensures
        loads(bundled, stored, r),
{
    match validate_registers(bundled.registers.as_slice()) {
        Ok(()) => {},
        Err(error) => {
            return Err(error);
        },
    }
    match stored {
        Some(user) => Ok(Loaded { config: bundled.merge(user), first_file: None }),
        None => {
            let first = bundled.user_defaults();
            let user = bundled.user_defaults();
            Ok(Loaded { config: bundled.merge(user), first_file: Some(first) })
        },
    }
}

/// Settings that were saved are the settings that the next launch loads, and
/// what the first launch writes is what every later launch loads.
pub proof fn law_saved_settings_are_loaded(defaults: UserSettings, saved: UserSettings)
    ensures
        loaded_settings(defaults, Some(saved)) == saved,
        loaded_settings(defaults, Some(loaded_settings(defaults, None))) == loaded_settings(
            defaults,
            None,
        ),
{
}


/// Polls are at least a second apart, and as far apart as configured.
pub proof fn law_interval_in_use(poll: PollConfig)
    ensures
        poll.effective() >= 1,
        poll.interval_seconds >= 1 ==> poll.effective() == poll.interval_seconds,
        poll.interval_seconds == 0 ==> poll.effective() == 1,
{
}

/// A sensor is hidden exactly if it is listed as hidden.
pub proof fn law_unlisted_sensors_are_shown(ui: UiPreferences, name: Seq<char>)
    ensures
        ui.shows_temperature(name) <==> !(ui.temperatures.contains_key(name)
            && !ui.temperatures[name]),
{
}

/// Of the entries with one name the last one counts, and a name without an
/// entry is not listed.
pub proof fn law_last_flag_counts(entries: Seq<(String, bool)>, name: Seq<char>, i: int)
    ensures
        (forall|j: int| 0 <= j < entries.len() ==> (#[trigger] entries[j]).0@ != name)
            ==> !flag_map(entries).contains_key(name),
        0 <= i < entries.len() && entries[i].0@ == name && (forall|j: int|
            i < j < entries.len() ==> (#[trigger] entries[j]).0@ != name) ==> flag_map(
            entries,
        ).contains_key(name) && flag_map(entries)[name] == entries[i].1,
    decreases entries.len(),
{
    if entries.len() > 0 {
        let rest = entries.drop_last();
        law_last_flag_counts(rest, name, i);
        if forall|j: int| 0 <= j < entries.len() ==> (#[trigger] entries[j]).0@ != name {
            assert forall|j: int| 0 <= j < rest.len() implies (#[trigger] rest[j]).0@ != name by {
                assert(entries[j].0@ != name);
            }
            assert(entries[entries.len() - 1].0@ != name);
        }
        if 0 <= i < entries.len() - 1 && entries[i].0@ == name && (forall|j: int|
            i < j < entries.len() ==> (#[trigger] entries[j]).0@ != name) {
            assert(rest[i] == entries[i]);
            assert forall|j: int| i < j < rest.len() implies (#[trigger] rest[j]).0@ != name by {
                assert(entries[j].0@ != name);
            }
            assert(entries[entries.len() - 1].0@ != name);
        }
    }
}

/// The catalogue is refused for the first register that fails: for the rule
/// that its definition breaks, or, if it breaks none, for a name that came
/// before.
pub proof fn law_first_faulty_register_is_told(registers: Seq<RegisterDef>, i: int)
    requires
        0 <= i < registers.len(),
        forall|j: int| 0 <= j < i ==> (#[trigger] registers[j]).valid(),
        forall|j: int, k: int|
            0 <= j < k < i ==> (#[trigger] registers[j]).name@ != (#[trigger] registers[k]).name@,
    ensures
        registers[i].fault() is Some ==> catalogue_fault(registers) == Some(
            ConfigFault::InvalidRegister { fault: registers[i].fault()->0 },
        ),
        registers[i].fault() is None && (exists|j: int|
            0 <= j < i && (#[trigger] registers[j]).name@ == registers[i].name@)
            ==> catalogue_fault(registers) == Some(
            ConfigFault::DuplicateRegisterName { name: registers[i].name@ },
        ),
{
    let before = registers.take(i);
    let next = registers.take(i + 1);
    assert(next.drop_last() =~= before);
    assert(next.last() == registers[i]);
    assert forall|j: int| 0 <= j < before.len() implies (#[trigger] before[j]).valid() by {
        assert(registers[j].valid());
    }
    assert forall|j: int, k: int| 0 <= j < k < before.len() implies (#[trigger] before[j]).name@
        != (#[trigger] before[k]).name@ by {
        assert(registers[j].name@ != registers[k].name@);
    }
    law_valid_catalogue(before);
    if exists|j: int| 0 <= j < i && (#[trigger] registers[j]).name@ == registers[i].name@ {
        let j = choose|j: int| 0 <= j < i && (#[trigger] registers[j]).name@ == registers[i].name@;
        assert(before[j].name@ == registers[i].name@);
    }
    if catalogue_fault(next) is Some {
        lemma_catalogue_fault_stays(registers, i + 1);
    }
}

/// What the user's config file holds is the endpoint, the interval and the
/// preferences of the configuration, all of them as they are.
pub proof fn law_user_file_holds_the_settings(config: Config, user: UserConfig)
    ensures
        config.user_settings().modbus == config.modbus@,
        config.user_settings().poll.interval_seconds == config.poll.interval_seconds,
        config.user_settings().ui == config.ui@,
        user@.modbus == user.modbus@,
        user@.poll.interval_seconds == user.poll.interval_seconds,
        user@.ui == user.ui@,
        config.modbus@.host == config.modbus.host@,
        config.modbus@.port == config.modbus.port,
        config.modbus@.unit_id == config.modbus.unit_id,
        config.modbus@.timeout_ms == config.modbus.timeout_ms,
        config.ui@.temperatures == config.ui.temperatures@,
        config.ui@.modes == config.ui.modes,
        config.ui@.exhaust_fan == config.ui.exhaust_fan,
{
}


/// An error of the configuration tells in its words the file, the register and
/// what went wrong.
pub proof fn law_config_faults_in_words(
    path: Seq<char>,
    source: Seq<char>,
    fault: DefinitionFault,
    name: Seq<char>,
)
    ensures
        (ConfigFault::Io { path, source }).text() == "filesystem error at "@ + path + ": "@
            + source,
        ConfigFault::BundledParse(source).text() == "invalid bundled config YAML: "@ + source,
        (ConfigFault::UserParse { path, source }).text() == "invalid YAML in "@ + path + ": "@
            + source,
        (ConfigFault::Serialize { path, source }).text() == "failed to serialise user config for "@
            + path + ": "@ + source,
        (ConfigFault::InvalidRegister { fault }).text() == "invalid register definition: "@
            + fault.text(),
        (ConfigFault::DuplicateRegisterName { name }).text() == "duplicate register name `"@ + name
            + "` in bundled config"@,
{
}

/// The endpoint is the host and the port with a colon between them.
pub proof fn law_endpoint_is_host_and_port(config: ModbusConfig)
    ensures
        config.endpoint_text() == config.host@ + ":"@ + text::decimal(config.port as nat),
{
}


/// A catalogue that passes is loaded as it is. With a file of the user, the
/// endpoint, the interval and the preferences are those of the file, and no
/// file is to be written; without one, they are the bundled ones, and a file
/// with the bundled ones is to be written. A catalogue that does not pass is
/// not loaded.
pub proof fn law_loaded_configuration(
    bundled: BundledConfig,
    stored: Option<UserConfig>,
    r: Result<Loaded, ConfigError>,
)
    requires
        loads(bundled, stored, r),
    ensures
        r is Ok <==> (forall|i: int|
            0 <= i < bundled.registers@.len() ==> (#[trigger] bundled.registers@[i]).valid())
            && domain::distinct_names(bundled.registers@),
        r matches Ok(loaded) ==> {
            let config = loaded.config;
            &&& config.registers@ == bundled.registers@
            &&& stored matches Some(user) ==> config.modbus@ == user.modbus@ && config.poll
                == user.poll && config.ui@ == user.ui@ && loaded.first_file is None
            &&& stored is None ==> config.modbus@ == bundled.modbus@ && config.poll == bundled.poll
                && config.ui@ == bundled.ui@ && (loaded.first_file matches Some(first)
                && first.modbus@ == bundled.modbus@ && first.poll == bundled.poll && first.ui@
                == bundled.ui@)
        },
{
    law_valid_catalogue(bundled.registers@);
}

} // verus!
