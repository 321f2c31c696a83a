//! Controls: what can be edited or toggled, within which range and by which
//! step, and how a typed number is checked and stepped.
//!
//! Numbers that the program computes with are held in parts of 2^-29; see
//! [`PARTS`].

use crate::binary32::{self, round_to_24};
use crate::config::{ModeVisibility, UiConfig, UiPreferences};
use crate::decimal::{self, Number, Reading, Size};
use crate::domain::{self, ModeSelection, RegisterDef};
use crate::text::{self, push_decimal, same, trim};
use vstd::arithmetic::div_mod::{
    lemma_add_mod_noop, lemma_fundamental_div_mod, lemma_mod_add_multiples_vanish,
    lemma_mod_self_0, lemma_small_mod,
};
use vstd::prelude::*;

verus! {

/// The number 1, in the parts that numbers are held in.
pub const PARTS: u64 = 0x2000_0000;

// ---------------------------------------------------------------------
// Controls
// ---------------------------------------------------------------------

/// Identity of an editable / toggleable control. Each variant maps to a
/// canonical register name and a specific edit behaviour.
#[derive(Debug, Clone, Copy, PartialEq, Eq, Structural)]
pub enum ControlId {
    /// The unit is on or off.
    Power,
    /// The operation mode.
    Mode,
    /// The air-out temperature.
    Setpoint,
    /// The supply-fan speed.
    SupplyFan,
    /// The exhaust-fan speed.
    ExhaustFan,
}

impl ControlId {
    /// The name of the register behind the control.
    pub open spec fn register_name(self) -> Seq<char> {
        match self {
            ControlId::Power => "power"@,
            ControlId::Mode => "mode_system"@,
            ControlId::Setpoint => "temp_setpoint"@,
            ControlId::SupplyFan => "fan_speed_supply"@,
            ControlId::ExhaustFan => "fan_speed_exhaust"@,
        }
    }

    /// The label of the control.
    pub open spec fn name(self) -> Seq<char> {
        match self {
            ControlId::Power => "Power"@,
            ControlId::Mode => "Mode"@,
            ControlId::Setpoint => "Setpoint"@,
            ControlId::SupplyFan => "Supply fan"@,
            ControlId::ExhaustFan => "Exhaust fan"@,
        }
    }

    /// The control is toggled rather than edited.
    pub open spec fn toggles(self) -> bool {
        self == ControlId::Power || self == ControlId::Mode
    }

    /// The step, in [`PARTS`].
    pub open spec fn step_parts(self) -> u64 {
        match self {
            ControlId::Setpoint => 0x1000_0000,
            ControlId::SupplyFan | ControlId::ExhaustFan => 0x2000_0000,
            ControlId::Power | ControlId::Mode => 0,
        }
    }

    /// The smallest value.
    pub open spec fn min(self) -> u64 {
        match self {
            ControlId::Setpoint => 15,
            ControlId::SupplyFan | ControlId::ExhaustFan => 1,
            ControlId::Power | ControlId::Mode => 0,
        }
    }

    /// The largest value.
    pub open spec fn max(self) -> u64 {
        match self {
            ControlId::Setpoint => 30,
            ControlId::SupplyFan | ControlId::ExhaustFan => 10,
            ControlId::Power | ControlId::Mode => 1,
        }
    }

    /// The name of the register behind the control.
    pub fn register(self) -> (r: &'static str)
        ensures
            r@ == self.register_name(),
    {
        match self {
            ControlId::Power => "power",
            ControlId::Mode => "mode_system",
            ControlId::Setpoint => "temp_setpoint",
            ControlId::SupplyFan => "fan_speed_supply",
            ControlId::ExhaustFan => "fan_speed_exhaust",
        }
    }

    /// The label of the control.
    pub fn label(self) -> (r: &'static str)
        ensures
            r@ == self.name(),
    {
        match self {
            ControlId::Power => "Power",
            ControlId::Mode => "Mode",
            ControlId::Setpoint => "Setpoint",
            ControlId::SupplyFan => "Supply fan",
            ControlId::ExhaustFan => "Exhaust fan",
        }
    }

    /// Whether the control is toggled rather than edited.
    pub fn is_toggle(self) -> (r: bool)
        ensures
            r == self.toggles(),
    {
        matches!(self, ControlId::Power | ControlId::Mode)
    }

    /// By how much the arrow keys change the value, in [`PARTS`]: half a
    /// degree, or one fan step.
    pub fn step(self) -> (r: u64)
        ensures
            r == self.step_parts(),
    {
        match self {
            ControlId::Setpoint => 0x1000_0000,
            ControlId::SupplyFan | ControlId::ExhaustFan => 0x2000_0000,
            ControlId::Power | ControlId::Mode => 0,
        }
    }

    /// The smallest and the largest value.
    ///
    /// Fan setpoints are never `0`: an unfanned heater burns out within
    /// seconds. [`crate::app::set_value`] refuses the same value.
    pub fn range(self) -> (r: (u64, u64))
        ensures
            r.0 == self.min(),
            r.1 == self.max(),
    {
        match self {
            ControlId::Setpoint => (15, 30),
            ControlId::SupplyFan | ControlId::ExhaustFan => (1, 10),
            ControlId::Power | ControlId::Mode => (0, 1),
        }
    }

    /// How many decimal places the value is shown with.
    pub fn decimals(self) -> (r: usize)
        ensures
            r == (if self == ControlId::Setpoint {
                1usize
            } else {
                0usize
            }),
    {
        match self {
            ControlId::Setpoint => 1,
            ControlId::SupplyFan | ControlId::ExhaustFan | ControlId::Power | ControlId::Mode => 0,
        }
    }
}

/// A writable register of the given name is in the catalogue.
pub open spec fn can_write(registers: Seq<RegisterDef>, name: Seq<char>) -> bool {
    exists|i: int|
        0 <= i < registers.len() && (#[trigger] registers[i]).writable && registers[i].name@ == name
}

/// The control is offered: its register can be written, and the exhaust fan
/// is not hidden.
pub open spec fn offered(
    control: ControlId,
    registers: Seq<RegisterDef>,
    ui: UiPreferences,
) -> bool {
    can_write(registers, control.register_name()) && (control == ControlId::ExhaustFan
        ==> ui.exhaust_fan)
}

/// The control if it is offered.
pub open spec fn if_offered(
    control: ControlId,
    registers: Seq<RegisterDef>,
    ui: UiPreferences,
) -> Seq<ControlId> {
    if offered(control, registers, ui) {
        seq![control]
    } else {
        Seq::empty()
    }
}

/// The controls that are offered, from top to bottom.
pub open spec fn offered_controls(registers: Seq<RegisterDef>, ui: UiPreferences) -> Seq<
    ControlId,
> {
    if_offered(ControlId::Power, registers, ui) + if_offered(ControlId::Mode, registers, ui)
        + if_offered(ControlId::Setpoint, registers, ui) + if_offered(
        ControlId::SupplyFan,
        registers,
        ui,
    ) + if_offered(ControlId::ExhaustFan, registers, ui)
}

fn writable(registers: &[RegisterDef], name: &str) -> (r: bool)
    ensures
        r == can_write(registers@, name@),
{
    let mut i: usize = 0;
    while i < registers.len()
        invariant
            i <= registers@.len(),
            forall|j: int|
                0 <= j < i ==> !((#[trigger] registers@[j]).writable && registers@[j].name@
                    == name@),
        decreases registers@.len() - i,
    {
        if registers[i].writable && same(registers[i].name.as_str(), name) {
            return true;
        }
        i = i + 1;
    }
    false
}

fn push_if_offered(
    out: &mut Vec<ControlId>,
    control: ControlId,
    registers: &[RegisterDef],
    ui: &UiConfig,
)
    ensures
        final(out)@ == old(out)@ + if_offered(control, registers@, ui@),
{
    let ghost before = out@;
    if writable(registers, control.register()) && (ui.exhaust_fan || !matches!(
        control,
        ControlId::ExhaustFan
    )) {
        out.push(control);
    }
    assert(out@ =~= before + if_offered(control, registers@, ui@));
}

/// The controls whose register can be written, in their order on the screen;
/// the exhaust fan only if it is not hidden.
pub fn active_controls(registers: &[RegisterDef], ui: &UiConfig) -> (r: Vec<ControlId>)
    ensures
        r@ == offered_controls(registers@, ui@),
{
    let mut out: Vec<ControlId> = Vec::new();
    push_if_offered(&mut out, ControlId::Power, registers, ui);
    push_if_offered(&mut out, ControlId::Mode, registers, ui);
    push_if_offered(&mut out, ControlId::Setpoint, registers, ui);
    push_if_offered(&mut out, ControlId::SupplyFan, registers, ui);
    push_if_offered(&mut out, ControlId::ExhaustFan, registers, ui);
    assert(out@ =~= offered_controls(registers@, ui@));
    out
}

/// Every control that is shown can be written, and hiding the exhaust fan
/// hides its control.
pub proof fn law_shown_controls_are_writable(registers: Seq<RegisterDef>, ui: UiPreferences, i: int)
    requires
        0 <= i < offered_controls(registers, ui).len(),
    ensures
        can_write(registers, offered_controls(registers, ui)[i].register_name()),
        !ui.exhaust_fan ==> offered_controls(registers, ui)[i] != ControlId::ExhaustFan,
{
}

/// A control is shown exactly if it is offered.
pub proof fn law_offered_controls_are_shown(
    registers: Seq<RegisterDef>,
    ui: UiPreferences,
    control: ControlId,
)
    ensures
        offered_controls(registers, ui).contains(control) <==> offered(control, registers, ui),
{
    let a = if_offered(ControlId::Power, registers, ui);
    let b = if_offered(ControlId::Mode, registers, ui);
    let c = if_offered(ControlId::Setpoint, registers, ui);
    let d = if_offered(ControlId::SupplyFan, registers, ui);
    let e = if_offered(ControlId::ExhaustFan, registers, ui);
    let all = offered_controls(registers, ui);
    if offered(control, registers, ui) {
        let at = match control {
            ControlId::Power => 0,
            ControlId::Mode => a.len() as int,
            ControlId::Setpoint => (a.len() + b.len()) as int,
            ControlId::SupplyFan => (a.len() + b.len() + c.len()) as int,
            ControlId::ExhaustFan => (a.len() + b.len() + c.len() + d.len()) as int,
        };
        assert(all[at] == control);
    }
}

/// The preferences hide no control but that of the exhaust fan: the supply
/// fan, for one, is always offered where it can be written.
pub proof fn law_only_the_exhaust_fan_can_be_hidden(
    registers: Seq<RegisterDef>,
    a: UiPreferences,
    b: UiPreferences,
    control: ControlId,
)
    requires
        control != ControlId::ExhaustFan,
    ensures
        offered(control, registers, a) == offered(control, registers, b),
        offered(control, registers, a) == can_write(registers, control.register_name()),
{
}

// ---------------------------------------------------------------------
// Modes
// ---------------------------------------------------------------------

/// The name of a mode in the mode picker.
pub open spec fn mode_title(mode: ModeSelection) -> Seq<char> {
    match mode {
        ModeSelection::Ventilation => "Ventilation"@,
        ModeSelection::Heating => "Heating"@,
        ModeSelection::Cooling => "Cooling"@,
        ModeSelection::Auto => "Climate"@,
    }
}

/// Display label for the mode picker: Ventilation / Heating / Cooling /
/// Climate.
pub fn mode_ui_label(mode: ModeSelection) -> (r: &'static str)
    ensures
        r@ == mode_title(mode),
{
    match mode {
        ModeSelection::Ventilation => "Ventilation",
        ModeSelection::Heating => "Heating",
        ModeSelection::Cooling => "Cooling",
        ModeSelection::Auto => "Climate",
    }
}

/// The mode if `shown`.
pub open spec fn if_shown(mode: ModeSelection, shown: bool) -> Seq<ModeSelection> {
    if shown {
        seq![mode]
    } else {
        Seq::empty()
    }
}

/// The modes of the picker, in order.
pub open spec fn mode_options(vis: ModeVisibility) -> Seq<ModeSelection> {
    seq![ModeSelection::Ventilation] + if_shown(ModeSelection::Heating, vis.heating) + if_shown(
        ModeSelection::Cooling,
        vis.cooling,
    ) + if_shown(ModeSelection::Auto, vis.climate)
}

/// The mode picker order: Ventilation is always present, the other three
/// follow per [`UiConfig::modes`].
pub fn mode_picker_options(vis: ModeVisibility) -> (r: Vec<ModeSelection>)
    ensures
        r@ == mode_options(vis),
{
    let mut out: Vec<ModeSelection> = Vec::new();
    out.push(ModeSelection::Ventilation);
    if vis.heating {
        out.push(ModeSelection::Heating);
    }
    if vis.cooling {
        out.push(ModeSelection::Cooling);
    }
    if vis.climate {
        out.push(ModeSelection::Auto);
    }
    assert(out@ =~= mode_options(vis));
    out
}

/// Where `mode` stands in `options`; a mode that is not among them counts as
/// the first.
pub open spec fn mode_place(options: Seq<ModeSelection>, mode: ModeSelection) -> int {
    if options.contains(mode) {
        options.index_of(mode)
    } else {
        0
    }
}

/// The mode behind `current` in the cycle.
pub open spec fn next_mode(current: ModeSelection, vis: ModeVisibility) -> ModeSelection {
    let options = mode_options(vis);
    options[(mode_place(options, current) + 1) % (options.len() as int)]
}

proof fn lemma_options_differ(vis: ModeVisibility)
    ensures
        mode_options(vis).no_duplicates(),
        mode_options(vis).len() > 0,
        mode_options(vis)[0] == ModeSelection::Ventilation,
{
}

proof fn lemma_step_place(place: int, n: int)
    requires
        0 <= place < n,
    ensures
        (place + 1) % n == (if place + 1 == n {
            0
        } else {
            place + 1
        }),
        place % n == place,
        (place + n) % n == place,
{
    lemma_small_mod(place as nat, n as nat);
    if place + 1 == n {
        lemma_mod_self_0(n);
    } else {
        lemma_small_mod((place + 1) as nat, n as nat);
    }
    lemma_mod_add_multiples_vanish(place, n);
}

/// Advance to the next mode the user has enabled. If `current` was hidden by
/// the user (i.e. it isn't in the picker list), the cycle resumes from the
/// first entry.
pub fn next_mode_in_cycle(current: ModeSelection, vis: ModeVisibility) -> (r: ModeSelection)
    ensures
        r == next_mode(current, vis),
{
    let options = mode_picker_options(vis);
    let mut place: usize = 0;
    let mut found: bool = false;
    let mut i: usize = 0;
    proof {
        lemma_options_differ(vis);
    }
    while i < options.len()
        invariant
            i <= options@.len(),
            options@.len() > 0,
            found ==> place < i && options@[place as int] == current,
            !found ==> place == 0 && forall|j: int| 0 <= j < i ==> options@[j] != current,
        decreases options@.len() - i,
    {
        if !found && options[i] == current {
            place = i;
            found = true;
        }
        i = i + 1;
    }
    proof {
        if found {
            assert(options@.contains(current));
            assert(options@[options@.index_of(current)] == current);
            assert(options@.index_of(current) == place);
        }
        lemma_step_place(place as int, options@.len() as int);
    }
    if place + 1 == options.len() {
        options[0]
    } else {
        options[place + 1]
    }
}

/// The mode that `steps` presses lead to.
pub open spec fn mode_after(current: ModeSelection, vis: ModeVisibility, steps: nat) -> ModeSelection
    decreases steps,
{
    if steps == 0 {
        current
    } else {
        next_mode(mode_after(current, vis, (steps - 1) as nat), vis)
    }
}

/// The cycle only leads to modes that are enabled, and Ventilation always is.
pub proof fn law_mode_cycle_stays_enabled(current: ModeSelection, vis: ModeVisibility)
    ensures
        mode_options(vis).contains(next_mode(current, vis)),
        mode_options(vis).contains(ModeSelection::Ventilation),
        mode_options(vis).contains(ModeSelection::Heating) <==> vis.heating,
        mode_options(vis).contains(ModeSelection::Cooling) <==> vis.cooling,
        mode_options(vis).contains(ModeSelection::Auto) <==> vis.climate,
{
    let options = mode_options(vis);
    let n = options.len() as int;
    let i = (mode_place(options, current) + 1) % n;
    assert(0 <= i < n);
    assert(options[i] == next_mode(current, vis));
    assert(options[0] == ModeSelection::Ventilation);
    if vis.heating {
        assert(options[1] == ModeSelection::Heating);
    }
    if vis.cooling {
        assert(options[if vis.heating {
            2int
        } else {
            1int
        }] == ModeSelection::Cooling);
    }
    if vis.climate {
        assert(options[n - 1] == ModeSelection::Auto);
    }
}

proof fn lemma_mode_after(vis: ModeVisibility, place: int, steps: nat)
    requires
        0 <= place < mode_options(vis).len(),
    ensures
        mode_after(mode_options(vis)[place], vis, steps) == mode_options(vis)[(place + steps)
            % (mode_options(vis).len() as int)],
    decreases steps,
{
    let options = mode_options(vis);
    let n = options.len() as int;
    lemma_options_differ(vis);
    if steps > 0 {
        let before = (steps - 1) as nat;
        lemma_mode_after(vis, place, before);
        let at = (place + before) % n;
        let m = options[at];
        assert(options.contains(m));
        assert(options[options.index_of(m)] == m);
        assert(options.index_of(m) == at);
        lemma_step_place(at, n);
        lemma_add_mod_noop(place + before, 1, n);
        if n > 1 {
            lemma_small_mod(1, n as nat);
        } else {
            lemma_fundamental_div_mod(at + 1, n);
            lemma_fundamental_div_mod(place + steps, n);
        }
    } else {
        lemma_step_place(place, n);
    }
}

/// From an enabled mode, as many presses as there are enabled modes lead back
/// to it, and every enabled mode is met on the way.
pub proof fn law_mode_cycle_returns(vis: ModeVisibility, from: int, to: int)
    requires
        0 <= from < mode_options(vis).len(),
        0 <= to < mode_options(vis).len(),
    ensures
        mode_after(mode_options(vis)[from], vis, mode_options(vis).len()) == mode_options(
            vis,
        )[from],
        exists|steps: nat|
            steps < mode_options(vis).len() && #[trigger] mode_after(
                mode_options(vis)[from],
                vis,
                steps,
            ) == mode_options(vis)[to],
{
    let options = mode_options(vis);
    let n = options.len() as int;
    lemma_mode_after(vis, from, n as nat);
    lemma_step_place(from, n);
    lemma_step_place(to, n);
    let steps = (if to >= from {
        to - from
    } else {
        to - from + n
    }) as nat;
    lemma_mode_after(vis, from, steps);
    assert(mode_after(options[from], vis, steps) == options[to]);
}


// ---------------------------------------------------------------------
// Typed numbers
// ---------------------------------------------------------------------

/// The single-precision number `y` as the control shows it: the setpoint
/// with one decimal place, the others as integers, ties going to the even
/// digit.
pub open spec fn number_text(control: ControlId, y: nat) -> Seq<char> {
    if control == ControlId::Setpoint {
        domain::tenths_text(binary32::half_even(10 * y, binary32::one()) as int)
    } else {
        text::decimal(binary32::half_even(y, binary32::one()))
    }
}

/// `y` is one of the values of the control's range, given without its sign.
pub open spec fn in_range(control: ControlId, negative: bool, y: nat) -> bool {
    &&& negative ==> y == 0
    &&& control.min() * binary32::one() <= y <= control.max() * binary32::one()
}

/// The message for a number outside the range.
pub open spec fn range_text(control: ControlId) -> Seq<char> {
    "must be in "@ + text::decimal(control.min() as nat) + "..="@ + text::decimal(
        control.max() as nat,
    )
}

/// What checking the typed text `raw` gives.
pub open spec fn checked(control: ControlId, raw: Seq<char>) -> Result<(), Seq<char>> {
    let trimmed = text::trimmed(raw);
    if trimmed.len() == 0 {
        Err("value is empty"@)
    } else {
        match decimal::number(trimmed) {
            Number::Empty | Number::Invalid => Err("`"@ + trimmed + "` is not a number"@),
            Number::NotANumber | Number::Infinite { .. } => Err(range_text(control)),
            Number::Finite { negative, num, den } => if in_range(
                control,
                negative,
                binary32::nearest(num, den),
            ) {
                Ok(())
            } else {
                Err(range_text(control))
            },
        }
    }
}

/// A result with a message, taken by its text.
pub open spec fn message_of(r: Result<(), String>) -> Result<(), Seq<char>> {
    match r {
        Ok(_) => Ok(()),
        Err(message) => Err(message@),
    }
}

fn out_of_range(control: ControlId) -> (r: String)
    ensures
        r@ == range_text(control),
{
    let (min, max) = control.range();
    let mut out = "must be in ".to_owned();
    push_decimal(&mut out, min);
    out.append("..=");
    push_decimal(&mut out, max);
    out
}

fn size_in_range(control: ControlId, negative: bool, size: Size) -> (r: bool)
    ensures
        forall|y: nat| #[trigger] size.measures(y) ==> r == in_range(control, negative, y),
{
    let (min, max) = control.range();
    match size {
        Size::Tiny { zero } => min == 0 && (!negative || zero),
        Size::Huge => false,
        Size::Units(u) => {
            if u < 0x100_0000 {
                return false;
            }
            let r = !negative && min * PARTS <= u && u <= max * PARTS;
            assert forall|y: nat| #[trigger] size.measures(y) implies r == in_range(
                control,
                negative,
                y,
            ) by {
                let big = binary32::step29();
                assert(min * binary32::one() == (min * PARTS) * big);
                assert(max * binary32::one() == (max * PARTS) * big);
            }
            r
        },
    }
}

/// Check that the typed text is a number of the control's range.
///
/// # Errors
/// Returns what to show to the user: that the text is empty, that it is not a
/// number, or which range the number must lie in.
pub fn validate_buffer(control: ControlId, text: &str) -> (r: Result<(), String>)
    ensures
        message_of(r) == checked(control, text@),
{
    let trimmed = trim(text);
    if trimmed.is_empty() {
        return Err("value is empty".to_owned());
    }
    match decimal::read(trimmed) {
        Reading::Empty | Reading::Invalid => {
            let mut message = "`".to_owned();
            message.append(trimmed);
            message.append("` is not a number");
            Err(message)
        },
        Reading::NotANumber => Err(out_of_range(control)),
        Reading::Infinite { negative } => Err(out_of_range(control)),
        Reading::Finite { negative, size } => {
            if size_in_range(control, negative, size) {
                Ok(())
            } else {
                Err(out_of_range(control))
            }
        },
    }
}

/// A number the user is about to set: the control and the typed text.
#[derive(Debug)]
pub struct EditBuffer {
    /// The control that is edited.
    pub control: ControlId,
    /// What has been typed.
    pub text: String,
}

/// The signed number `negative`, `y` moved by one step, rounded to single
/// precision.
pub open spec fn moved(control: ControlId, negative: bool, y: nat, up: bool) -> int {
    let step = control.step_parts() * binary32::step29();
    let from = if negative {
        -y
    } else {
        y as int
    };
    let to = if up {
        from + step
    } else {
        from - step
    };
    if to < 0 {
        -(binary32::round24((-to) as nat, 1))
    } else {
        binary32::round24(to as nat, 1) as int
    }
}

/// `v` cut back to the range of the control.
pub open spec fn clamped(control: ControlId, v: int) -> nat {
    let (min, max) = (control.min() * binary32::one(), control.max() * binary32::one());
    if v < min {
        min as nat
    } else if v > max {
        max as nat
    } else {
        v as nat
    }
}

/// The text after one press of an arrow key on a text that stands for `n`;
/// what is not a number counts as zero. A control that is toggled has a step
/// of zero; stepping a negative zero down by it keeps the sign.
pub open spec fn stepped(control: ControlId, n: Number, up: bool) -> Seq<char> {
    match n {
        Number::Empty | Number::Invalid => number_text(
            control,
            clamped(control, moved(control, false, 0, up)),
        ),
        Number::NotANumber => "NaN"@,
        Number::Infinite { negative } => number_text(
            control,
            (if negative {
                control.min()
            } else {
                control.max()
            } * binary32::one()) as nat,
        ),
        Number::Finite { negative, num, den } => {
            let y = binary32::nearest(num, den);
            if control.toggles() && negative && y == 0 && !up {
                "-0"@
            } else {
                number_text(control, clamped(control, moved(control, negative, y, up)))
            }
        },
    }
}


/// `n / PARTS` rounded to the nearest integer, a tie going to the even one.
fn round_parts(n: u64) -> (r: u64)
    ensures
        r as nat == binary32::half_even(n as nat, PARTS as nat),
{
    let q: u64 = n / PARTS;
    let rem: u64 = n % PARTS;
    if 2 * rem < PARTS || (2 * rem == PARTS && q % 2 == 0) {
        q
    } else {
        q + 1
    }
}

/// The number of `parts` as the control shows it.
pub fn format_for(control: ControlId, parts: u64) -> (r: String)
    requires
        parts <= 0x1999_9999_9999_9999,
    ensures
        r@ == number_text(control, (parts * binary32::step29()) as nat),
{
    proof {
        let big = binary32::step29();
        assert(PARTS * big == binary32::one());
        binary32::lemma_half_even_scale((10 * parts) as nat, PARTS as nat, big);
        binary32::lemma_half_even_scale(parts as nat, PARTS as nat, big);
        assert(10 * (parts * big) == (10 * parts) * big);
    }
    if control.decimals() == 1 {
        let tenths: u64 = round_parts(10 * parts);
        let mut out = text::decimal_text(tenths / 10);
        out.append(".");
        push_decimal(&mut out, tenths % 10);
        out
    } else {
        text::decimal_text(round_parts(parts))
    }
}

/// The number that a step leads to, before it is rounded.
spec fn target(control: ControlId, negative: bool, y: nat, up: bool) -> int {
    let step = control.step_parts() * binary32::step29();
    (if negative {
        -y
    } else {
        y as int
    }) + (if up {
        step
    } else {
        -step
    })
}

proof fn lemma_low(control: ControlId, negative: bool, y: nat, up: bool)
    requires
        ({
            let to = target(control, negative, y, up);
            if control == ControlId::Setpoint {
                to <= binary32::one()
            } else {
                3 * to <= (3 * control.min() + 1) * binary32::one()
            }
        }),
    ensures
        number_text(control, clamped(control, moved(control, negative, y, up))) == number_text(
            control,
            (control.min() * PARTS * binary32::step29()) as nat,
        ),
{
    let one = binary32::one();
    let to = target(control, negative, y, up);
    let min = control.min();
    assert(min * PARTS * binary32::step29() == min * one);
    if to >= 0 {
        binary32::lemma_round24_close(to as nat, 1);
        assert((to as nat) / 1 == to);
        let x = moved(control, negative, y, up);
        if control != ControlId::Setpoint && x >= min * one {
            let r = (x - min * one) as nat;
            assert(2 * r < one);
            binary32::lemma_div_mod(x as nat, one, min as nat, r);
            binary32::lemma_div_mod((min * one) as nat, one, min as nat, 0);
        }
    }
}

proof fn lemma_high(control: ControlId, y: nat, up: bool)
    requires
        y >= 8192 * binary32::one(),
    ensures
        number_text(control, clamped(control, moved(control, false, y, up))) == number_text(
            control,
            (control.max() * PARTS * binary32::step29()) as nat,
        ),
{
    let one = binary32::one();
    let to = target(control, false, y, up);
    assert(control.max() * PARTS * binary32::step29() == control.max() * one);
    assert(to >= 8191 * one);
    binary32::lemma_round24_close(to as nat, 1);
    assert((to as nat) / 1 == to);
}

/// The text that one step leads to from a finite number.
spec fn stepped_finite(control: ControlId, negative: bool, y: nat, up: bool) -> Seq<char> {
    if control.toggles() && negative && y == 0 && !up {
        "-0"@
    } else {
        number_text(control, clamped(control, moved(control, negative, y, up)))
    }
}

fn step_finite(control: ControlId, negative: bool, size: Size, up: bool) -> (r: String)
    ensures
        forall|y: nat| #[trigger]
            size.measures(y) ==> r@ == stepped_finite(control, negative, y, up),
{
    let (min, max) = control.range();
    let step = control.step();
    if negative {
        match size {
            Size::Tiny { zero: true } => {
                if control.is_toggle() && !up {
                    return "-0".to_owned();
                }
            },
            _ => {},
        }
        assert forall|y: nat| #[trigger] size.measures(y) implies number_text(
            control,
            (min * PARTS * binary32::step29()) as nat,
        ) == stepped_finite(control, negative, y, up) by {
            lemma_low(control, negative, y, up);
        }
        return format_for(control, min * PARTS);
    }
    match size {
        Size::Tiny { zero } => {
            assert forall|y: nat| #[trigger] size.measures(y) implies number_text(
                control,
                (min * PARTS * binary32::step29()) as nat,
            ) == stepped_finite(control, negative, y, up) by {
                lemma_low(control, negative, y, up);
            }
            format_for(control, min * PARTS)
        },
        Size::Huge => {
            assert forall|y: nat| #[trigger] size.measures(y) implies number_text(
                control,
                (max * PARTS * binary32::step29()) as nat,
            ) == stepped_finite(control, negative, y, up) by {
                lemma_high(control, y, up);
            }
            format_for(control, max * PARTS)
        },
        Size::Units(u) => {
            if u >= 0x800_0000_0000 || (!up && u < step + 0x100_0000) {
                assert forall|y: nat| #[trigger] size.measures(y) implies number_text(
                    control,
                    (min * PARTS * binary32::step29()) as nat,
                ) == stepped_finite(control, negative, y, up) by {
                    lemma_low(control, negative, y, up);
                }
                return format_for(control, min * PARTS);
            }
            let m: u64 = if up {
                u + step
            } else {
                u - step
            };
            let z = round_to_24(m);
            let c: u64 = if z < min * PARTS {
                min * PARTS
            } else if z > max * PARTS {
                max * PARTS
            } else {
                z
            };
            assert forall|y: nat| #[trigger] size.measures(y) implies number_text(
                control,
                (c * binary32::step29()) as nat,
            ) == stepped_finite(control, negative, y, up) by {
                let big = binary32::step29();
                assert(target(control, negative, y, up) == m * big);
                binary32::lemma_round24_scale(m as nat);
                assert(moved(control, negative, y, up) == z * big);
                assert(min * binary32::one() == (min * PARTS) * big);
                assert(max * binary32::one() == (max * PARTS) * big);
            }
            format_for(control, c)
        },
    }
}

/// Move the number in the buffer by one step and cut it back to the range of
/// the control. What is not a number counts as zero.
pub fn apply_step(buf: &mut EditBuffer, up: bool)
    ensures
        final(buf).control == old(buf).control,
        final(buf).text@ == stepped(
            old(buf).control,
            decimal::number(text::trimmed(old(buf).text@)),
            up,
        ),
{
    let control = buf.control;
    let (min, max) = control.range();
    let text = match decimal::read(trim(buf.text.as_str())) {
        Reading::Empty | Reading::Invalid => {
            let zero = Size::Tiny { zero: true };
            assert(zero.measures(0));
            step_finite(control, false, zero, up)
        },
        Reading::NotANumber => "NaN".to_owned(),
        Reading::Infinite { negative } => {
            let bound: u64 = if negative {
                min
            } else {
                max
            };
            assert(bound * PARTS * binary32::step29() == bound * binary32::one());
            format_for(control, bound * PARTS)
        },
        Reading::Finite { negative, size } => step_finite(control, negative, size, up),
    };
    buf.text = text;
}


// ---------------------------------------------------------------------
// Laws of the typed numbers
// ---------------------------------------------------------------------

proof fn lemma_whole_numbers_are_exact(k: nat, den: nat)
    requires
        1 <= k <= 30,
        den == 1 || den == 10,
    ensures
        binary32::nearest(k * den, den) == k * binary32::one(),
{
    let q = k * 0x2000_0000;
    let u = binary32::unit(q);
    reveal_with_fuel(binary32::unit, 12);
    assert(u == 64 || u == 128 || u == 256 || u == 512 || u == 1024);
    let a = q / u;
    assert(q == a * u + 0) by (nonlinear_arith)
        requires
            a == q / u,
            q == k * 0x2000_0000,
            u == 64 || u == 128 || u == 256 || u == 512 || u == 1024,
    ;
    assert((k * den) * 0x2000_0000 == q * den + 0) by (nonlinear_arith)
        requires
            q == k * 0x2000_0000,
    ;
    binary32::lemma_nearest29(k * den, den, q, 0, a, 0);
    assert(u * a == a * u) by (nonlinear_arith);
    assert(binary32::step29() * q == k * binary32::one());
}

proof fn lemma_nearest_bounds(num: nat, den: nat, low: nat, high: nat)
    requires
        den == 1 || den == 10,
        1 <= low <= 30,
        1 <= high <= 30,
        low * den <= num <= high * den,
    ensures
        low * binary32::one() <= binary32::nearest(num, den) <= high * binary32::one(),
{
    let one = binary32::one();
    let n = num * one;
    let q = n / den;
    lemma_whole_numbers_are_exact(low, den);
    lemma_whole_numbers_are_exact(high, den);
    binary32::lemma_round24_close(n, den);
    lemma_fundamental_div_mod(n as int, den as int);
    if num > low * den {
        assert(n >= (low * den + 1) * one) by (nonlinear_arith)
            requires
                n == num * one,
                num >= low * den + 1,
        ;
        assert((low * den + 1) * one == low * den * one + one) by (nonlinear_arith);
    }
    if num < high * den {
        assert(n <= (high * den - 1) * one) by (nonlinear_arith)
            requires
                n == num * one,
                num <= high * den - 1,
        ;
        assert((high * den - 1) * one == high * den * one - one) by (nonlinear_arith);
    }
}

/// One press of an arrow key in the editor of a setpoint or fan always leads
/// to a text that can be entered, whatever was typed before, unless that
/// spells "not a number".
pub proof fn law_step_leads_into_range(control: ControlId, n: Number, up: bool)
    requires
        !control.toggles(),
        n !is NotANumber,
    ensures
        checked(control, stepped(control, n, up)) == Ok::<(), Seq<char>>(()),
{
    let one = binary32::one();
    let (min, max) = (control.min() as nat, control.max() as nat);
    let v = match n {
        Number::Empty | Number::Invalid => clamped(control, moved(control, false, 0, up)),
        Number::NotANumber => 0,
        Number::Infinite { negative } => (if negative {
            control.min()
        } else {
            control.max()
        } * one) as nat,
        Number::Finite { negative, num, den } => clamped(
            control,
            moved(control, negative, binary32::nearest(num, den), up),
        ),
    };
    assert(min * one <= v <= max * one);
    let t = number_text(control, v);
    assert(stepped(control, n, up) == t);
    if control == ControlId::Setpoint {
        let k = binary32::half_even(10 * v, one);
        lemma_fundamental_div_mod((10 * v) as int, one as int);
        assert(150 <= k <= 300);
        domain::lemma_tenths_text_trimmed(k as int);
        decimal::law_printed_tenths_stand_for_themselves(k, false);
        lemma_nearest_bounds(k, 10, 15, 30);
        reveal_strlit(".");
        assert(t.len() > 0);
    } else {
        let k = binary32::half_even(v, one);
        lemma_fundamental_div_mod(v as int, one as int);
        assert(1 <= k <= 10);
        domain::lemma_signed_decimal_trimmed(k as int);
        decimal::law_printed_integer_stands_for_itself(k);
        crate::number::lemma_decimal_digits(k);
        lemma_nearest_bounds(k, 1, 1, 10);
    }
}

/// A fan setpoint that the editor accepts, read as the integer that goes on
/// the bus, lies in 1..=10: zero never gets through.
pub proof fn law_accepted_fan_setpoint_is_safe(control: ControlId, raw: Seq<char>, word: u16)
    requires
        control == ControlId::SupplyFan || control == ControlId::ExhaustFan,
        checked(control, raw) is Ok,
        domain::RegisterValueType::U16.parsed_word(raw) == Ok::<u16, domain::ValueFault>(word),
    ensures
        1 <= word <= 10,
{
    let s = text::trimmed(raw);
    let t = if s[0] == '+' {
        s.skip(1)
    } else {
        s
    };
    assert(s.len() > 0);
    crate::number::law_integer_in_range(s, 0, 0xFFFF);
    assert(crate::number::scan_digits(t, false, 0, 0xFFFF) == Ok::<
        int,
        crate::number::IntFault,
    >(word as int));
    crate::number::lemma_scan_value(t, false, 0, 0xFFFF);
    assert(s[0] != '-') by {
        if s[0] == '-' {
            assert(text::is_digit(t[0]));
        }
    }
    decimal::lemma_digits_number(t, false);
    assert(decimal::number(s) == (Number::Finite { negative: false, num: word as nat, den: 1 }));
    let one = binary32::one();
    let y = binary32::nearest(word as nat, 1);
    binary32::lemma_round24_close(word as nat * one, 1);
    assert((word as nat * one) / 1 == word as nat * one);
    if word == 0 {
        assert(y < one);
    }
    if word > 10 {
        assert(word as nat * one >= 11 * one) by (nonlinear_arith)
            requires
                word > 10,
        ;
    }
}


// ---------------------------------------------------------------------
// What the controls are for
// ---------------------------------------------------------------------

/// Each control acts on its own register, under its own label; the power and
/// the mode are toggled, the others edited. The setpoint goes from 15 to 30
/// in halves, a fan from 1 to 10 in ones.
pub proof fn law_controls_and_their_limits(control: ControlId)
    ensures
        match control {
            ControlId::Power => control.register_name() == "power"@ && control.name() == "Power"@
                && control.toggles(),
            ControlId::Mode => control.register_name() == "mode_system"@ && control.name()
                == "Mode"@ && control.toggles(),
            ControlId::Setpoint => control.register_name() == "temp_setpoint"@ && control.name()
                == "Setpoint"@ && !control.toggles() && control.min() == 15 && control.max() == 30
                && 2 * control.step_parts() == PARTS,
            ControlId::SupplyFan => control.register_name() == "fan_speed_supply"@ && control.name()
                == "Supply fan"@ && !control.toggles() && control.min() == 1 && control.max() == 10
                && control.step_parts() == PARTS,
            ControlId::ExhaustFan => control.register_name() == "fan_speed_exhaust"@
                && control.name() == "Exhaust fan"@ && !control.toggles() && control.min() == 1
                && control.max() == 10 && control.step_parts() == PARTS,
        },
{
}

/// Where a control stands on the screen, counted from the top.
pub open spec fn screen_place(control: ControlId) -> int {
    match control {
        ControlId::Power => 0,
        ControlId::Mode => 1,
        ControlId::Setpoint => 2,
        ControlId::SupplyFan => 3,
        ControlId::ExhaustFan => 4,
    }
}

/// The controls on the screen are exactly those whose register is in the
/// catalogue and writable, the exhaust fan only where it is shown, each once
/// and in the order power, mode, setpoint, supply fan, exhaust fan.
pub proof fn law_controls_on_the_screen(
    registers: Seq<RegisterDef>,
    ui: UiPreferences,
    control: ControlId,
    i: int,
    j: int,
)
    ensures
        ({
            let shown = offered_controls(registers, ui);
            let name = match control {
                ControlId::Power => "power"@,
                ControlId::Mode => "mode_system"@,
                ControlId::Setpoint => "temp_setpoint"@,
                ControlId::SupplyFan => "fan_speed_supply"@,
                ControlId::ExhaustFan => "fan_speed_exhaust"@,
            };
            &&& shown.contains(control) <==> (exists|k: int|
                0 <= k < registers.len() && (#[trigger] registers[k]).writable
                    && registers[k].name@ == name) && (control == ControlId::ExhaustFan
                ==> ui.exhaust_fan)
            &&& 0 <= i < j < shown.len() ==> screen_place(shown[i]) < screen_place(shown[j])
        }),
{
    law_offered_controls_are_shown(registers, ui, control);
}

/// The mode is one that the user has enabled; Ventilation always is.
pub open spec fn enabled(mode: ModeSelection, vis: ModeVisibility) -> bool {
    match mode {
        ModeSelection::Ventilation => true,
        ModeSelection::Heating => vis.heating,
        ModeSelection::Cooling => vis.cooling,
        ModeSelection::Auto => vis.climate,
    }
}

/// How many places on from `a` the mode `b` is in the circle Ventilation,
/// Heating, Cooling, Climate; a mode is four places on from itself.
pub open spec fn places_on(a: ModeSelection, b: ModeSelection) -> int {
    let place = |mode: ModeSelection|
        match mode {
            ModeSelection::Ventilation => 0int,
            ModeSelection::Heating => 1,
            ModeSelection::Cooling => 2,
            ModeSelection::Auto => 3,
        };
    if place(a) < place(b) {
        place(b) - place(a)
    } else {
        4 + place(b) - place(a)
    }
}

/// One step of the cycle leads to the nearest enabled mode that comes next in
/// the circle Ventilation, Heating, Cooling, Climate; a mode that is not
/// enabled counts as Ventilation. So where another mode is enabled the step
/// never stays at an enabled mode.
pub proof fn law_mode_cycle_goes_to_the_successor(
    current: ModeSelection,
    vis: ModeVisibility,
    other: ModeSelection,
)
    ensures
        ({
            let from = if enabled(current, vis) {
                current
            } else {
                ModeSelection::Ventilation
            };
            let next = next_mode(current, vis);
            &&& enabled(next, vis)
            &&& enabled(other, vis) ==> places_on(from, next) <= places_on(from, other)
            &&& enabled(other, vis) && other != from ==> next != from
        }),
{
    let options = mode_options(vis);
    let n = options.len() as int;
    let after_heating: int = 1 + if vis.heating {
        1int
    } else {
        0
    };
    let after_cooling: int = after_heating + if vis.cooling {
        1int
    } else {
        0
    };
    assert(options[0] == ModeSelection::Ventilation);
    assert(vis.heating ==> options[1] == ModeSelection::Heating);
    assert(vis.cooling ==> options[after_heating] == ModeSelection::Cooling);
    assert(vis.climate ==> options[after_cooling] == ModeSelection::Auto);
    assert(n == after_cooling + if vis.climate {
        1int
    } else {
        0
    });
    let place: int = if !enabled(current, vis) {
        0
    } else {
        match current {
            ModeSelection::Ventilation => 0,
            ModeSelection::Heating => 1,
            ModeSelection::Cooling => after_heating,
            ModeSelection::Auto => after_cooling,
        }
    };
    law_mode_cycle_stays_enabled(current, vis);
    lemma_options_differ(vis);
    if enabled(current, vis) {
        assert(options[place] == current);
        assert(options.contains(current));
        assert(options[options.index_of(current)] == current);
        assert(options.index_of(current) == place);
    } else {
        assert(!options.contains(current));
    }
    assert(mode_place(options, current) == place);
    lemma_step_place(place, n);
}

/// The modes of the picker are exactly the enabled ones, each by its own title.
pub proof fn law_picker_shows_the_enabled_modes(mode: ModeSelection, vis: ModeVisibility)
    ensures
        mode_options(vis).contains(mode) <==> enabled(mode, vis),
        mode_title(mode) == match mode {
            ModeSelection::Ventilation => "Ventilation"@,
            ModeSelection::Heating => "Heating"@,
            ModeSelection::Cooling => "Cooling"@,
            ModeSelection::Auto => "Climate"@,
        },
{
    law_mode_cycle_stays_enabled(mode, vis);
}

/// A fan setpoint in whole steps is accepted exactly from 1 to 10, and a
/// temperature in tenths exactly from 15.0 to 30.0.
pub proof fn law_setpoints_within_the_limits_are_accepted(control: ControlId, k: nat)
    requires
        k <= 0xFFFF,
    ensures
        control == ControlId::SupplyFan || control == ControlId::ExhaustFan ==> (checked(
            control,
            text::decimal(k),
        ) is Ok <==> 1 <= k <= 10),
        control == ControlId::Setpoint ==> (checked(control, domain::tenths_text(k as int)) is Ok
            <==> 150 <= k <= 300),
{
    let one = binary32::one();
    domain::lemma_signed_decimal_trimmed(k as int);
    domain::lemma_tenths_text_trimmed(k as int);
    decimal::law_printed_integer_stands_for_itself(k);
    decimal::law_printed_tenths_stand_for_themselves(k, false);
    crate::number::lemma_decimal_digits(k);
    reveal_strlit(".");
    assert(text::decimal(k).len() > 0);
    assert(domain::tenths_text(k as int).len() > 0);
    binary32::lemma_round24_close(k * one, 1);
    assert((k * one) / 1 == k * one);
    binary32::lemma_round24_close(k * one, 10);
    lemma_fundamental_div_mod((k * one) as int, 10);
    if 1 <= k <= 10 {
        lemma_nearest_bounds(k, 1, 1, 10);
    }
    if 150 <= k <= 300 {
        lemma_nearest_bounds(k, 10, 15, 30);
    }
    if k < 150 {
        assert(k * one <= 149 * one) by (nonlinear_arith)
            requires
                k <= 149,
        ;
    }
    if k > 300 {
        assert(k * one >= 301 * one) by (nonlinear_arith)
            requires
                k >= 301,
        ;
    }
    if k > 10 {
        assert(k * one >= 11 * one) by (nonlinear_arith)
            requires
                k >= 11,
        ;
    }
}

/// The text of `k` steps, cut back to the limits.
pub open spec fn limited(k: int, low: int, high: int) -> int {
    if k < low {
        low
    } else if k > high {
        high
    } else {
        k
    }
}

/// The up arrow adds one to a fan setpoint and half a degree to a temperature,
/// the down arrow takes it away, and neither leaves the limits.
pub proof fn law_arrows_step_within_the_limits(control: ControlId, k: nat, up: bool)
    requires
        k <= 0xFFFF,
    ensures
        control == ControlId::SupplyFan || control == ControlId::ExhaustFan ==> stepped(
            control,
            decimal::number(text::decimal(k)),
            up,
        ) == text::decimal(
            limited(
                if up {
                    k as int + 1
                } else {
                    k as int - 1
                },
                1,
                10,
            ) as nat,
        ),
        control == ControlId::Setpoint ==> stepped(
            control,
            decimal::number(domain::tenths_text(k as int)),
            up,
        ) == domain::tenths_text(
            limited(
                if up {
                    k as int + 5
                } else {
                    k as int - 5
                },
                150,
                300,
            ),
        ),
{
    decimal::law_printed_integer_stands_for_itself(k);
    decimal::law_printed_tenths_stand_for_themselves(k, false);
    if control == ControlId::SupplyFan || control == ControlId::ExhaustFan {
        lemma_step_result(
            control,
            k,
            1,
            up,
            limited(
                if up {
                    k as int + 1
                } else {
                    k as int - 1
                },
                1,
                10,
            ) as nat,
        );
    } else if control == ControlId::Setpoint {
        lemma_step_result(
            control,
            k,
            10,
            up,
            limited(
                if up {
                    k as int + 5
                } else {
                    k as int - 5
                },
                150,
                300,
            ) as nat,
        );
    }
}

proof fn lemma_step_result(control: ControlId, k: nat, den: nat, up: bool, result: nat)
    requires
        k <= 0xFFFF,
        control == ControlId::Setpoint && den == 10 || (control == ControlId::SupplyFan || control
            == ControlId::ExhaustFan) && den == 1,
        den == 10 ==> result == limited(
            if up {
                k as int + 5
            } else {
                k as int - 5
            },
            150,
            300,
        ),
        den == 1 ==> result == limited(
            if up {
                k as int + 1
            } else {
                k as int - 1
            },
            1,
            10,
        ),
    ensures
        binary32::half_even(
            den * clamped(control, moved(control, false, binary32::nearest(k, den), up)),
            binary32::one(),
        ) == result,
{
    let one = binary32::one();
    let n = k * one;
    let y = binary32::nearest(k, den);
    let step = control.step_parts() * binary32::step29();
    assert(n <= 0xFFFF * one) by (nonlinear_arith)
        requires
            n == k * one,
            k <= 0xFFFF,
    ;
    binary32::lemma_round24_close(n, den);
    lemma_fundamental_div_mod(n as int, den as int);
    let slack = one / 50;
    assert(50 * slack <= one);
    assert(n - slack <= den * y <= n + slack);
    let to = if up {
        y + step
    } else {
        y - step
    };
    let size = (if to < 0 {
        -to
    } else {
        to
    }) as nat;
    binary32::lemma_round24_close(size, 1);
    assert(size / 1 == size);
    let x = moved(control, false, y, up);
    let v = clamped(control, x);
    let goal = result * one;
    assert(goal - 4 * slack <= den * v <= goal + 4 * slack);
    let w = den * v;
    if w >= goal {
        binary32::lemma_div_mod(w, one, result, (w - goal) as nat);
    } else {
        assert(result > 0);
        assert(goal == (result - 1) * one + one) by (nonlinear_arith)
            requires
                goal == result * one,
        ;
        binary32::lemma_div_mod(w, one, (result - 1) as nat, (w - (goal - one)) as nat);
    }
}


/// What is checked is told in words: that nothing is typed, that the text is no
/// number, or the limits.
pub proof fn law_refused_texts_are_told(control: ControlId, raw: Seq<char>)
    ensures
        ({
            let t = text::trimmed(raw);
            let (low, high): (nat, nat) = match control {
                ControlId::Setpoint => (15, 30),
                ControlId::SupplyFan | ControlId::ExhaustFan => (1, 10),
                ControlId::Power | ControlId::Mode => (0, 1),
            };
            &&& t.len() == 0 ==> checked(control, raw) == Err::<(), Seq<char>>("value is empty"@)
            &&& t.len() > 0 && (decimal::number(t) is Invalid || decimal::number(t) is Empty)
                ==> checked(control, raw) == Err::<(), Seq<char>>(
                "`"@ + t + "` is not a number"@,
            )
            &&& t.len() > 0 && !(decimal::number(t) is Invalid || decimal::number(t) is Empty)
                && checked(control, raw) is Err ==> checked(control, raw) == Err::<(), Seq<char>>(
                "must be in "@ + text::decimal(low) + "..="@ + text::decimal(high),
            )
            &&& t.len() > 0 && (decimal::number(t) is NotANumber || decimal::number(t) is Infinite)
                ==> checked(control, raw) is Err
        }),
{
}

/// Whatever fraction is typed, it is accepted if it lies inside the limits and
/// refused if it lies outside them, by a thousandth at least.
pub proof fn law_fractions_within_the_limits_are_accepted(
    control: ControlId,
    raw: Seq<char>,
    negative: bool,
    num: nat,
    den: nat,
)
    requires
        decimal::number(text::trimmed(raw)) == (Number::Finite { negative, num, den }),
        text::trimmed(raw).len() > 0,
        den > 0,
        !control.toggles(),
    ensures
        ({
            let (low, high): (nat, nat) = if control == ControlId::Setpoint {
                (15, 30)
            } else {
                (1, 10)
            };
            &&& !negative && (1000 * low + 1) * den <= 1000 * num <= (1000 * high - 1) * den
                ==> checked(control, raw) is Ok
            &&& negative ==> checked(control, raw) is Err
            &&& 1000 * num <= (1000 * low - 1) * den || 1000 * num >= (1000 * high + 1) * den
                ==> checked(control, raw) is Err
        }),
{
    let one = binary32::one();
    let n = num * one;
    let q = n / den;
    let y = binary32::nearest(num, den);
    let (low, high): (nat, nat) = if control == ControlId::Setpoint {
        (15, 30)
    } else {
        (1, 10)
    };
    binary32::lemma_round24_close(n, den);
    lemma_fundamental_div_mod(n as int, den as int);
    assert(den * q <= n < den * (q + 1)) by (nonlinear_arith)
        requires
            n == den * q + n % den,
            0 <= n % den < den,
    ;
    if (1000 * low + 1) * den <= 1000 * num {
        lemma_at_least(num, den, q, 1000 * low + 1);
    }
    if 1000 * num <= (1000 * high - 1) * den {
        lemma_at_most(num, den, q, (1000 * high - 1) as nat);
    }
    if 1000 * num <= (1000 * low - 1) * den {
        lemma_at_most(num, den, q, (1000 * low - 1) as nat);
    }
    if 1000 * num >= (1000 * high + 1) * den {
        lemma_at_least(num, den, q, 1000 * high + 1);
    }
}

proof fn lemma_at_least(num: nat, den: nat, q: nat, k: nat)
    requires
        den > 0,
        num * binary32::one() < den * (q + 1),
        k * den <= 1000 * num,
    ensures
        k * binary32::one() <= 1000 * (q + 1),
{
    let one = binary32::one();
    assert(k * one * den <= 1000 * (q + 1) * den) by (nonlinear_arith)
        requires
            num * one < den * (q + 1),
            k * den <= 1000 * num,
            one > 0,
    ;
    assert(k * one <= 1000 * (q + 1)) by (nonlinear_arith)
        requires
            k * one * den <= 1000 * (q + 1) * den,
            den > 0,
    ;
}

proof fn lemma_at_most(num: nat, den: nat, q: nat, k: nat)
    requires
        den > 0,
        den * q <= num * binary32::one(),
        1000 * num <= k * den,
    ensures
        1000 * q <= k * binary32::one(),
{
    let one = binary32::one();
    assert(1000 * q * den <= k * one * den) by (nonlinear_arith)
        requires
            den * q <= num * one,
            1000 * num <= k * den,
            one > 0,
    ;
    assert(1000 * q <= k * one) by (nonlinear_arith)
        requires
            1000 * q * den <= k * one * den,
            den > 0,
    ;
}

/// The arrows take a text that is no number for zero, and lead from an infinity
/// to the limit on its side.
pub proof fn law_step_from_no_number(control: ControlId, up: bool, negative: bool)
    requires
        !control.toggles(),
    ensures
        stepped(control, Number::Empty, up) == stepped(control, Number::Invalid, up),
        control == ControlId::Setpoint ==> stepped(control, Number::Invalid, up)
            == domain::tenths_text(150),
        control != ControlId::Setpoint ==> stepped(control, Number::Invalid, up) == text::decimal(
            1,
        ),
        control == ControlId::Setpoint ==> stepped(control, Number::Infinite { negative }, up)
            == domain::tenths_text(
            if negative {
                150
            } else {
                300
            },
        ),
        control != ControlId::Setpoint ==> stepped(control, Number::Infinite { negative }, up)
            == text::decimal(
            if negative {
                1
            } else {
                10
            },
        ),
{
    let one = binary32::one();
    binary32::lemma_round24_close(0, 1);
    law_arrows_step_within_the_limits(control, 0, up);
    decimal::law_printed_integer_stands_for_itself(0);
    decimal::law_printed_tenths_stand_for_themselves(0, false);
    assert(binary32::nearest(0, 1) == 0) by {
        assert(0 * one == 0);
        reveal_with_fuel(binary32::unit, 2);
    }
    assert(binary32::nearest(0, 10) == 0) by {
        assert(0 * one == 0);
        reveal_with_fuel(binary32::unit, 2);
    }
    binary32::lemma_div_mod(10 * one, one, 10, 0);
    binary32::lemma_div_mod(1 * one, one, 1, 0);
    binary32::lemma_div_mod(10 * (15 * one), one, 150, 0);
    binary32::lemma_div_mod(10 * (30 * one), one, 300, 0);
}

/// A message stands for its text.
pub proof fn law_messages_as_they_are(message: String)
    ensures
        message_of(Ok(())) == Ok::<(), Seq<char>>(()),
        message_of(Err(message)) == Err::<(), Seq<char>>(message@),
{
}

} // verus!
