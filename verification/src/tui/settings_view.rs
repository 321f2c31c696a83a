//! The lines of the Settings screen.

use crate::domain::RegisterDef;
use crate::text::{self, decimal_text, same};
use crate::tui::settings::{self, Item, Settings, SettingsItem, SettingsState};
use crate::tui::style::{
    self, push_line, push_section_header, row_start, Color, Line, Piece, Style,
};
use crate::tui::view::{self, display_label_of};
use vstd::prelude::*;

verus! {

/// Width of the labels.
pub const SETTINGS_LABEL_WIDTH: usize = 20;

/// The title of the screen.
pub open spec fn title() -> Seq<Piece> {
    seq![
        style::styled(
            " Settings "@,
            Style { fg: Some(Color::White), bold: true, dim: false, reversed: true },
        ),
        style::raw("   "@),
        style::styled("edits saved on Esc"@, style::dim()),
    ]
}

/// The line that tells which keys do what.
pub open spec fn keys() -> Seq<Piece> {
    seq![
        style::raw("  "@),
        style::key_name("↑↓"@),
        style::raw(" navigate · "@),
        style::key_name("Space"@),
        style::raw(" toggle · "@),
        style::key_name("Enter"@),
        style::raw(" edit · "@),
        style::key_name("Esc"@),
        style::raw(" save & close"@),
    ]
}

/// The title of the screen.
pub fn title_line() -> (r: Line)
    ensures
        r@ == title(),
{
    let mut line = Line::new();
    line.push(
        " Settings ",
        Style { fg: Some(Color::White), bold: true, dim: false, reversed: true },
    );
    line.push_raw("   ");
    line.push("edits saved on Esc", Style::dim());
    assert(line@ =~= title());
    line
}

/// The line that tells which keys do what.
pub fn keys_line() -> (r: Line)
    ensures
        r@ == keys(),
{
    let mut line = Line::new();
    line.push_raw("  ");
    line.push_key("↑↓");
    line.push_raw(" navigate · ");
    line.push_key("Space");
    line.push_raw(" toggle · ");
    line.push_key("Enter");
    line.push_raw(" edit · ");
    line.push_key("Esc");
    line.push_raw(" save & close");
    assert(line@ =~= keys());
    line
}

/// The section a row is in.
pub open spec fn section(item: Item) -> Seq<char> {
    match item {
        Item::Host | Item::Port | Item::PollInterval => "Connection"@,
        Item::Temperature(_) => "Temperatures"@,
        Item::ModeHeating | Item::ModeCooling | Item::ModeClimate => "Modes"@,
        Item::ExhaustFan => "Fans"@,
    }
}

/// The section a row is in.
pub fn section_for(item: &SettingsItem) -> (r: &'static str)
    ensures
        r@ == section(item@),
{
    match item {
        SettingsItem::Host | SettingsItem::Port | SettingsItem::PollInterval => "Connection",
        SettingsItem::Temperature(_) => "Temperatures",
        SettingsItem::ModeHeating | SettingsItem::ModeCooling | SettingsItem::ModeClimate => {
            "Modes"
        },
        SettingsItem::ExhaustFan => "Fans",
    }
}

/// The label of a row; a sensor has that of its register.
pub open spec fn label(item: Item, registers: Seq<RegisterDef>) -> Seq<char> {
    match item {
        Item::Host => "Host"@,
        Item::Port => "Port"@,
        Item::PollInterval => "Poll interval"@,
        Item::Temperature(name) => view::display_label(registers, name),
        Item::ModeHeating => "Heating"@,
        Item::ModeCooling => "Cooling"@,
        Item::ModeClimate => "Climate"@,
        Item::ExhaustFan => "Exhaust fan"@,
    }
}

/// The label of a row.
pub fn settings_label(item: &SettingsItem, registers: &[RegisterDef]) -> (r: String)
    ensures
        r@ == label(item@, registers@),
{
    match item {
        SettingsItem::Host => "Host".to_owned(),
        SettingsItem::Port => "Port".to_owned(),
        SettingsItem::PollInterval => "Poll interval".to_owned(),
        SettingsItem::Temperature(name) => display_label_of(registers, name.as_str()),
        SettingsItem::ModeHeating => "Heating".to_owned(),
        SettingsItem::ModeCooling => "Cooling".to_owned(),
        SettingsItem::ModeClimate => "Climate".to_owned(),
        SettingsItem::ExhaustFan => "Exhaust fan".to_owned(),
    }
}

/// The value of a field as the screen shows it; the interval comes with its
/// unit.
pub open spec fn shown_field(s: Settings, item: Item) -> Seq<char> {
    if item is PollInterval {
        settings::field_text(s.modbus, s.poll, item) + " s"@
    } else {
        settings::field_text(s.modbus, s.poll, item)
    }
}

/// The value of a field as the screen shows it; a flag has none.
pub fn settings_value_text(settings: &SettingsState, item: &SettingsItem) -> (r: String)
    ensures
        r@ == shown_field(settings@, item@),
{
    match item {
        SettingsItem::Host => settings.draft_modbus.host.clone(),
        SettingsItem::Port => decimal_text(settings.draft_modbus.port as u64),
        SettingsItem::PollInterval => {
            let mut out = decimal_text(settings.draft_poll.interval_seconds);
            out.append(" s");
            out
        },
        _ => String::new(),
    }
}

/// The flag of a row; a field has none.
pub fn settings_bool_value(settings: &SettingsState, item: &SettingsItem) -> (r: bool)
    ensures
        r == settings::flag_of(settings@.ui, item@),
{
    match item {
        SettingsItem::Temperature(name) => settings.draft_ui.temperature_visible(name.as_str()),
        SettingsItem::ModeHeating => settings.draft_ui.modes.heating,
        SettingsItem::ModeCooling => settings.draft_ui.modes.cooling,
        SettingsItem::ModeClimate => settings.draft_ui.modes.climate,
        SettingsItem::ExhaustFan => settings.draft_ui.exhaust_fan,
        _ => false,
    }
}

/// The text typed into the row `index`, if it is being edited.
pub open spec fn typed_in(s: Settings, index: nat) -> Option<Seq<char>> {
    match s.editing {
        Some(edit) => if edit.0 == index {
            Some(edit.1)
        } else {
            None
        },
        None => None,
    }
}

/// A hint if `shown`.
pub open spec fn hint_if(shown: bool, hint: Seq<char>) -> Seq<Piece> {
    if shown {
        seq![style::styled(hint, style::dim())]
    } else {
        Seq::empty()
    }
}

/// The value of a row.
pub open spec fn row_value(s: Settings, index: nat, item: Item) -> Seq<Piece> {
    let selected = s.cursor == index;
    if item.is_field() {
        match typed_in(s, index) {
            Some(typed) => seq![
                style::styled(view::typed_text(typed), style::strong(Color::Magenta)),
            ],
            None => seq![style::styled(shown_field(s, item), style::strong(Color::White))]
                + hint_if(selected, "   Enter — edit"@),
        }
    } else if settings::flag_of(s.ui, item) {
        seq![style::styled("[✓]"@, style::strong(Color::Green))] + hint_if(
            selected,
            "   Space — toggle"@,
        )
    } else {
        seq![style::styled("[ ]"@, style::strong(Color::Red))] + hint_if(
            selected,
            "   Space — toggle"@,
        )
    }
}

/// A row of the screen.
pub open spec fn row(s: Settings, index: nat, item: Item, registers: Seq<RegisterDef>) -> Seq<
    Piece,
> {
    style::row_prefix(label(item, registers), SETTINGS_LABEL_WIDTH as nat, s.cursor == index)
        + row_value(s, index, item)
}

/// A row of the screen.
pub fn settings_row(
    settings: &SettingsState,
    idx: usize,
    item: &SettingsItem,
    registers: &[RegisterDef],
) -> (r: Line)
    ensures
        r@ == row(settings@, idx as nat, item@, registers@),
{
    let selected = settings.cursor == idx;
    let mut line = row_start(
        settings_label(item, registers).as_str(),
        SETTINGS_LABEL_WIDTH,
        selected,
    );
    let ghost start = line@;
    let editing = match &settings.editing {
        Some(buf) => if buf.item_index == idx {
            Some(buf)
        } else {
            None
        },
        None => None,
    };
    match item {
        SettingsItem::Host | SettingsItem::Port | SettingsItem::PollInterval => {
            match editing {
                Some(buf) => {
                    line.push(
                        view::typed_field(buf.text.as_str()).as_str(),
                        Style::strong(Color::Magenta),
                    );
                },
                None => {
                    line.push(
                        settings_value_text(settings, item).as_str(),
                        Style::strong(Color::White),
                    );
                    if selected {
                        line.push("   Enter — edit", Style::dim());
                    }
                },
            }
        },
        _ => {
            if settings_bool_value(settings, item) {
                line.push("[✓]", Style::strong(Color::Green));
            } else {
                line.push("[ ]", Style::strong(Color::Red));
            }
            if selected {
                line.push("   Space — toggle", Style::dim());
            }
        },
    }
    assert(line@ =~= start + row_value(settings@, idx as nat, item@));
    line
}

/// What goes before the row `n - 1`: the heading of its section, where the
/// row is the first of it, with an empty line between two sections.
pub open spec fn heading_before(items: Seq<Item>, n: nat) -> Seq<Seq<Piece>> {
    let here = section(items[n - 1]);
    if n == 1 {
        seq![style::section_header(here)]
    } else if section(items[n - 2]) != here {
        seq![style::blank(), style::section_header(here)]
    } else {
        Seq::empty()
    }
}

/// The first `n` rows, with the headings of their sections.
pub open spec fn rows_up_to(s: Settings, registers: Seq<RegisterDef>, n: nat) -> Seq<Seq<Piece>>
    decreases n,
{
    if n == 0 {
        Seq::empty()
    } else {
        let before = (n - 1) as nat;
        rows_up_to(s, registers, before) + heading_before(s.items, n) + seq![
            row(s, before, s.items[before as int], registers),
        ]
    }
}

/// The rows of the screen, and the reminder below them.
pub open spec fn screen(s: Settings, registers: Seq<RegisterDef>) -> Seq<Seq<Piece>> {
    rows_up_to(s, registers, s.items.len()) + seq![
        style::blank(),
        seq![style::styled("    ───  Ventilation is always selectable"@, style::dim())],
    ]
}

/// The rows of the screen, section by section.
pub fn build_settings_lines(settings: &SettingsState, registers: &[RegisterDef]) -> (r: Vec<Line>)
    ensures
        style::drawn(r@) == screen(settings@, registers@),
{
    let ghost s = settings@;
    let items = &settings.items;
    let mut lines: Vec<Line> = Vec::new();
    let mut i: usize = 0;
    assert(style::drawn(lines@) =~= Seq::empty());
    while i < items.len()
        invariant
            i <= items@.len(),
            *items == settings.items,
            s == settings@,
            style::drawn(lines@) == rows_up_to(s, registers@, i as nat),
        decreases items@.len() - i,
    {
        let ghost before = style::drawn(lines@);
        let section = section_for(&items[i]);
        proof {
            assert(s.items[i as int] == items@[i as int]@);
            if i > 0 {
                assert(s.items[i - 1] == items@[i - 1]@);
            }
        }
        if i == 0 {
            push_section_header(&mut lines, section);
        } else if !same(section_for(&items[i - 1]), section) {
            push_line(&mut lines, Line::new());
            push_section_header(&mut lines, section);
        }
        push_line(&mut lines, settings_row(settings, i, &items[i], registers));
        i = i + 1;
        assert(style::drawn(lines@) =~= rows_up_to(s, registers@, i as nat));
    }
    push_line(&mut lines, Line::new());
    let mut reminder = Line::new();
    reminder.push("    ───  Ventilation is always selectable", Style::dim());
    proof {
        assert(reminder@ =~= seq![
            style::styled("    ───  Ventilation is always selectable"@, style::dim()),
        ]);
    }
    push_line(&mut lines, reminder);
    assert(s.items.len() == items@.len());
    assert(style::drawn(lines@) =~= screen(s, registers@));
    lines
}


/// A row shows what is typed into it, or else what the draft holds: the host as
/// it is, the port in decimal, the interval in decimal with its unit, and a
/// flag as a box that is ticked exactly if the flag is set.
pub proof fn law_row_shows_the_draft(
    s: Settings,
    index: nat,
    item: Item,
    registers: Seq<RegisterDef>,
)
    ensures
        ({
            let shown = row(s, index, item, registers)[2].text;
            let ticked = |flag: bool|
                shown == if flag {
                    "[✓]"@
                } else {
                    "[ ]"@
                };
            let field = |value: Seq<char>|
                shown == match s.editing {
                    Some(edit) if edit.0 == index => "["@ + edit.1 + "█]"@,
                    _ => value,
                };
            &&& row(s, index, item, registers).len() >= 3
            &&& match item {
                Item::Host => field(s.modbus.host),
                Item::Port => field(text::decimal(s.modbus.port as nat)),
                Item::PollInterval => field(
                    text::decimal(s.poll.interval_seconds as nat) + " s"@,
                ),
                Item::Temperature(name) => ticked(
                    !(s.ui.temperatures.dom().contains(name) && !s.ui.temperatures[name]),
                ),
                Item::ModeHeating => ticked(s.ui.modes.heating),
                Item::ModeCooling => ticked(s.ui.modes.cooling),
                Item::ModeClimate => ticked(s.ui.modes.climate),
                Item::ExhaustFan => ticked(s.ui.exhaust_fan),
            }
        }),
{
}

/// Every row of the screen is drawn.
pub proof fn law_every_row_is_drawn(s: Settings, registers: Seq<RegisterDef>, i: nat)
    requires
        i < s.items.len(),
    ensures
        screen(s, registers).contains(row(s, i, s.items[i as int], registers)),
{
    lemma_row_is_drawn(s, registers, i, s.items.len());
    let rows = rows_up_to(s, registers, s.items.len());
    let line = row(s, i, s.items[i as int], registers);
    let at = choose|k: int| 0 <= k < rows.len() && rows[k] == line;
    assert(screen(s, registers)[at] == line);
}

proof fn lemma_row_is_drawn(s: Settings, registers: Seq<RegisterDef>, i: nat, n: nat)
    requires
        i < n,
    ensures
        rows_up_to(s, registers, n).contains(row(s, i, s.items[i as int], registers)),
    decreases n,
{
    let rows = rows_up_to(s, registers, n);
    let line = row(s, i, s.items[i as int], registers);
    if i == n - 1 {
        assert(rows[rows.len() - 1] == line);
    } else {
        lemma_row_is_drawn(s, registers, i, (n - 1) as nat);
        let before = rows_up_to(s, registers, (n - 1) as nat);
        let at = choose|k: int| 0 <= k < before.len() && before[k] == line;
        assert(rows[at] == line);
    }
}


/// Each row has its own label, a sensor that of its register, and stands in the
/// section it belongs to.
pub proof fn law_rows_have_their_labels(item: Item, registers: Seq<RegisterDef>)
    ensures
        match item {
            Item::Host => label(item, registers) == "Host"@ && section(item) == "Connection"@,
            Item::Port => label(item, registers) == "Port"@ && section(item) == "Connection"@,
            Item::PollInterval => label(item, registers) == "Poll interval"@ && section(item)
                == "Connection"@,
            Item::Temperature(name) => label(item, registers) == view::display_label(
                registers,
                name,
            ) && section(item) == "Temperatures"@,
            Item::ModeHeating => label(item, registers) == "Heating"@ && section(item) == "Modes"@,
            Item::ModeCooling => label(item, registers) == "Cooling"@ && section(item) == "Modes"@,
            Item::ModeClimate => label(item, registers) == "Climate"@ && section(item) == "Modes"@,
            Item::ExhaustFan => label(item, registers) == "Exhaust fan"@ && section(item)
                == "Fans"@,
        },
{
}

/// The row that the cursor is on is marked, and no other; it tells which key
/// edits or toggles it.
pub proof fn law_row_at_the_cursor_is_marked(
    s: Settings,
    index: nat,
    item: Item,
    registers: Seq<RegisterDef>,
)
    ensures
        ({
            let drawn = row(s, index, item, registers);
            let field = item is Host || item is Port || item is PollInterval;
            let typing = s.editing matches Some(edit) && edit.0 == index;
            &&& drawn[0].text == if s.cursor == index {
                "  ▶ "@
            } else {
                "    "@
            }
            &&& drawn[1].text == crate::text::padded(label(item, registers), 20) + "  "@
            &&& s.cursor == index && field && !typing ==> drawn.last().text
                == "   Enter — edit"@
            &&& s.cursor == index && !field ==> drawn.last().text == "   Space — toggle"@
            &&& s.cursor != index ==> drawn.len() == 3
        }),
{
}

} // verus!
