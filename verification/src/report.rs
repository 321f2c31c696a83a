//! Presentation helpers of the CLI subcommands.

use crate::domain::{
    RegisterDef, RegisterKind, RegisterValueType, Snapshot, SnapshotEntry,
};
use crate::grouping::{self, first_seen, group_of, group_of_name};
use crate::status;
use crate::text::{self, push_decimal, push_hexadecimal_byte, push_padded, same};
use vstd::prelude::*;

verus! {

/// The length of `s` in bytes.
pub open spec fn byte_len(s: Seq<char>) -> nat {
    vstd::utf8::encode_utf8(s).len()
}

/// The largest of `floor` and the byte lengths of `columns`.
pub open spec fn widest(columns: Seq<Seq<char>>, floor: nat) -> nat
    decreases columns.len(),
{
    if columns.len() == 0 {
        floor
    } else {
        let before = widest(columns.drop_last(), floor);
        if byte_len(columns.last()) > before {
            byte_len(columns.last())
        } else {
            before
        }
    }
}

fn bytes_in(s: &str) -> (r: usize)
    ensures
        r as nat == byte_len(s@),
{
    s.as_bytes().len()
}

/// The lines of one section: those whose group is `group`, in order.
pub open spec fn section_lines(
    lines: Seq<Seq<char>>,
    groups: Seq<Seq<char>>,
    group: Seq<char>,
) -> Seq<char>
    decreases lines.len(),
{
    if lines.len() == 0 {
        Seq::empty()
    } else {
        let before = section_lines(lines.drop_last(), groups, group);
        if groups[lines.len() - 1] == group {
            before + lines.last()
        } else {
            before
        }
    }
}

// ---------------------------------------------------------------------
// Snapshots
// ---------------------------------------------------------------------

/// A value followed by its unit.
pub open spec fn with_unit(value: Seq<char>, unit: Option<String>) -> Seq<char> {
    match unit {
        Some(unit) => value + " "@ + unit@,
        None => value,
    }
}

/// The value of an entry followed by its unit.
pub open spec fn value_text(entry: SnapshotEntry) -> Seq<char> {
    with_unit(entry.value.text(), entry.unit)
}

/// The line of an entry in a snapshot.
pub open spec fn entry_line(entry: SnapshotEntry, width: nat) -> Seq<char> {
    "  "@ + text::padded(entry.name@, width) + "  "@ + value_text(entry) + "\n"@
}

/// The names of the entries.
pub open spec fn entry_names(entries: Seq<SnapshotEntry>) -> Seq<Seq<char>> {
    entries.map_values(|e: SnapshotEntry| e.name@)
}

/// The lines of the entries.
pub open spec fn entry_lines(entries: Seq<SnapshotEntry>) -> Seq<Seq<char>> {
    entries.map_values(|e: SnapshotEntry| entry_line(e, widest(entry_names(entries), 0)))
}

/// The groups of the entries.
pub open spec fn entry_groups(
    entries: Seq<SnapshotEntry>,
    registers: Seq<RegisterDef>,
) -> Seq<Seq<char>> {
    entries.map_values(|e: SnapshotEntry| grouping::group_named(registers, e.name@))
}

/// The sections of `order`, each a heading and its lines, with an empty line
/// between two sections.
pub open spec fn sections_text(
    order: Seq<Seq<char>>,
    lines: Seq<Seq<char>>,
    groups: Seq<Seq<char>>,
) -> Seq<char>
    decreases order.len(),
{
    if order.len() == 0 {
        Seq::empty()
    } else {
        let before = sections_text(order.drop_last(), lines, groups);
        let gap = if order.len() > 1 {
            "\n"@
        } else {
            Seq::empty()
        };
        before + gap + order.last() + "\n"@ + section_lines(lines, groups, order.last())
    }
}

/// The snapshot as a sectioned block.
pub open spec fn snapshot_text(
    entries: Seq<SnapshotEntry>,
    registers: Seq<RegisterDef>,
) -> Seq<char> {
    let groups = entry_groups(entries, registers);
    sections_text(grouping::distinct(groups), entry_lines(entries), groups)
}

fn push_value(out: &mut String, entry: &SnapshotEntry)
    ensures
        final(out)@ == old(out)@ + value_text(*entry),
{
    let ghost start = out@;
    let ghost value = entry.value.text();
    out.append(entry.value.to_string().as_str());
    assert(out@ == start + value);
    push_unit(out, &entry.unit);
    assert(out@ =~= start + value_text(*entry));
}

fn push_unit(out: &mut String, unit: &Option<String>)
    ensures
        final(out)@ == with_unit(old(out)@, *unit),
{
    match unit {
        Some(unit) => {
            out.append(" ");
            out.append(unit.as_str());
        },
        None => {},
    }
}

/// A value followed by its unit.
pub fn format_entry_value(entry: &SnapshotEntry) -> (r: String)
    ensures
        r@ == value_text(*entry),
{
    let mut out = String::new();
    push_value(&mut out, entry);
    assert(out@ =~= value_text(*entry));
    out
}

fn push_entry_line(out: &mut String, entry: &SnapshotEntry, width: usize)
    ensures
        final(out)@ == old(out)@ + entry_line(*entry, width as nat),
{
    let ghost start = out@;
    out.append("  ");
    push_padded(out, entry.name.as_str(), width);
    out.append("  ");
    push_value(out, entry);
    out.append("\n");
    assert(out@ =~= start + entry_line(*entry, width as nat));
}

fn name_width(entries: &Vec<SnapshotEntry>) -> (r: usize)
    ensures
        r as nat == widest(entry_names(entries@), 0),
{
    let mut width: usize = 0;
    let mut i: usize = 0;
    let ghost names = entry_names(entries@);
    assert(names.take(0) =~= Seq::empty());
    while i < entries.len()
        invariant
            i <= entries@.len(),
            names == entry_names(entries@),
            width as nat == widest(names.take(i as int), 0),
        decreases entries@.len() - i,
    {
        proof {
            let t = names.take(i + 1);
            assert(t.drop_last() =~= names.take(i as int));
            assert(t.last() == entries@[i as int].name@);
        }
        let n = bytes_in(entries[i].name.as_str());
        if n > width {
            width = n;
        }
        i = i + 1;
    }
    assert(names.take(names.len() as int) =~= names);
    width
}

/// Format a [`Snapshot`] as a stable, sectioned block suitable for printing
/// to stdout.
///
/// Entries are bucketed by the `group` of their matching [`RegisterDef`]
/// (looked up by name in `registers`). Sections appear in first-encounter
/// order, which keeps the output diff-friendly across invocations.
///
/// Inside each section, entries appear in the snapshot's order. Names are
/// left-aligned across the whole snapshot so columns line up even across
/// sections.
///
/// An empty snapshot yields an empty string.
pub fn format_snapshot(snapshot: &Snapshot, registers: &[RegisterDef]) -> (r: String)
    ensures
        r@ == snapshot_text(snapshot.entries@, registers@),
{
    let entries = &snapshot.entries;
    let width = name_width(entries);
    let mut groups: Vec<String> = Vec::new();
    let mut k: usize = 0;
    while k < entries.len()
        invariant
            k <= entries@.len(),
            grouping::texts(groups@) == entry_groups(entries@, registers@).take(k as int),
        decreases entries@.len() - k,
    {
        let ghost before = groups@;
        let group = group_of_name(registers, entries[k].name.as_str());
        groups.push(group);
        k = k + 1;
        proof {
            let all = entry_groups(entries@, registers@);
            assert(grouping::texts(groups@) =~= grouping::texts(before).push(group@));
            assert(all.take(k as int) =~= all.take(k - 1).push(all[k - 1]));
        }
    }
    let ghost all = entry_groups(entries@, registers@);
    let ghost lines = entry_lines(entries@);
    assert(all.take(all.len() as int) =~= all);
    let order = first_seen(&groups);
    let ghost names = grouping::texts(order@);
    let mut out = String::new();
    let mut i: usize = 0;
    assert(names.take(0) =~= Seq::empty());
    while i < order.len()
        invariant
            i <= order@.len(),
            names == grouping::texts(order@),
            all == entry_groups(entries@, registers@),
            lines == entry_lines(entries@),
            groups@.len() == entries@.len(),
            grouping::texts(groups@) == all,
            width as nat == widest(entry_names(entries@), 0),
            out@ == sections_text(names.take(i as int), lines, all),
        decreases order@.len() - i,
    {
        let ghost start = out@;
        proof {
            assert(names.take(i + 1).drop_last() =~= names.take(i as int));
            assert(names.take(i + 1).last() == order@[i as int]@);
        }
        if i > 0 {
            out.append("\n");
        }
        out.append(order[i].as_str());
        out.append("\n");
        let ghost head = out@;
        let mut j: usize = 0;
        assert(lines.take(0) =~= Seq::empty());
        while j < entries.len()
            invariant
                j <= entries@.len(),
                i < order@.len(),
                all == entry_groups(entries@, registers@),
                lines == entry_lines(entries@),
                groups@.len() == entries@.len(),
                grouping::texts(groups@) == all,
                width as nat == widest(entry_names(entries@), 0),
                out@ == head + section_lines(lines.take(j as int), all, order@[i as int]@),
            decreases entries@.len() - j,
        {
            let ghost before = out@;
            proof {
                let t = lines.take(j + 1);
                assert(t.drop_last() =~= lines.take(j as int));
                assert(t.last() == entry_line(entries@[j as int], width as nat));
                assert(all[j as int] == groups@[j as int]@);
            }
            if same(groups[j].as_str(), order[i].as_str()) {
                push_entry_line(&mut out, &entries[j], width);
            }
            j = j + 1;
            assert(out@ =~= head + section_lines(lines.take(j as int), all, order@[i as int]@));
        }
        i = i + 1;
        proof {
            assert(lines.take(lines.len() as int) =~= lines);
            assert(out@ =~= sections_text(names.take(i as int), lines, all));
        }
    }
    assert(names.take(names.len() as int) =~= names);
    out
}

/// An empty snapshot is formatted as the empty string.
pub proof fn law_empty_snapshot_is_empty(registers: Seq<RegisterDef>)
    ensures
        snapshot_text(Seq::empty(), registers) == Seq::<char>::empty(),
{
    assert(entry_groups(Seq::empty(), registers) =~= Seq::empty());
}

/// Format a single [`SnapshotEntry`] as `value unit`, with no register name.
///
/// The trailing newline is included so callers can write the result directly
/// to stdout.
pub fn format_single_entry(entry: &SnapshotEntry) -> (r: String)
    ensures
        r@ == value_text(*entry) + "\n"@,
{
    let mut out = String::new();
    push_value(&mut out, entry);
    out.append("\n");
    assert(out@ =~= value_text(*entry) + "\n"@);
    out
}

/// The value of an entry that the user asked for by name: of the firmware
/// version word, the version.
pub open spec fn asked_value(entry: SnapshotEntry) -> Seq<char> {
    match status::word_in(Some(entry)) {
        Some(word) if entry.name@ == "firmware_version"@ => status::firmware_in(word).text(),
        _ => entry.value.text(),
    }
}

/// Format the entry of a register that was read by its name: `value unit`,
/// with no register name, since the user has just asked for it. The firmware
/// version is printed as a version, such as `5.1.0`, every other value as
/// [`format_single_entry`] does.
///
/// The trailing newline is included so callers can write the result directly
/// to stdout.
pub fn format_reading(entry: &SnapshotEntry) -> (r: String)
    ensures
        r@ == with_unit(asked_value(*entry), entry.unit) + "\n"@,
{
    if same(entry.name.as_str(), "firmware_version") {
        match status::word_of(entry) {
            Some(word) => {
                let mut out = status::decode_firmware(word).to_string();
                push_unit(&mut out, &entry.unit);
                out.append("\n");
                return out;
            },
            None => {},
        }
    }
    format_single_entry(entry)
}

// ---------------------------------------------------------------------
// The register catalogue
// ---------------------------------------------------------------------

/// The name of a register kind in the catalogue.
pub open spec fn kind_text(kind: RegisterKind) -> Seq<char> {
    match kind {
        RegisterKind::Holding => "holding"@,
        RegisterKind::Input => "input"@,
        RegisterKind::Coil => "coil"@,
        RegisterKind::Discrete => "discrete"@,
    }
}

/// The name of a value type in the catalogue.
pub open spec fn value_type_text(value_type: RegisterValueType) -> Seq<char> {
    match value_type {
        RegisterValueType::U16 => "u16"@,
        RegisterValueType::I16 => "i16"@,
        RegisterValueType::Bool => "bool"@,
        RegisterValueType::TemperatureX10 => "temperature_x10"@,
        RegisterValueType::Percent => "percent"@,
        RegisterValueType::Mode => "mode"@,
    }
}

/// The name of a register kind in the catalogue.
pub fn kind_label(kind: RegisterKind) -> (r: &'static str)
    ensures
        r@ == kind_text(kind),
{
    match kind {
        RegisterKind::Holding => "holding",
        RegisterKind::Input => "input",
        RegisterKind::Coil => "coil",
        RegisterKind::Discrete => "discrete",
    }
}

/// The name of a value type in the catalogue.
pub fn value_type_label(value_type: RegisterValueType) -> (r: &'static str)
    ensures
        r@ == value_type_text(value_type),
{
    match value_type {
        RegisterValueType::U16 => "u16",
        RegisterValueType::I16 => "i16",
        RegisterValueType::Bool => "bool",
        RegisterValueType::TemperatureX10 => "temperature_x10",
        RegisterValueType::Percent => "percent",
        RegisterValueType::Mode => "mode",
    }
}

/// The cells of one row of the catalogue.
pub struct Row {
    pub name: String,
    pub kind: &'static str,
    pub address: String,
    pub value_type: &'static str,
    pub unit: String,
    pub write: &'static str,
    pub group: String,
}

/// What a [`Row`] stands for.
#[verifier::ext_equal]
pub struct Cells {
    pub name: Seq<char>,
    pub kind: Seq<char>,
    pub address: Seq<char>,
    pub value_type: Seq<char>,
    pub unit: Seq<char>,
    pub write: Seq<char>,
    pub group: Seq<char>,
}

impl View for Row {
    type V = Cells;

    open spec fn view(&self) -> Cells {
        Cells {
            name: self.name@,
            kind: self.kind@,
            address: self.address@,
            value_type: self.value_type@,
            unit: self.unit@,
            write: self.write@,
            group: self.group@,
        }
    }
}

/// The cells of the row of `def`; the address is given in hexadecimal and in
/// decimal.
pub open spec fn cells(def: RegisterDef) -> Cells {
    Cells {
        name: def.name@,
        kind: kind_text(def.kind),
        address: "0x"@ + text::hexadecimal_byte(def.address as nat) + " ("@ + text::decimal(
            def.address as nat,
        ) + ")"@,
        value_type: value_type_text(def.value_type),
        unit: match def.unit {
            Some(unit) => unit@,
            None => Seq::empty(),
        },
        write: if def.writable {
            "RW"@
        } else {
            "R"@
        },
        group: grouping::group_label(def),
    }
}

/// The cells of the heading.
pub open spec fn heading() -> Cells {
    Cells {
        name: "NAME"@,
        kind: "KIND"@,
        address: "ADDR"@,
        value_type: "TYPE"@,
        unit: "UNIT"@,
        write: "WRITE"@,
        group: "GROUP"@,
    }
}

impl Row {
    /// The row of `def`.
    pub fn from_def(def: &RegisterDef) -> (r: Row)
        ensures
            r@ == cells(*def),
    {
        let mut address = "0x".to_owned();
        push_hexadecimal_byte(&mut address, def.address);
        address.append(" (");
        push_decimal(&mut address, def.address as u64);
        address.append(")");
        let unit = match &def.unit {
            Some(unit) => unit.clone(),
            None => String::new(),
        };
        Row {
            name: def.name.clone(),
            kind: kind_label(def.kind),
            address,
            value_type: value_type_label(def.value_type),
            unit,
            write: if def.writable {
                "RW"
            } else {
                "R"
            },
            group: group_of(def),
        }
    }
}

/// The widths of the columns in front of the last.
#[derive(Debug, Clone, Copy, PartialEq, Eq, Structural)]
pub struct ColumnWidths {
    pub name: usize,
    pub kind: usize,
    pub address: usize,
    pub value_type: usize,
    pub unit: usize,
    pub write: usize,
}

/// The cells of the rows.
pub open spec fn table(rows: Seq<Row>) -> Seq<Cells> {
    rows.map_values(|r: Row| r@)
}

/// The larger of `width` and the byte length of `s`.
pub open spec fn fit(width: nat, s: Seq<char>) -> nat {
    if byte_len(s) > width {
        byte_len(s)
    } else {
        width
    }
}

/// Widths of the columns.
#[verifier::ext_equal]
pub struct Widths {
    pub name: nat,
    pub kind: nat,
    pub address: nat,
    pub value_type: nat,
    pub unit: nat,
    pub write: nat,
}

impl View for ColumnWidths {
    type V = Widths;

    open spec fn view(&self) -> Widths {
        Widths {
            name: self.name as nat,
            kind: self.kind as nat,
            address: self.address as nat,
            value_type: self.value_type as nat,
            unit: self.unit as nat,
            write: self.write as nat,
        }
    }
}

/// The widths that fit `w` and one more row.
pub open spec fn fit_row(w: Widths, c: Cells) -> Widths {
    Widths {
        name: fit(w.name, c.name),
        kind: fit(w.kind, c.kind),
        address: fit(w.address, c.address),
        value_type: fit(w.value_type, c.value_type),
        unit: fit(w.unit, c.unit),
        write: fit(w.write, c.write),
    }
}

/// The widths that fit the heading and every row.
pub open spec fn widths(rows: Seq<Cells>) -> Widths
    decreases rows.len(),
{
    if rows.len() == 0 {
        fit_row(
            Widths { name: 0, kind: 0, address: 0, value_type: 0, unit: 0, write: 0 },
            heading(),
        )
    } else {
        fit_row(widths(rows.drop_last()), rows.last())
    }
}

/// One line of the table: the columns two spaces apart.
pub open spec fn row_line(c: Cells, w: Widths) -> Seq<char> {
    text::padded(c.name, w.name) + "  "@ + text::padded(c.kind, w.kind) + "  "@ + text::padded(
        c.address,
        w.address,
    ) + "  "@ + text::padded(c.value_type, w.value_type) + "  "@ + text::padded(c.unit, w.unit)
        + "  "@ + text::padded(c.write, w.write) + "  "@ + c.group + "\n"@
}

/// The cells of the definitions.
pub open spec fn catalogue_cells(registers: Seq<RegisterDef>) -> Seq<Cells> {
    registers.map_values(|d: RegisterDef| cells(d))
}

/// The groups of the rows.
pub open spec fn row_groups(rows: Seq<Cells>) -> Seq<Seq<char>> {
    rows.map_values(|c: Cells| c.group)
}

/// The lines of the rows.
pub open spec fn row_lines(rows: Seq<Cells>) -> Seq<Seq<char>> {
    rows.map_values(|c: Cells| row_line(c, widths(rows)))
}

/// The lines of the groups of `order`, one group after the other.
pub open spec fn grouped_lines(
    order: Seq<Seq<char>>,
    lines: Seq<Seq<char>>,
    groups: Seq<Seq<char>>,
) -> Seq<char>
    decreases order.len(),
{
    if order.len() == 0 {
        Seq::empty()
    } else {
        grouped_lines(order.drop_last(), lines, groups) + section_lines(lines, groups, order.last())
    }
}

/// The catalogue as a table: the heading, then the rows group by group.
pub open spec fn catalogue_text(registers: Seq<RegisterDef>) -> Seq<char> {
    let rows = catalogue_cells(registers);
    let groups = row_groups(rows);
    if registers.len() == 0 {
        Seq::empty()
    } else {
        row_line(heading(), widths(rows)) + grouped_lines(
            grouping::distinct(groups),
            row_lines(rows),
            groups,
        )
    }
}

fn wider(width: usize, s: &str) -> (r: usize)
    ensures
        r as nat == fit(width as nat, s@),
{
    let n = bytes_in(s);
    if n > width {
        n
    } else {
        width
    }
}

impl ColumnWidths {
    /// The widths that fit the heading and every row.
    pub fn compute(rows: &Vec<Row>) -> (r: ColumnWidths)
        ensures
            r@ == widths(table(rows@)),
    {
        let mut w = ColumnWidths {
            name: wider(0, "NAME"),
            kind: wider(0, "KIND"),
            address: wider(0, "ADDR"),
            value_type: wider(0, "TYPE"),
            unit: wider(0, "UNIT"),
            write: wider(0, "WRITE"),
        };
        let mut i: usize = 0;
        let ghost all = table(rows@);
        assert(all.take(0) =~= Seq::empty());
        while i < rows.len()
            invariant
                i <= rows@.len(),
                all == table(rows@),
                w@ == widths(all.take(i as int)),
            decreases rows@.len() - i,
        {
            let row = &rows[i];
            proof {
                let t = all.take(i + 1);
                assert(t.drop_last() =~= all.take(i as int));
                assert(t.last() == row@);
            }
            w = ColumnWidths {
                name: wider(w.name, row.name.as_str()),
                kind: wider(w.kind, row.kind),
                address: wider(w.address, row.address.as_str()),
                value_type: wider(w.value_type, row.value_type),
                unit: wider(w.unit, row.unit.as_str()),
                write: wider(w.write, row.write),
            };
            i = i + 1;
        }
        assert(all.take(all.len() as int) =~= all);
        w
    }

    /// Append one line of cells.
    fn write_cells(
        &self,
        out: &mut String,
        name: &str,
        kind: &str,
        address: &str,
        value_type: &str,
        unit: &str,
        write: &str,
        group: &str,
    )
        ensures
            final(out)@ == old(out)@ + row_line(
                (Cells {
                    name: name@,
                    kind: kind@,
                    address: address@,
                    value_type: value_type@,
                    unit: unit@,
                    write: write@,
                    group: group@,
                }),
                self@,
            ),
    {
        let mut line = String::new();
        push_padded(&mut line, name, self.name);
        assert(line@ =~= text::padded(name@, self@.name));
        line.append("  ");
        push_padded(&mut line, kind, self.kind);
        line.append("  ");
        push_padded(&mut line, address, self.address);
        line.append("  ");
        push_padded(&mut line, value_type, self.value_type);
        line.append("  ");
        push_padded(&mut line, unit, self.unit);
        line.append("  ");
        push_padded(&mut line, write, self.write);
        line.append("  ");
        line.append(group);
        line.append("\n");
        out.append(line.as_str());
    }

    /// Append the heading.
    pub fn write_header(&self, out: &mut String)
        ensures
            final(out)@ == old(out)@ + row_line(heading(), self@),
    {
        self.write_cells(out, "NAME", "KIND", "ADDR", "TYPE", "UNIT", "WRITE", "GROUP");
    }

    /// Append one row.
    pub fn write_row(&self, out: &mut String, row: &Row)
        ensures
            final(out)@ == old(out)@ + row_line(row@, self@),
    {
        self.write_cells(
            out,
            row.name.as_str(),
            row.kind,
            row.address.as_str(),
            row.value_type,
            row.unit.as_str(),
            row.write,
            row.group.as_str(),
        );
    }
}

/// Format the configured register catalogue as a column-aligned table.
///
/// Columns: `NAME`, `KIND`, `ADDR` (hex + decimal), `TYPE`, `UNIT`, `WRITE`
/// (`R` or `RW`), `GROUP`. Lists are sorted first by group (in the order in
/// which the groups first appear), then by the order of the catalogue.
/// Returns an empty string for an empty list.
pub fn format_register_list(registers: &[RegisterDef]) -> (r: String)
    ensures
        r@ == catalogue_text(registers@),
{
    if registers.len() == 0 {
        return String::new();
    }
    let ghost all = catalogue_cells(registers@);
    let mut rows: Vec<Row> = Vec::new();
    let mut groups: Vec<String> = Vec::new();
    let mut k: usize = 0;
    while k < registers.len()
        invariant
            k <= registers@.len(),
            all == catalogue_cells(registers@),
            table(rows@) == all.take(k as int),
            grouping::texts(groups@) == row_groups(all).take(k as int),
        decreases registers@.len() - k,
    {
        let ghost (rows0, groups0) = (rows@, groups@);
        let row = Row::from_def(&registers[k]);
        let group = group_of(&registers[k]);
        proof {
            let marks = row_groups(all);
            assert(all[k as int] == row@);
            assert(marks[k as int] == group@);
            assert(all.take(k + 1) =~= all.take(k as int).push(row@));
            assert(marks.take(k + 1) =~= marks.take(k as int).push(group@));
        }
        rows.push(row);
        groups.push(group);
        proof {
            assert(table(rows@) =~= table(rows0).push(row@));
            assert(grouping::texts(groups@) =~= grouping::texts(groups0).push(group@));
        }
        k = k + 1;
    }
    let ghost marks = row_groups(all);
    let ghost lines = row_lines(all);
    assert(all.take(all.len() as int) =~= all);
    assert(marks.take(marks.len() as int) =~= marks);
    let widths = ColumnWidths::compute(&rows);
    let order = first_seen(&groups);
    let ghost names = grouping::texts(order@);
    let mut out = String::new();
    widths.write_header(&mut out);
    let ghost head = out@;
    assert(head =~= row_line(heading(), widths@));
    let mut i: usize = 0;
    assert(names.take(0) =~= Seq::empty());
    assert(head + Seq::<char>::empty() =~= head);
    while i < order.len()
        invariant
            i <= order@.len(),
            names == grouping::texts(order@),
            marks == row_groups(all),
            lines == row_lines(all),
            table(rows@) == all,
            groups@.len() == rows@.len(),
            grouping::texts(groups@) == marks,
            widths@ == self::widths(all),
            out@ == head + grouped_lines(names.take(i as int), lines, marks),
        decreases order@.len() - i,
    {
        let ghost start = out@;
        proof {
            assert(names.take(i + 1).drop_last() =~= names.take(i as int));
            assert(names.take(i + 1).last() == order@[i as int]@);
        }
        let mut j: usize = 0;
        assert(lines.take(0) =~= Seq::empty());
        assert(start + Seq::<char>::empty() =~= start);
        while j < rows.len()
            invariant
                j <= rows@.len(),
                i < order@.len(),
                marks == row_groups(all),
                lines == row_lines(all),
                table(rows@) == all,
                groups@.len() == rows@.len(),
                grouping::texts(groups@) == marks,
                widths@ == self::widths(all),
                out@ == start + section_lines(lines.take(j as int), marks, order@[i as int]@),
            decreases rows@.len() - j,
        {
            proof {
                let t = lines.take(j + 1);
                assert(t.drop_last() =~= lines.take(j as int));
                assert(all[j as int] == rows@[j as int]@);
                assert(t.last() == row_line(rows@[j as int]@, widths@));
                assert(marks[j as int] == groups@[j as int]@);
            }
            if same(groups[j].as_str(), order[i].as_str()) {
                widths.write_row(&mut out, &rows[j]);
            }
            j = j + 1;
            assert(out@ =~= start + section_lines(
                lines.take(j as int),
                marks,
                order@[i as int]@,
            ));
        }
        i = i + 1;
        proof {
            assert(lines.take(lines.len() as int) =~= lines);
            assert(out@ =~= head + grouped_lines(names.take(i as int), lines, marks));
        }
    }
    assert(names.take(names.len() as int) =~= names);
    out
}


// ---------------------------------------------------------------------
// Laws
// ---------------------------------------------------------------------

/// The column is as wide as the longest of its texts, and no wider.
pub proof fn law_column_fits_its_texts(columns: Seq<Seq<char>>, floor: nat, i: int)
    ensures
        widest(columns, floor) >= floor,
        0 <= i < columns.len() ==> byte_len(columns[i]) <= widest(columns, floor),
        widest(columns, floor) == floor || exists|k: int|
            0 <= k < columns.len() && widest(columns, floor) == byte_len(#[trigger] columns[k]),
    decreases columns.len(),
{
    if columns.len() > 0 {
        let rest = columns.drop_last();
        law_column_fits_its_texts(rest, floor, i);
        if 0 <= i < rest.len() {
            assert(rest[i] == columns[i]);
        }
        if widest(columns, floor) != floor {
            if byte_len(columns.last()) > widest(rest, floor) {
                assert(columns[columns.len() - 1] == columns.last());
            } else {
                let k = choose|k: int|
                    0 <= k < rest.len() && widest(rest, floor) == byte_len(#[trigger] rest[k]);
                assert(columns[k] == rest[k]);
            }
        }
    }
}

/// An entry is printed as its value, followed by a space and its unit where it
/// has one; in a snapshot two spaces and its name, filled up to the width, go
/// before it.
pub proof fn law_entry_is_printed_with_its_unit(entry: SnapshotEntry, width: nat)
    ensures
        entry.unit is None ==> value_text(entry) == entry.value.text(),
        entry.unit is Some ==> value_text(entry) == entry.value.text() + " "@ + entry.unit->0@,
        entry_line(entry, width) == "  "@ + text::padded(entry.name@, width) + "  "@ + value_text(
            entry,
        ) + "\n"@,
{
}

/// A further line belongs to the section of its group and to no other, behind
/// the lines before it.
pub proof fn law_lines_go_to_the_section_of_their_group(
    lines: Seq<Seq<char>>,
    groups: Seq<Seq<char>>,
    line: Seq<char>,
    group: Seq<char>,
    section: Seq<char>,
)
    requires
        lines.len() == groups.len(),
    ensures
        section_lines(lines.push(line), groups.push(group), section) == section_lines(
            lines,
            groups,
            section,
        ) + if group == section {
            line
        } else {
            Seq::empty()
        },
    decreases lines.len(),
{
    let more = lines.push(line);
    assert(more.drop_last() =~= lines);
    lemma_section_lines_prefix(lines, groups, groups.push(group), section);
    assert(section_lines(lines, groups, section) + Seq::empty() =~= section_lines(
        lines,
        groups,
        section,
    ));
}

proof fn lemma_section_lines_prefix(
    lines: Seq<Seq<char>>,
    a: Seq<Seq<char>>,
    b: Seq<Seq<char>>,
    section: Seq<char>,
)
    requires
        forall|i: int| 0 <= i < lines.len() ==> a[i] == #[trigger] b[i],
    ensures
        section_lines(lines, a, section) == section_lines(lines, b, section),
    decreases lines.len(),
{
    if lines.len() > 0 {
        lemma_section_lines_prefix(lines.drop_last(), a, b, section);
        assert(a[lines.len() - 1] == b[lines.len() - 1]);
    }
}

/// The first section starts the text; each further one comes behind an empty
/// line. A section is its heading on a line of its own, then its lines.
pub proof fn law_sections_follow_each_other(
    order: Seq<Seq<char>>,
    group: Seq<char>,
    lines: Seq<Seq<char>>,
    groups: Seq<Seq<char>>,
)
    ensures
        sections_text(order.push(group), lines, groups) == sections_text(order, lines, groups) + (
        if order.len() > 0 {
            "\n"@
        } else {
            Seq::empty()
        }) + group + "\n"@ + section_lines(lines, groups, group),
        sections_text(Seq::empty(), lines, groups) == Seq::<char>::empty(),
{
    assert(order.push(group).drop_last() =~= order);
}

/// `part` stands somewhere in `whole`.
pub open spec fn stands_in(part: Seq<char>, whole: Seq<char>) -> bool {
    exists|a: Seq<char>, b: Seq<char>| whole == #[trigger] (a + part + b)
}

/// Every entry of a snapshot has its line, in the section that is headed by its
/// group.
pub proof fn law_every_entry_is_in_its_section(
    entries: Seq<SnapshotEntry>,
    registers: Seq<RegisterDef>,
    i: int,
)
    requires
        0 <= i < entries.len(),
    ensures
        ({
            let group = grouping::group_named(registers, entries[i].name@);
            let line = entry_line(entries[i], widest(entry_names(entries), 0));
            exists|section: Seq<char>|
                stands_in(line, section) && #[trigger] stands_in(
                    group + "\n"@ + section,
                    snapshot_text(entries, registers),
                )
        }),
{
    let groups = entry_groups(entries, registers);
    let lines = entry_lines(entries);
    let order = grouping::distinct(groups);
    let group = groups[i];
    grouping::law_distinct_lists_each_once(groups);
    assert(groups.contains(group));
    assert(order.contains(group));
    let at = choose|k: int| 0 <= k < order.len() && order[k] == group;
    let (a, b) = lemma_section_is_in_the_text(order, lines, groups, at);
    let (c, d) = lemma_line_is_in_its_section(lines, groups, i);
    let section = section_lines(lines, groups, group);
    let headed = group + "\n"@ + section;
    assert(a + group + "\n"@ + section + b =~= a + headed + b);
    assert(section == c + lines[i] + d);
    assert(stands_in(lines[i], section));
    assert(stands_in(headed, snapshot_text(entries, registers)));
}

proof fn lemma_section_is_in_the_text(
    order: Seq<Seq<char>>,
    lines: Seq<Seq<char>>,
    groups: Seq<Seq<char>>,
    at: int,
) -> (r: (Seq<char>, Seq<char>))
    requires
        0 <= at < order.len(),
    ensures
        sections_text(order, lines, groups) == r.0 + order[at] + "\n"@ + section_lines(
            lines,
            groups,
            order[at],
        ) + r.1,
    decreases order.len(),
{
    let rest = order.drop_last();
    let gap = if order.len() > 1 {
        "\n"@
    } else {
        Seq::empty()
    };
    let before = sections_text(rest, lines, groups);
    if at == order.len() - 1 {
        let r = (before + gap, Seq::<char>::empty());
        assert(sections_text(order, lines, groups) =~= r.0 + order[at] + "\n"@ + section_lines(
            lines,
            groups,
            order[at],
        ) + r.1);
        r
    } else {
        let (a, b) = lemma_section_is_in_the_text(rest, lines, groups, at);
        let tail = gap + order.last() + "\n"@ + section_lines(lines, groups, order.last());
        let r = (a, b + tail);
        assert(sections_text(order, lines, groups) =~= before + tail);
        assert(sections_text(order, lines, groups) =~= r.0 + order[at] + "\n"@ + section_lines(
            lines,
            groups,
            order[at],
        ) + r.1);
        r
    }
}

proof fn lemma_line_is_in_its_section(
    lines: Seq<Seq<char>>,
    groups: Seq<Seq<char>>,
    i: int,
) -> (r: (Seq<char>, Seq<char>))
    requires
        0 <= i < lines.len(),
    ensures
        section_lines(lines, groups, groups[i]) == r.0 + lines[i] + r.1,
    decreases lines.len(),
{
    let rest = lines.drop_last();
    let before = section_lines(rest, groups, groups[i]);
    if i == lines.len() - 1 {
        assert(section_lines(lines, groups, groups[i]) =~= before + lines[i]
            + Seq::<char>::empty());
        (before, Seq::empty())
    } else {
        let (a, b) = lemma_line_is_in_its_section(rest, groups, i);
        let tail = if groups[lines.len() - 1] == groups[i] {
            lines.last()
        } else {
            Seq::empty()
        };
        assert(section_lines(lines, groups, groups[i]) =~= a + lines[i] + (b + tail));
        (a, b + tail)
    }
}

/// The firmware version that is read by its name is printed as major, minor
/// and patch, separated by points; every other entry that is read by its name
/// as its value.
pub proof fn law_asked_value(entry: SnapshotEntry, word: u16)
    ensures
        entry.name@ != "firmware_version"@ ==> asked_value(entry) == entry.value.text(),
        entry.name@ == "firmware_version"@ && status::stands_for(entry.value, word) ==> asked_value(
            entry,
        ) == text::decimal((word / 4096) as nat) + "."@ + text::decimal((word / 256 % 16) as nat)
            + "."@ + text::decimal((word % 256) as nat),
{
}

/// The row of a register tells its name, its kind, its address in hexadecimal
/// and in decimal, its type, its unit, whether it can be written, and its group.
pub proof fn law_catalogue_row(def: RegisterDef)
    ensures
        ({
            let row = cells(def);
            &&& row.name == def.name@
            &&& row.kind == match def.kind {
                RegisterKind::Holding => "holding"@,
                RegisterKind::Input => "input"@,
                RegisterKind::Coil => "coil"@,
                RegisterKind::Discrete => "discrete"@,
            }
            &&& row.address == "0x"@ + text::hexadecimal_byte(def.address as nat) + " ("@
                + text::decimal(def.address as nat) + ")"@
            &&& row.unit == match def.unit {
                Some(unit) => unit@,
                None => Seq::empty(),
            }
            &&& row.write == if def.writable {
                "RW"@
            } else {
                "R"@
            }
            &&& row.group == match def.group {
                Some(group) => group@,
                None => "Other"@,
            }
        }),
{
}

/// The columns are as wide as their widest cell, the heading included.
pub proof fn law_columns_fit_their_cells(rows: Seq<Cells>, i: int)
    ensures
        ({
            let w = widths(rows);
            let fits = |c: Cells|
                byte_len(c.name) <= w.name && byte_len(c.kind) <= w.kind && byte_len(c.address)
                    <= w.address && byte_len(c.value_type) <= w.value_type && byte_len(c.unit)
                    <= w.unit && byte_len(c.write) <= w.write;
            fits(heading()) && (0 <= i < rows.len() ==> fits(rows[i]))
        }),
    decreases rows.len(),
{
    if rows.len() > 0 {
        law_columns_fit_their_cells(rows.drop_last(), i);
        if 0 <= i < rows.len() - 1 {
            assert(rows.drop_last()[i] == rows[i]);
        }
    }
}

/// The catalogue starts with the heading, and every register has its row behind
/// it.
pub proof fn law_every_register_is_listed(registers: Seq<RegisterDef>, i: int)
    requires
        0 <= i < registers.len(),
    ensures
        ({
            let w = widths(catalogue_cells(registers));
            exists|a: Seq<char>, b: Seq<char>|
                catalogue_text(registers) == row_line(heading(), w) + #[trigger] (a + row_line(
                    cells(registers[i]),
                    w,
                ) + b)
        }),
{
    let rows = catalogue_cells(registers);
    let groups = row_groups(rows);
    let lines = row_lines(rows);
    let order = grouping::distinct(groups);
    grouping::law_distinct_lists_each_once(groups);
    assert(rows[i] == cells(registers[i]));
    assert(groups.contains(groups[i]));
    assert(order.contains(groups[i]));
    let at = choose|k: int| 0 <= k < order.len() && order[k] == groups[i];
    let (a, b) = lemma_group_is_in_the_table(order, lines, groups, at);
    let (c, d) = lemma_line_is_in_its_section(lines, groups, i);
    assert(lines[i] == row_line(cells(registers[i]), widths(rows)));
    assert(grouped_lines(order, lines, groups) =~= (a + c) + lines[i] + (d + b));
}

proof fn lemma_group_is_in_the_table(
    order: Seq<Seq<char>>,
    lines: Seq<Seq<char>>,
    groups: Seq<Seq<char>>,
    at: int,
) -> (r: (Seq<char>, Seq<char>))
    requires
        0 <= at < order.len(),
    ensures
        grouped_lines(order, lines, groups) == r.0 + section_lines(lines, groups, order[at]) + r.1,
    decreases order.len(),
{
    let rest = order.drop_last();
    let before = grouped_lines(rest, lines, groups);
    let last = section_lines(lines, groups, order.last());
    if at == order.len() - 1 {
        assert(grouped_lines(order, lines, groups) =~= before + last + Seq::<char>::empty());
        (before, Seq::empty())
    } else {
        let (a, b) = lemma_group_is_in_the_table(rest, lines, groups, at);
        assert(grouped_lines(order, lines, groups) =~= a + section_lines(lines, groups, order[at])
            + (b + last));
        (a, b + last)
    }
}

} // verus!
