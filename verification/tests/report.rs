use gtc_control::domain::{
    RegisterDef, RegisterKind, RegisterValue, RegisterValueType, Snapshot, SnapshotEntry,
};
use gtc_control::{
    format_reading, format_register_list, format_single_entry, format_snapshot,
};

fn def(name: &str, addr: u16, group: Option<&str>, unit: Option<&str>) -> RegisterDef {
    RegisterDef {
        name: name.into(),
        kind: RegisterKind::Input,
        address: addr,
        value_type: RegisterValueType::U16,
        writable: false,
        unit: unit.map(str::to_owned),
        group: group.map(str::to_owned),
        display_name: None,
    }
}

fn entry(name: &str, value: u16, unit: Option<&str>) -> SnapshotEntry {
    SnapshotEntry {
        name: name.into(),
        value: RegisterValue::U16(value),
        unit: unit.map(str::to_owned),
    }
}

#[test]
fn format_empty_snapshot_is_empty() {
    assert_eq!(format_snapshot(&Snapshot::new(), &[]), "");
}

#[test]
fn format_groups_entries_by_section() {
    let registers = vec![
        def("a", 0, Some("State"), None),
        def("b", 1, Some("Temperatures"), Some("°C")),
        def("c", 2, Some("State"), None),
    ];
    let snap = Snapshot {
        entries: vec![entry("a", 1, None), entry("b", 22, Some("°C")), entry("c", 3, None)],
    };
    let out = format_snapshot(&snap, &registers);
    let expected = "\
State
  a  1
  c  3

Temperatures
  b  22 °C
";
    assert_eq!(out, expected);
}

#[test]
fn format_unknown_registers_fall_into_other() {
    let snap = Snapshot { entries: vec![entry("orphan", 7, None)] };
    let out = format_snapshot(&snap, &[]);
    assert!(out.starts_with("Other\n"));
    assert!(out.contains("orphan"));
    assert_eq!(out, "Other\n  orphan  7\n");
}

#[test]
fn format_aligns_names_across_sections() {
    let registers = vec![
        def("long_name", 0, Some("B"), None),
        def("x", 1, Some("A"), None),
        def("é", 2, None, None),
        // The last definition of a name decides its group.
        def("x", 3, Some("C"), None),
    ];
    let snap = Snapshot {
        entries: vec![entry("x", 1, None), entry("é", 2, None), entry("long_name", 3, None)],
    };
    assert_eq!(
        format_snapshot(&snap, &registers),
        "C\n  x          1\n\nOther\n  é          2\n\nB\n  long_name  3\n"
    );
}

#[test]
fn format_widths_count_bytes() {
    let snap = Snapshot { entries: vec![entry("é", 2, None), entry("a", 3, None)] };
    assert_eq!(format_snapshot(&snap, &[]), "Other\n  é   2\n  a   3\n");
}

#[test]
fn format_single_entry_appends_unit() {
    let entry = SnapshotEntry {
        name: "supply".into(),
        value: RegisterValue::Temperature(215),
        unit: Some("°C".into()),
    };
    assert_eq!(format_single_entry(&entry), "21.5 °C\n");
}

#[test]
fn format_single_entry_without_unit() {
    assert_eq!(format_single_entry(&entry("fan", 3, None)), "3\n");
}

#[test]
fn the_firmware_version_is_read_as_a_version() {
    assert_eq!(format_reading(&entry("firmware_version", 0x5100, None)), "5.1.0\n");
    assert_eq!(format_reading(&entry("firmware_version", 0x2311, None)), "2.3.17\n");
    let signed = SnapshotEntry {
        name: "firmware_version".into(),
        value: RegisterValue::I16(-1),
        unit: None,
    };
    assert_eq!(format_reading(&signed), "15.15.255\n");
    let bit = SnapshotEntry {
        name: "firmware_version".into(),
        value: RegisterValue::Bool(true),
        unit: None,
    };
    assert_eq!(format_reading(&bit), "on\n");
}

#[test]
fn other_registers_are_read_as_value_and_unit() {
    assert_eq!(format_reading(&entry("state_word_0", 0x5100, None)), "20736\n");
    assert_eq!(format_reading(&entry("fan", 3, Some("%"))), "3 %\n");
}

#[test]
fn format_register_list_renders_header_and_rows() {
    let registers = vec![
        def("supply", 7, Some("Temperatures"), Some("°C")),
        def("power", 2, None, None),
    ];
    let out = format_register_list(&registers);
    let mut lines = out.lines();
    let header = lines.next().unwrap();
    assert!(header.starts_with("NAME"));
    assert!(header.contains("ADDR"));
    assert!(header.contains("GROUP"));

    let row1 = lines.next().unwrap();
    assert!(row1.contains("supply"));
    assert!(row1.contains("0x07 (7)"));
    assert!(row1.contains("temperature_x10") || row1.contains("u16"));
    assert!(row1.contains("Temperatures"));

    let row2 = lines.next().unwrap();
    assert!(row2.contains("power"));
    assert!(row2.contains("Other"));
}

#[test]
fn format_register_list_empty() {
    assert_eq!(format_register_list(&[]), "");
}

#[test]
fn format_register_list_is_aligned_and_sorted_by_group() {
    let mut power = def("power", 0x1A2, Some("Controls"), None);
    power.kind = RegisterKind::Coil;
    power.value_type = RegisterValueType::Bool;
    power.writable = true;
    let registers = vec![
        power,
        def("supply", 7, Some("Temperatures"), Some("°C")),
        def("mode", 15, Some("Controls"), None),
    ];
    assert_eq!(
        format_register_list(&registers),
        "NAME    KIND   ADDR         TYPE  UNIT  WRITE  GROUP\n\
         power   coil   0x1A2 (418)  bool        RW     Controls\n\
         mode    input  0x0F (15)    u16         R      Controls\n\
         supply  input  0x07 (7)     u16   °C    R      Temperatures\n"
    );
}

#[test]
fn format_register_list_names_every_kind_and_type() {
    let types = [
        (RegisterValueType::U16, "u16"),
        (RegisterValueType::I16, "i16"),
        (RegisterValueType::Bool, "bool"),
        (RegisterValueType::TemperatureX10, "temperature_x10"),
        (RegisterValueType::Percent, "percent"),
        (RegisterValueType::Mode, "mode"),
    ];
    for (value_type, label) in types {
        let mut d = def("n", 0, None, None);
        d.value_type = value_type;
        assert!(format_register_list(&[d]).contains(&format!("0x00 (0)  {label} ")));
    }
    let kinds = [
        (RegisterKind::Holding, "holding"),
        (RegisterKind::Input, "input"),
        (RegisterKind::Coil, "coil"),
        (RegisterKind::Discrete, "discrete"),
    ];
    for (kind, label) in kinds {
        let mut d = def("n", 0, None, None);
        d.kind = kind;
        assert!(format_register_list(&[d]).contains(&format!("\nn     {label} ")));
    }
}
