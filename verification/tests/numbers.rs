use gtc_control::decimal::{read, Reading, Size};
use gtc_control::domain::{RegisterValueType, ValueConversionError};
use gtc_control::number::{is_numeral, parse_i16, parse_u16, parse_u64};
use gtc_control::text::{lowercase, trim, trim_start};
use gtc_control::tui::control::{apply_step, validate_buffer, ControlId, EditBuffer};

/// A small deterministic generator.
struct Gen(u64);

impl Gen {
    fn next(&mut self, n: u64) -> u64 {
        self.0 = self.0.wrapping_mul(6364136223846793005).wrapping_add(1442695040888963407);
        (self.0 >> 33) % n
    }

    fn digits(&mut self, most: u64) -> String {
        let n = self.next(most + 1);
        (0..n).map(|_| char::from(b'0' + self.next(10) as u8)).collect()
    }

    fn number(&mut self) -> String {
        let mut s = String::new();
        match self.next(8) {
            0 => s.push('-'),
            1 => s.push('+'),
            _ => {}
        }
        match self.next(3) {
            0 => s.push_str(&self.digits(3)),
            1 => s.push_str(&self.digits(12)),
            _ => s.push_str(&self.digits(2)),
        }
        if self.next(3) > 0 {
            s.push('.');
            let most = [1, 2, 9, 40][self.next(4) as usize];
            s.push_str(&self.digits(most));
        }
        if self.next(4) == 0 {
            s.push(if self.next(2) == 0 { 'e' } else { 'E' });
            match self.next(3) {
                0 => s.push('-'),
                1 => s.push('+'),
                _ => {}
            }
            s.push_str(&self.digits(2));
        }
        s
    }

    fn scribble(&mut self) -> String {
        let letters: Vec<char> = "0123456789.eE+-infatyNI x\u{2003}°".chars().collect();
        let n = self.next(8);
        (0..n).map(|_| letters[self.next(letters.len() as u64) as usize]).collect()
    }
}

fn expected_temperature(raw: &str) -> Result<u16, ValueConversionError> {
    let v: f32 = raw.trim().parse::<f32>().map_err(|e| ValueConversionError::Parse(e.to_string()))?;
    let scaled = (v * 10.0).round();
    if !(f32::from(i16::MIN)..=f32::from(i16::MAX)).contains(&scaled) {
        return Err(ValueConversionError::OutOfRange {
            value: raw.to_owned(),
            reason: "scaled value exceeds i16",
        });
    }
    Ok(scaled as i16 as u16)
}

const CONTROLS: [ControlId; 5] = [
    ControlId::Power,
    ControlId::Mode,
    ControlId::Setpoint,
    ControlId::SupplyFan,
    ControlId::ExhaustFan,
];

fn limits(control: ControlId) -> (f32, f32, f32, usize) {
    match control {
        ControlId::Setpoint => (15.0, 30.0, 0.5, 1),
        ControlId::SupplyFan | ControlId::ExhaustFan => (1.0, 10.0, 1.0, 0),
        ControlId::Power | ControlId::Mode => (0.0, 1.0, 0.0, 0),
    }
}

fn expected_check(control: ControlId, text: &str) -> Result<(), String> {
    let trimmed = text.trim();
    if trimmed.is_empty() {
        return Err("value is empty".into());
    }
    let parsed: f32 = trimmed.parse().map_err(|_| format!("`{trimmed}` is not a number"))?;
    let (min, max, _, _) = limits(control);
    if !(min..=max).contains(&parsed) {
        return Err(format!("must be in {min}..={max}"));
    }
    Ok(())
}

fn expected_step(control: ControlId, text: &str, sign: f32) -> String {
    let (min, max, step, decimals) = limits(control);
    let parsed: f32 = text.trim().parse().unwrap_or(0.0);
    let clamped = (parsed + sign * step).clamp(min, max);
    format!("{clamped:.decimals$}")
}

fn compare(s: &str) {
    assert_eq!(RegisterValueType::TemperatureX10.parse_word(s), expected_temperature(s), "{s:?}");
    for control in CONTROLS {
        assert_eq!(validate_buffer(control, s), expected_check(control, s), "{control:?} {s:?}");
        for up in [true, false] {
            let mut buf = EditBuffer { control, text: s.to_owned() };
            apply_step(&mut buf, up);
            let sign = if up { 1.0 } else { -1.0 };
            assert_eq!(buf.text, expected_step(control, s, sign), "{control:?} {s:?} {up}");
        }
    }
}

#[test]
fn typed_numbers_agree_with_single_precision_on_random_numbers() {
    let mut g = Gen(1);
    for _ in 0..20_000 {
        compare(&g.number());
    }
}

#[test]
fn typed_numbers_agree_with_single_precision_on_random_texts() {
    let mut g = Gen(7);
    for _ in 0..20_000 {
        compare(&g.scribble());
    }
}

#[test]
fn typed_numbers_agree_with_single_precision_on_hundredths() {
    for n in 0..5000 {
        compare(&format!("{}.{:02}", n / 100, n % 100));
        compare(&format!("-{}.{:02}", n / 100, n % 100));
    }
}

#[test]
fn typed_numbers_agree_with_single_precision_at_the_edges() {
    for s in [
        "", " ", "-", "+", ".", "-.", "e5", ".e5", "1e", "1e+", "1.", ".5", "-.5", "+.5e1", "1..2",
        "1.2.3", "0x10", "1_000", "inf", "-inf", "+INFINITY", "infinit", "nan", "-NaN", "nano",
        "0", "-0", "-0.0", "1e-45", "-1e-45", "7e-46", "-7e-46", "7.006e-46", "-7.006e-46",
        "-7.0064923216240853546186479164495806564013097093825788587853e-46",
        "-7.0064923216240853546186479164495806564013097093825788587854e-46",
        "-7.0064923216240853546186479164495806564013097093825788587855e-46",
        "1e-400", "-1e-400", "1e400", "-1e400", "1e99999999999999999999999999999999999999999",
        "-1e-99999999999999999999999999999999999999999", "0e99999999999999999999999999999999999",
        "3276.7", "3276.75", "3276.74", "3276.8", "-3276.8", "-3276.85", "-3276.9", "3276.749",
        "0.05", "0.049999999", "-0.05", "0.15", "0.25", "0.35", "0.45", "21.549999", "21.55",
        "14.9999999", "14.9999995", "14.99999952316284", "30.000001", "30.00000095367431640625",
        "30.000000953674316406250000000000000000000000000000000000000001", "29.95", "29.45",
        "22.05", "22.15", "22.25", "22.35", "1.4999999", "1.5", "2.5", "3.5", "0.5", "9.5",
        "10.49999", "0.999999999", "0.99999997", "00000000000000000000000000000000000000021.5",
        "0.0000000000000000000000000000000000000000000000000000000000000000021e67",
        "2150000000000000000000000000000000000000000000000000000000000000000e-65",
        "8191.9", "8192", "10000", "9999.99999999999999999999999999999999999",
        "\u{a0}21.5\u{3000}", "21.5°", "２１",
    ] {
        compare(s);
    }
    let long = "0".repeat(400) + "21." + &"3".repeat(400);
    compare(&long);
    compare(&(long + "e-1"));
}

#[test]
fn integers_agree_with_the_standard_library() {
    let mut g = Gen(3);
    let mut texts: Vec<String> = [
        "", "+", "-", "+-1", "-+1", "--1", "0", "-0", "+0", "00", "65535", "65536", "-1", "32767",
        "32768", "-32768", "-32769", "18446744073709551615", "18446744073709551616", "1 ", " 1",
        "99999999999999999999999999999999999x", "x99999999999999999999999999999999999", "1_0",
    ]
    .iter()
    .map(|s| (*s).to_owned())
    .collect();
    for _ in 0..20_000 {
        texts.push(g.scribble());
        texts.push(g.digits(6));
        texts.push(format!("-{}", g.digits(6)));
    }
    for s in &texts {
        assert_eq!(
            parse_u16(s).map_err(|f| f.message().to_owned()),
            s.parse::<u16>().map_err(|e| e.to_string()),
            "{s:?}"
        );
        assert_eq!(
            parse_i16(s).map_err(|f| f.message().to_owned()),
            s.parse::<i16>().map_err(|e| e.to_string()),
            "{s:?}"
        );
        assert_eq!(
            parse_u64(s).map_err(|f| f.message().to_owned()),
            s.parse::<u64>().map_err(|e| e.to_string()),
            "{s:?}"
        );
    }
}

#[test]
fn integer_registers_report_the_parse_error() {
    assert_eq!(
        RegisterValueType::U16.parse_word("70000x"),
        Err(ValueConversionError::Parse("number too large to fit in target type".into()))
    );
    assert_eq!(
        RegisterValueType::U16.parse_word("-5x"),
        Err(ValueConversionError::Parse("invalid digit found in string".into()))
    );
    assert_eq!(
        RegisterValueType::U16.parse_word("-0"),
        Err(ValueConversionError::Parse("invalid digit found in string".into()))
    );
    assert_eq!(
        RegisterValueType::Percent.parse_word(""),
        Err(ValueConversionError::Parse("cannot parse integer from empty string".into()))
    );
    assert_eq!(
        RegisterValueType::U16.parse_word("2x"),
        Err(ValueConversionError::Parse("invalid digit found in string".into()))
    );
    assert_eq!(RegisterValueType::I16.parse_word(" -2 "), Ok(0xFFFE));
}

#[test]
fn integers_outside_the_range_of_the_register_are_told_apart() {
    let beyond = |value: &str, reason: &'static str| {
        Err(ValueConversionError::OutOfRange { value: value.into(), reason })
    };
    let unsigned = "value must be in 0..=65535";
    let signed = "value must be in -32768..=32767";
    let percent = "percent must be in 0..=100";
    assert_eq!(RegisterValueType::U16.parse_word("70000"), beyond("70000", unsigned));
    assert_eq!(RegisterValueType::U16.parse_word(" +65536 "), beyond(" +65536 ", unsigned));
    assert_eq!(RegisterValueType::U16.parse_word("-5"), beyond("-5", unsigned));
    assert_eq!(
        RegisterValueType::U16.parse_word("-99999999999999999999"),
        beyond("-99999999999999999999", unsigned)
    );
    assert_eq!(RegisterValueType::Percent.parse_word(" -1 "), beyond(" -1 ", percent));
    assert_eq!(RegisterValueType::U16.parse_word("65535"), Ok(65535));
    assert_eq!(RegisterValueType::I16.parse_word("32768"), beyond("32768", signed));
    assert_eq!(RegisterValueType::I16.parse_word("-32769"), beyond("-32769", signed));
    assert_eq!(RegisterValueType::I16.parse_word("-32768"), Ok(0x8000));
    assert_eq!(RegisterValueType::Percent.parse_word("101"), beyond("101", percent));
    assert_eq!(RegisterValueType::Percent.parse_word("70000"), beyond("70000", percent));
    assert_eq!(RegisterValueType::Percent.parse_word("100"), Ok(100));
}

#[test]
fn numerals_of_any_size_are_recognised() {
    for s in ["0", "+1", "-1", "70000", "-99999999999999999999999999999999999999999"] {
        assert!(is_numeral(s), "{s:?}");
    }
    for s in ["", "+", "-", "+-1", "1x", "x1", " 1", "1 ", "1.0", "１"] {
        assert!(!is_numeral(s), "{s:?}");
    }
}

#[test]
fn texts_are_trimmed_and_folded_like_the_standard_library() {
    for s in ["", " a b ", "\u{85}\u{2028}x\u{1680}", "\u{200b}x", "\tÄB\n", "°C ", "\u{feff}y"] {
        assert_eq!(trim(s), s.trim());
        assert_eq!(trim_start(s), s.trim_start());
        assert_eq!(lowercase(s), s.to_ascii_lowercase());
    }
    for u in 0..=0x10_FFFF_u32 {
        if let Some(c) = char::from_u32(u) {
            assert_eq!(gtc_control::text::space(c), c.is_whitespace());
            assert_eq!(gtc_control::text::digit(c), c.is_ascii_digit());
        }
    }
}

#[test]
fn readings_tell_the_forms_apart() {
    assert_eq!(read(""), Reading::Empty);
    assert_eq!(read("x"), Reading::Invalid);
    assert_eq!(read("NaN"), Reading::NotANumber);
    assert_eq!(read("-Inf"), Reading::Infinite { negative: true });
    assert_eq!(
        read("0.5"),
        Reading::Finite { negative: false, size: Size::Units(0x1000_0000) }
    );
    assert_eq!(read("-0"), Reading::Finite { negative: true, size: Size::Tiny { zero: true } });
    assert_eq!(read("1e9"), Reading::Finite { negative: false, size: Size::Huge });
}
