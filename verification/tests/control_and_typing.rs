use bark_core::control::{control_event_name, parse_pid, PidError};
use bark_core::typer::{encode_utf16, typer_plan, unicode_inputs, TyperPlan};

#[test]
fn pid_parsing() {
    assert_eq!(parse_pid(" 1234\n"), Ok(1234));
    assert_eq!(parse_pid("+5"), Ok(5));
    assert_eq!(parse_pid("2147483647"), Ok(i32::MAX));
    assert_eq!(parse_pid("0"), Err(PidError::Zero));
    assert_eq!(parse_pid("000"), Err(PidError::Zero));
    assert_eq!(parse_pid("2147483648"), Err(PidError::TooLarge));
    assert_eq!(parse_pid("4294967295"), Err(PidError::TooLarge));
    assert_eq!(parse_pid("4294967296"), Err(PidError::Invalid));
    assert_eq!(parse_pid("99999999999999999999x"), Err(PidError::Invalid));
    assert_eq!(parse_pid(""), Err(PidError::Invalid));
    assert_eq!(parse_pid("+"), Err(PidError::Invalid));
    assert_eq!(parse_pid("-1"), Err(PidError::Invalid));
    assert_eq!(parse_pid("12 34"), Err(PidError::Invalid));
    assert_eq!(parse_pid("abc"), Err(PidError::Invalid));
}

#[test]
fn pid_parsing_agrees_with_std() {
    for s in ["7", " 42 ", "+0", "+", "-3", "4294967295", "4294967296", "1e3", "\u{3000}8\u{3000}"] {
        let expected = match s.trim().parse::<u32>() {
            Err(_) => Err(PidError::Invalid),
            Ok(0) => Err(PidError::Zero),
            Ok(v) => i32::try_from(v).map_err(|_| PidError::TooLarge),
        };
        assert_eq!(parse_pid(s), expected, "{s:?}");
    }
}

#[test]
fn control_event_name_hashes_the_path() {
    let path: Vec<u16> = "c:\\users\\me\\appdata\\barkd.pid".encode_utf16().collect();
    let mut hash = 0xcbf2_9ce4_8422_2325_u64;
    for &unit in &path {
        hash ^= u64::from(unit);
        hash = hash.wrapping_mul(0x100_0000_01b3);
    }
    let expected: Vec<u16> = format!("Local\\barkd-control-{hash:016x}")
        .encode_utf16()
        .chain(std::iter::once(0))
        .collect();
    assert_eq!(control_event_name(&path), expected);
    let empty: Vec<u16> = "Local\\barkd-control-cbf29ce484222325\0".encode_utf16().collect();
    assert_eq!(control_event_name(&[]), empty);
}

#[test]
fn unicode_input_has_key_down_and_key_up_for_each_utf16_unit() {
    let inputs = unicode_inputs("A\u{1F415}");

    assert_eq!(inputs.len(), 6);
    for pair in inputs.chunks_exact(2) {
        let down = pair[0];
        let up = pair[1];
        assert_eq!(down.unit, up.unit);
        assert!(!down.key_up);
        assert!(up.key_up);
    }
    let units: Vec<u16> = inputs.iter().step_by(2).map(|e| e.unit).collect();
    assert_eq!(units, "A\u{1F415}".encode_utf16().collect::<Vec<u16>>());
}

#[test]
fn utf16_encoding_agrees_with_std() {
    for s in ["", "plain", "\u{e9}t\u{e9}", "\u{FFFF}\u{10000}\u{10FFFF}", "\u{1F415}\u{1F436}x"] {
        assert_eq!(encode_utf16(s), s.encode_utf16().collect::<Vec<u16>>(), "{s:?}");
    }
}

#[test]
fn typer_plans() {
    let cmd = vec!["wtype".to_string(), "-".to_string()];
    assert_eq!(typer_plan(&cmd, "", false), Ok(TyperPlan::Nothing));
    assert_eq!(typer_plan(&[], "", false), Ok(TyperPlan::Nothing));
    assert_eq!(typer_plan(&cmd, "hi", false), Ok(TyperPlan::Spawn));
    assert_eq!(typer_plan(&[], "hi", true), Ok(TyperPlan::Native));
    assert_eq!(typer_plan(&[], "hi", false), Err("typer command is empty".to_string()));
}
