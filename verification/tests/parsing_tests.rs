use memscan::environ::{encode_environ, find_env_by_key, find_env_by_value};
use memscan::hex::{parse_address, parse_hex_bytes, parse_hex_u64};
use memscan::menu::{menu_action, run, CliOptions, MenuAction, RunAction};
use memscan::system::parse_pid_list;
use memscan::tokens::tokenize;

#[test]
fn hex_u64_accepts_both_cases() {
    assert_eq!(parse_hex_u64(&b"1000".to_vec()), Some(0x1000));
    assert_eq!(parse_hex_u64(&b"ff".to_vec()), Some(255));
    assert_eq!(parse_hex_u64(&b"FF".to_vec()), Some(255));
    assert_eq!(parse_hex_u64(&b"0".to_vec()), Some(0));
    assert_eq!(parse_hex_u64(&b"ffffffffffffffff".to_vec()), Some(u64::MAX));
    assert_eq!(parse_hex_u64(&b"0000000000000000ff".to_vec()), Some(255));
}

#[test]
fn hex_u64_rejects_junk_and_overflow() {
    assert_eq!(parse_hex_u64(&b"".to_vec()), None);
    assert_eq!(parse_hex_u64(&b"xyz".to_vec()), None);
    assert_eq!(parse_hex_u64(&b"12 34".to_vec()), None);
    assert_eq!(parse_hex_u64(&b"10000000000000000".to_vec()), None);
    assert_eq!(parse_hex_u64(&b"+ff".to_vec()), None);
}

#[test]
fn address_parse_takes_optional_prefix() {
    assert_eq!(parse_address(&b"0x1000".to_vec()), Some(0x1000));
    assert_eq!(parse_address(&b"1000".to_vec()), Some(0x1000));
    assert_eq!(parse_address(&b"0x".to_vec()), None);
    assert_eq!(parse_address(&b"0xZZ".to_vec()), None);
}

#[test]
fn hex_byte_pattern_parse() {
    assert_eq!(
        parse_hex_bytes(&b"DEADBEEF".to_vec()),
        Some(vec![0xDE, 0xAD, 0xBE, 0xEF])
    );
    assert_eq!(parse_hex_bytes(&b"00ff".to_vec()), Some(vec![0x00, 0xFF]));
    assert_eq!(parse_hex_bytes(&b"".to_vec()), Some(Vec::new()));
    assert_eq!(parse_hex_bytes(&b"ABC".to_vec()), None);
    assert_eq!(parse_hex_bytes(&b"zz".to_vec()), None);
}

#[test]
fn tokenizer_splits_on_runs_of_whitespace() {
    let toks = tokenize(&b"  one \t two\t\tthree  ".to_vec());
    assert_eq!(toks, vec![b"one".to_vec(), b"two".to_vec(), b"three".to_vec()]);
    assert!(tokenize(&b"   ".to_vec()).is_empty());
    assert!(tokenize(&b"".to_vec()).is_empty());
}

#[test]
fn pid_list_parse() {
    assert_eq!(parse_pid_list(&b"123 456".to_vec()), Some(vec![123, 456]));
    assert_eq!(parse_pid_list(&b" 7 ".to_vec()), Some(vec![7]));
    assert_eq!(parse_pid_list(&b"".to_vec()), Some(Vec::new()));
    assert_eq!(parse_pid_list(&b"12a".to_vec()), None);
    assert_eq!(parse_pid_list(&b"123 -4".to_vec()), None);
    assert_eq!(parse_pid_list(&b"99999999999".to_vec()), None);
    assert_eq!(parse_pid_list(&b"4294967295".to_vec()), Some(vec![u32::MAX]));
}

#[test]
fn environ_block_encoding() {
    let vars = vec![
        (b"PATH".to_vec(), b"/bin:/usr/bin".to_vec()),
        (b"HOME".to_vec(), b"/root".to_vec()),
    ];
    assert_eq!(encode_environ(&vars), b"PATH=/bin:/usr/bin\0HOME=/root".to_vec());
    assert_eq!(encode_environ(&Vec::new()), Vec::<u8>::new());
    assert_eq!(
        encode_environ(&vec![(b"A".to_vec(), Vec::new())]),
        b"A=".to_vec()
    );
}

#[test]
fn environ_lookup_finds_first_match() {
    let vars = vec![
        (b"A".to_vec(), b"1".to_vec()),
        (b"B".to_vec(), b"2".to_vec()),
        (b"C".to_vec(), b"2".to_vec()),
    ];
    assert_eq!(find_env_by_key(&vars, &b"B".to_vec()), Some(1));
    assert_eq!(find_env_by_key(&vars, &b"Z".to_vec()), None);
    assert_eq!(find_env_by_value(&vars, &b"2".to_vec()), Some(1));
    assert_eq!(find_env_by_value(&vars, &b"9".to_vec()), None);
}

fn cli(
    auto: bool,
    pkg: Option<&str>,
    var: Option<&str>,
    search_value: Option<&str>,
    new_value: Option<&str>,
) -> CliOptions {
    CliOptions {
        auto,
        pkg: pkg.map(|s| s.to_string()),
        var: var.map(|s| s.to_string()),
        search_value: search_value.map(|s| s.to_string()),
        new_value: new_value.map(|s| s.to_string()),
    }
}

#[test]
fn run_dispatches_on_present_options() {
    assert_eq!(
        run(&cli(true, Some("app"), Some("VAR"), None, Some("v"))),
        RunAction::AutomatedEdit
    );
    assert_eq!(
        run(&cli(true, Some("app"), None, Some("old"), Some("v"))),
        RunAction::SearchAndEdit
    );
    assert_eq!(
        run(&cli(true, Some("app"), Some("VAR"), Some("old"), Some("v"))),
        RunAction::AutomatedEdit
    );
    assert_eq!(run(&cli(true, Some("app"), None, None, Some("v"))), RunAction::MissingArguments);
    assert_eq!(run(&cli(true, None, None, None, None)), RunAction::MissingArguments);
    assert_eq!(run(&cli(false, None, None, None, None)), RunAction::Interactive);
    assert_eq!(
        run(&cli(false, Some("app"), Some("VAR"), Some("old"), Some("v"))),
        RunAction::Interactive
    );
}

#[test]
fn menu_choices_map_to_actions() {
    assert_eq!(menu_action(1), MenuAction::EditEnvVars);
    assert_eq!(menu_action(2), MenuAction::ShowFds);
    assert_eq!(menu_action(3), MenuAction::ShowMaps);
    assert_eq!(menu_action(4), MenuAction::DirectMemMod);
    assert_eq!(menu_action(5), MenuAction::Exit);
    assert_eq!(menu_action(0), MenuAction::Invalid);
    assert_eq!(menu_action(6), MenuAction::Invalid);
}
