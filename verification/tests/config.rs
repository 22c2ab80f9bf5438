//! Command-line interpretation, lookup tables, decode flags, and the
//! option-text width helper.

use aubinator::device::lookup_device;
use aubinator::device::pci_id_for_name;
use aubinator::device::DeviceDescriptor;
use aubinator::device::PlatformName;
use aubinator::dispatch::Event;
use aubinator::dispatch::Replayer;
use aubinator::errors::ConfigError;
use aubinator::options::interpret_options;
use aubinator::options::parse_u64;
use aubinator::options::CmdLine;
use aubinator::options::RawOptions;
use aubinator::session::decode_flags;
use aubinator::width::UnicodeWidthStr;

fn plain_raw() -> RawOptions {
    RawOptions {
        help: false,
        gen_name: None,
        headers: false,
        color: None,
        max_vbo_lines: None,
        no_pager: false,
        no_offsets: false,
        xml_dir: None,
    }
}

fn platform_names() -> Vec<PlatformName> {
    vec![
        PlatformName { name: "skl".to_string(), pci_id: 0x1912 },
        PlatformName { name: "kbl".to_string(), pci_id: 0x5916 },
    ]
}

#[test]
fn parse_u64_exact_values() {
    assert_eq!(parse_u64(&"0".to_string()), Some(0));
    assert_eq!(parse_u64(&"5".to_string()), Some(5));
    assert_eq!(parse_u64(&"40960".to_string()), Some(40960));
    assert_eq!(parse_u64(&"18446744073709551615".to_string()), Some(u64::MAX));
}

#[test]
fn parse_u64_rejects_bad_input() {
    assert_eq!(parse_u64(&"".to_string()), None);
    assert_eq!(parse_u64(&"12a".to_string()), None);
    assert_eq!(parse_u64(&"-3".to_string()), None);
    assert_eq!(parse_u64(&" 7".to_string()), None);
    // One past u64::MAX overflows.
    assert_eq!(parse_u64(&"18446744073709551616".to_string()), None);
}

#[test]
fn help_flag_requests_usage() {
    let mut raw = plain_raw();
    raw.help = true;
    assert_eq!(interpret_options(raw, &platform_names()), Err(ConfigError::Usage));
}

#[test]
fn bad_color_value_requests_usage() {
    let mut raw = plain_raw();
    raw.color = Some("sometimes".to_string());
    assert_eq!(interpret_options(raw, &platform_names()), Err(ConfigError::Usage));
}

#[test]
fn bad_max_vbo_lines_requests_usage() {
    let mut raw = plain_raw();
    raw.max_vbo_lines = Some("many".to_string());
    assert_eq!(interpret_options(raw, &platform_names()), Err(ConfigError::Usage));
}

#[test]
fn color_values_are_interpreted() {
    for (text, want) in [("auto", None), ("always", Some(true)), ("never", Some(false))] {
        let mut raw = plain_raw();
        raw.color = Some(text.to_string());
        let cmd = interpret_options(raw, &platform_names()).expect("valid color");
        assert_eq!(cmd.color, want);
    }
}

#[test]
fn full_command_line_is_interpreted() {
    let raw = RawOptions {
        help: false,
        gen_name: Some("kbl".to_string()),
        headers: true,
        color: Some("never".to_string()),
        max_vbo_lines: Some("128".to_string()),
        no_pager: true,
        no_offsets: true,
        xml_dir: Some("/tmp/xml".to_string()),
    };
    let cmd = interpret_options(raw, &platform_names()).expect("valid command line");
    assert_eq!(cmd.gen, Some(0x5916));
    assert!(cmd.headers);
    assert_eq!(cmd.color, Some(false));
    assert_eq!(cmd.max_vbo_lines, Some(128));
    assert!(cmd.disable_pager);
    assert!(cmd.no_offsets);
    assert_eq!(cmd.xml_dir.as_deref(), Some("/tmp/xml"));
}

#[test]
fn unknown_platform_is_a_config_error() {
    let mut raw = plain_raw();
    raw.gen_name = Some("xyz".to_string());
    assert_eq!(
        interpret_options(raw, &platform_names()),
        Err(ConfigError::UnknownPlatform { name: "xyz".to_string() })
    );
}

#[test]
fn platform_name_lookup_finds_first_match() {
    assert_eq!(pci_id_for_name(&platform_names(), &"skl".to_string()), Some(0x1912));
    assert_eq!(pci_id_for_name(&platform_names(), &"xyz".to_string()), None);
}

#[test]
fn device_lookup_finds_first_match() {
    let table = vec![
        DeviceDescriptor { pci_id: 7, generation: 8 },
        DeviceDescriptor { pci_id: 7, generation: 11 },
    ];
    let d = lookup_device(&table, 7).expect("present");
    assert_eq!(d.generation, 8);
    assert_eq!(lookup_device(&table, 8), None);
}

fn cmdline_with_color(color: Option<bool>) -> CmdLine {
    CmdLine {
        gen: None,
        headers: false,
        color,
        max_vbo_lines: None,
        disable_pager: true,
        no_offsets: false,
        xml_dir: None,
    }
}

#[test]
fn color_never_disables_colored_decode() {
    // The device supports colour decode; the flag still wins.
    let devices = vec![DeviceDescriptor { pci_id: 0x1234, generation: 12 }];
    let mut r = Replayer::new(cmdline_with_color(Some(false)), devices);
    r.process_event(&Event::DeviceInfo { pci_id: 0x1234, app_name: "demo".to_string() })
        .expect("device known");
    let flags = r.session.expect("session").flags;
    assert!(!flags.in_color);
}

#[test]
fn color_auto_and_always_allow_color() {
    assert!(decode_flags(&cmdline_with_color(None)).in_color);
    assert!(decode_flags(&cmdline_with_color(Some(true))).in_color);
}

#[test]
fn headers_and_offsets_flags_map_through() {
    let mut c = cmdline_with_color(None);
    c.headers = true;
    c.no_offsets = true;
    let f = decode_flags(&c);
    assert!(!f.full);
    assert!(!f.offsets);
    let g = decode_flags(&cmdline_with_color(None));
    assert!(g.full);
    assert!(g.offsets);
}

#[test]
fn width() {
    assert_eq!("hello".width(), 5);
    assert_eq!("".width(), 0);
    assert_eq!("--max-vbo-lines".width(), 15);
}
