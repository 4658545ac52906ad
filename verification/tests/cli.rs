use kotoma::cli::{
    check_extension, config_source, devices_report, devices_request, entry, from_source,
    log_dir_path, parse_number, parse_tier, update_banner, update_command, update_failed,
    ConfigSource, DevicesRequest, Entry, LogDir, OutputName,
};

fn strings(list: &[&str]) -> Vec<String> {
    list.iter().map(|s| s.to_string()).collect()
}

#[test]
fn subcommands_come_first() {
    match entry(&strings(&["kotoma", "update", "high"])) {
        Entry::Update { tier } => assert_eq!(tier, Some("high".to_string())),
        _ => panic!("no update"),
    }
    match entry(&strings(&["kotoma", "update"])) {
        Entry::Update { tier } => assert_eq!(tier, None),
        _ => panic!("no update"),
    }
    match entry(&strings(&["kotoma", "model", "use", "x"])) {
        Entry::Model { args } => assert_eq!(args, vec!["use", "x"]),
        _ => panic!("no model"),
    }
    match entry(&strings(&["kotoma", "devices"])) {
        Entry::Devices { args } => assert!(args.is_empty()),
        _ => panic!("no devices"),
    }
    assert!(matches!(entry(&strings(&["kotoma", "notes.md"])), Entry::Session));
    assert!(matches!(entry(&strings(&["kotoma"])), Entry::Session));
    assert!(matches!(entry(&vec![]), Entry::Session));
}

#[test]
fn tiers_are_known() {
    assert_eq!(parse_tier(None), Ok(None));
    for t in ["standard", "high", "both"] {
        assert_eq!(parse_tier(Some(t)), Ok(Some(t.to_string())));
    }
    assert_eq!(
        parse_tier(Some("low")),
        Err("unknown tier 'low' (expected: standard | high | both)".to_string())
    );
}

#[test]
fn cargo_binaries_are_built_from_source() {
    assert!(from_source(Some("/home/u/.cargo/bin/kotoma")));
    assert!(from_source(Some("C:\\Users\\u\\.cargo\\bin\\kotoma.exe")));
    assert!(!from_source(Some("/home/u/.local/bin/kotoma")));
    assert!(!from_source(None));
}

#[test]
fn updates_run_the_install_script() {
    assert_eq!(update_banner(None, false), "==> Updating kotoma binary");
    assert_eq!(
        update_banner(Some("high"), true),
        "==> Updating kotoma binary (+ high models), from source"
    );
    let c = update_command(false, Some("high"), true);
    assert_eq!(c.program, "bash");
    assert_eq!(
        c.args,
        vec![
            "-c",
            "curl -fsSL 'https://raw.githubusercontent.com/shohei81/kotoma/main/install.sh' | bash -s -- high --from-source"
        ]
    );
    let c = update_command(true, Some("both"), true);
    assert_eq!(c.program, "powershell");
    assert_eq!(c.args.len(), 5);
    assert_eq!(
        c.args[4],
        "& ([scriptblock]::Create((irm -useb 'https://raw.githubusercontent.com/shohei81/kotoma/main/install.ps1'))) -Tier both -FromSource"
    );
    assert_eq!(
        update_failed("exit status: 1"),
        "update failed (install script exited with exit status: 1)"
    );
}

#[test]
fn numbers_are_read() {
    assert_eq!(parse_number("0"), Some(0));
    assert_eq!(parse_number("+12"), Some(12));
    assert_eq!(parse_number("007"), Some(7));
    assert_eq!(parse_number("18446744073709551615"), Some(u64::MAX));
    assert_eq!(parse_number("18446744073709551616"), None);
    assert_eq!(parse_number(""), None);
    assert_eq!(parse_number("+"), None);
    assert_eq!(parse_number("-1"), None);
    assert_eq!(parse_number("1 "), None);
    assert_eq!(parse_number("3.5"), None);
}

#[test]
fn devices_are_listed_or_probed() {
    assert!(matches!(devices_request(&vec![]), Ok(DevicesRequest::Listing)));
    match devices_request(&strings(&["probe", "Mic", "9"])) {
        Ok(DevicesRequest::Probe { name, secs }) => {
            assert_eq!(name, "Mic");
            assert_eq!(secs, 9);
        }
        _ => panic!("no probe"),
    }
    match devices_request(&strings(&["probe", "Mic", "soon"])) {
        Ok(DevicesRequest::Probe { secs, .. }) => assert_eq!(secs, 5),
        _ => panic!("no probe"),
    }
    match devices_request(&strings(&["probe"])) {
        Err(e) => assert_eq!(e, "usage: kotoma devices probe <device name> [secs]"),
        Ok(_) => panic!("accepted"),
    }
}

#[test]
fn the_report_on_devices() {
    assert_eq!(
        devices_report(&strings(&["(none)", "Mic"]), &strings(&["(auto)"]), &vec![]),
        "Microphone sources:\n  (none)\n  Mic\n\nSystem-audio sources:\n  (auto)\n\nSystem-audio auto-detect candidates (tried in order):\n  (none found)\n"
    );
    assert!(devices_report(&vec![], &vec![], &strings(&["x.monitor"])).ends_with(":\n  x.monitor\n"));
}

#[test]
fn outputs_have_text_extensions() {
    assert_eq!(check_extension(None), Ok(OutputName::AddMd));
    for e in ["md", "MD", "Markdown", "mdown", "mkd", "txt", "LOG"] {
        assert_eq!(check_extension(Some(e)), Ok(OutputName::Keep));
    }
    assert_eq!(
        check_extension(Some("PDF")),
        Err(
            "unsupported output extension: .pdf (allowed: .md, .markdown, .mdown, .mkd, .txt, .log)"
                .to_string()
        )
    );
}

#[test]
fn configuration_and_log_have_their_order() {
    assert_eq!(config_source(true, true, true), ConfigSource::Given);
    assert_eq!(config_source(false, true, true), ConfigSource::Here);
    assert_eq!(config_source(false, false, true), ConfigSource::Home);
    assert_eq!(config_source(false, false, false), ConfigSource::Missing);
    match log_dir_path(Some("/l"), true) {
        LogDir::Given(d) => assert_eq!(d, "/l"),
        _ => panic!("not given"),
    }
    assert!(matches!(log_dir_path(None, true), LogDir::Home));
    assert!(matches!(log_dir_path(None, false), LogDir::Here));
}
