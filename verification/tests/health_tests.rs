use ce_editor::health::{
    check_config, llm_address, style_for_checkhealth_line, ConfigFile, ConfigSummary, HealthBuilder, HealthStyle,
};

#[test]
fn builder_lines_are_marked_and_joined() {
    let mut hb = HealthBuilder::new();
    hb.header("Git");
    hb.ok("x");
    hb.error("y");
    hb.warn("z");
    hb.info("w");
    assert_eq!(hb.build(), "\n## Git\n\n  \u{2713} x\n  \u{2717} y\n  \u{26a0} z\n    w");
}

#[test]
fn empty_builder_gives_empty_report() {
    assert_eq!(HealthBuilder::new().build(), "");
}

#[test]
fn line_styles_follow_the_mark() {
    let s = style_for_checkhealth_line("  \u{2713} ok");
    assert_eq!(s.len(), 6);
    assert_eq!(s[0], None);
    assert_eq!(s[1], None);
    assert_eq!(s[2], Some(HealthStyle::Passed));
    assert_eq!(s[5], Some(HealthStyle::Passed));
    let e = style_for_checkhealth_line("  \u{2717} bad");
    assert_eq!(e[2], Some(HealthStyle::ErrorMark));
    assert_eq!(e[3], Some(HealthStyle::Error));
    let h = style_for_checkhealth_line("## Sec");
    assert!(h.iter().all(|x| *x == Some(HealthStyle::Section)));
    let plain = style_for_checkhealth_line("plain");
    assert!(plain.iter().all(|x| x.is_none()));
}

#[test]
fn llm_address_appends_the_port() {
    assert_eq!(llm_address("http://localhost", 8080), "http://localhost:8080");
}

fn summary(bindings: [usize; 6]) -> ConfigSummary {
    ConfigSummary {
        init_mode: "vim".to_string(),
        format_on_save: true,
        show_startup_hints: false,
        popup_enabled: true,
        bindings,
    }
}

#[test]
fn config_check_reports_valid_json() {
    let mut hb = HealthBuilder::new();
    let f = ConfigFile::Present("/c.json".to_string(), Ok("{\"a\": 1}".to_string()));
    check_config(&mut hb, &f, &summary([0; 6]));
    let r = hb.build();
    assert!(r.contains("  \u{2713} Config file: /c.json\n  \u{2713} Config file is valid JSON\n"));
    assert!(r.contains("    init_mode: vim\n"));
    assert!(r.contains("    format_on_save: true\n"));
    assert!(r.ends_with("    (Using default keybindings)") || r.contains("(Using default keybindings)"));
}

#[test]
fn config_check_reports_json_errors() {
    let mut hb = HealthBuilder::new();
    let f = ConfigFile::Present("/c.json".to_string(), Ok("{bad".to_string()));
    check_config(&mut hb, &f, &summary([1, 0, 0, 2, 0, 0]));
    let r = hb.build();
    assert!(r.contains("  \u{2717} Config file has invalid JSON: "));
    assert!(r.contains("  \u{2713} Total: 3 custom bindings loaded"));
}

#[test]
fn config_check_without_a_file() {
    let mut hb = HealthBuilder::new();
    check_config(&mut hb, &ConfigFile::Absent("/x/config.json".to_string()), &summary([0; 6]));
    let r = hb.build();
    assert!(r.contains("  \u{2713} Using default configuration (no config file found)\n    Would be at: /x/config.json"));
}
