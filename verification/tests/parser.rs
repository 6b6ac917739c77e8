use winget_core::package::WingetPackage;
use winget_core::parser::parse_winget_output;

const HEADER: &str = "Name                 Id                      Version    Available  Source";

fn text(s: &str) -> String {
    s.to_string()
}

fn row(name: &str, id: &str, version: &str, available: &str, source: &str) -> String {
    format!("{:<21}{:<24}{:<11}{:<11}{}", name, id, version, available, source)
}

fn seven_zip() -> WingetPackage {
    WingetPackage {
        name: text("7-Zip"),
        id: text("7zip.7zip"),
        version: text("19.00"),
        available_version: Some(text("21.07")),
        source: Some(text("winget")),
    }
}

#[test]
fn header_and_one_row_give_one_record() {
    let output = "Name                 Id                      Version    Available  Source\n\
                  7-Zip                7zip.7zip               19.00      21.07      winget\n";
    assert_eq!(parse_winget_output(output), vec![seven_zip()]);
}

#[test]
fn dash_run_in_available_column_gives_no_available_version() {
    let output = "Name                 Id                      Version    Available  Source\n\
                  7-Zip                7zip.7zip               19.00      ----       winget\n";
    let packages = parse_winget_output(output);
    assert_eq!(packages.len(), 1);
    assert_eq!(packages[0].available_version, None);
    assert_eq!(packages[0].version, "19.00");
    assert_eq!(packages[0].source, Some(text("winget")));
}

#[test]
fn empty_output_gives_no_records() {
    assert!(parse_winget_output("").is_empty());
    assert!(parse_winget_output("\n\n").is_empty());
}

#[test]
fn output_without_a_header_gives_no_records() {
    assert!(parse_winget_output("No installed package found matching input criteria.\n").is_empty());
    let rows_only = format!("{}\n", row("7-Zip", "7zip.7zip", "19.00", "21.07", "winget"));
    assert!(parse_winget_output(&rows_only).is_empty());
}

#[test]
fn header_without_rows_gives_no_records() {
    assert!(parse_winget_output(HEADER).is_empty());
    assert!(parse_winget_output(&format!("{}\n{}\n", HEADER, "-".repeat(74))).is_empty());
}

#[test]
fn lines_above_the_header_and_rules_below_it_are_skipped() {
    let output = format!(
        "   - \n   \\ \n\n{}\n{}\n{}\n{}\n",
        HEADER,
        "-".repeat(74),
        row("7-Zip", "7zip.7zip", "19.00", "21.07", "winget"),
        row("Git", "Git.Git", "2.40.0", "", "winget"),
    );
    assert_eq!(
        parse_winget_output(&output),
        vec![
            seven_zip(),
            WingetPackage {
                name: text("Git"),
                id: text("Git.Git"),
                version: text("2.40.0"),
                available_version: None,
                source: Some(text("winget")),
            },
        ]
    );
}

#[test]
fn carriage_returns_do_not_reach_the_fields() {
    let output = format!(
        "{}\r\n{}\r\n{}\r\n",
        HEADER,
        row("7-Zip", "7zip.7zip", "19.00", "21.07", "winget"),
        "7-Zip                7zip.7zip",
    );
    let packages = parse_winget_output(&output);
    assert_eq!(packages.len(), 2);
    assert_eq!(packages[0], seven_zip());
    assert_eq!(packages[1].id, "7zip.7zip");
    assert_eq!(packages[1].version, "");
}

#[test]
fn turkish_header_is_recognised() {
    let output = format!(
        "{:<21}{:<24}{:<11}{:<15}{}\n{}\n{:<21}{:<24}{:<11}{:<15}{}\n",
        "Ad",
        "Kimlik",
        "Sürüm",
        "Kullanılabilir",
        "Kaynak",
        "-".repeat(80),
        "Sürücü Aracı",
        "Şirket.Araç",
        "1.0",
        "2.0",
        "winget",
    );
    assert_eq!(
        parse_winget_output(&output),
        vec![WingetPackage {
            name: text("Sürücü Aracı"),
            id: text("Şirket.Araç"),
            version: text("1.0"),
            available_version: Some(text("2.0")),
            source: Some(text("winget")),
        }]
    );
}

#[test]
fn header_without_some_columns_uses_default_offsets() {
    let output = format!(
        "{:<30}{}\n{:<30}{:<30}{:<20}{:<20}{}\n",
        "Name", "Id", "Tool", "tool.id", "1.0", "1.1", "msstore"
    );
    assert_eq!(
        parse_winget_output(&output),
        vec![WingetPackage {
            name: text("Tool"),
            id: text("tool.id"),
            version: text("1.0"),
            available_version: Some(text("1.1")),
            source: Some(text("msstore")),
        }]
    );
}

#[test]
fn row_with_empty_name_gives_no_record() {
    let output = format!(
        "{}\n{}\n{}\n",
        HEADER,
        row("", "orphan.id", "1.0", "", ""),
        row("7-Zip", "7zip.7zip", "19.00", "21.07", "winget"),
    );
    assert_eq!(parse_winget_output(&output), vec![seven_zip()]);
}

#[test]
fn fallback_reads_what_the_columns_cannot() {
    let output = "Id                              Name\n\
                  Foo Tool  foo.id 1.0\n\
                  -----\n\
                  Bar  bar.id 2.0 2.1 winget\n\
                  not a row\n";
    assert_eq!(
        parse_winget_output(output),
        vec![
            WingetPackage {
                name: text("Foo Tool"),
                id: text("foo.id"),
                version: text("1.0"),
                available_version: None,
                source: None,
            },
            WingetPackage {
                name: text("Bar"),
                id: text("bar.id"),
                version: text("2.0"),
                available_version: Some(text("2.1")),
                source: Some(text("winget")),
            },
        ]
    );
}

#[test]
fn fallback_does_not_run_once_the_columns_gave_a_record() {
    let loose = "                     Foo  foo.id 1.0";
    let output = format!(
        "{}\n{}\n{}\n",
        HEADER,
        row("7-Zip", "7zip.7zip", "19.00", "21.07", "winget"),
        loose,
    );
    assert_eq!(parse_winget_output(&output), vec![seven_zip()]);
}

#[test]
fn fallback_runs_once_the_columns_gave_nothing() {
    let loose = "                     Foo  foo.id 1.0";
    let output = format!("{}\n{}\n", HEADER, loose);
    assert_eq!(
        parse_winget_output(&output),
        vec![WingetPackage {
            name: text("Foo"),
            id: text("foo.id"),
            version: text("1.0"),
            available_version: None,
            source: None,
        }]
    );
}

#[test]
fn fallback_drops_an_available_version_that_repeats_the_installed_one() {
    let output = "Name                          Id        Version\nFoo  a.b 1.0 1.0 winget";
    assert_eq!(
        parse_winget_output(output),
        vec![WingetPackage {
            name: text("Foo"),
            id: text("a.b"),
            version: text("1.0"),
            available_version: None,
            source: Some(text("winget")),
        }]
    );
}

#[test]
fn fallback_drops_dash_runs() {
    let output = "Name                          Id        Version\nFoo  a.b 1.0 --- ----";
    assert_eq!(
        parse_winget_output(output),
        vec![WingetPackage {
            name: text("Foo"),
            id: text("a.b"),
            version: text("1.0"),
            available_version: None,
            source: None,
        }]
    );
}

#[test]
fn no_record_shows_a_placeholder_or_a_repeated_version() {
    let fixed = format!(
        "{}\n{}\n{}\n{}\n",
        HEADER,
        row("a", "a.a", "1", "1", "---"),
        row("b", "b.b", "1", "----", "winget"),
        row("c", "c.c", "1", "2", ""),
    );
    let loose = "Name                          Id        Version\n\
                 a  a.a 1 1 ---\n\
                 b  b.b 1 ---- winget\n\
                 c  c.c 1 2\n";
    for output in [fixed.as_str(), loose] {
        let packages = parse_winget_output(output);
        assert_eq!(packages.len(), 3);
        assert_eq!(packages[0].available_version, None);
        assert_eq!(packages[0].source, None);
        assert_eq!(packages[1].available_version, None);
        assert_eq!(packages[1].source, Some(text("winget")));
        assert_eq!(packages[2].available_version, Some(text("2")));
        assert_eq!(packages[2].source, None);
        for p in &packages {
            if let Some(available) = &p.available_version {
                assert!(!available.is_empty());
                assert_ne!(available, &p.version);
                assert!(!available.contains("---"));
            }
            if let Some(source) = &p.source {
                assert!(!source.is_empty());
                assert!(!source.contains("---"));
            }
        }
    }
}

#[test]
fn both_passes_may_come_up_empty() {
    let output = format!("{}\n{}\n{}\n", HEADER, "x", "+----+");
    assert!(parse_winget_output(&output).is_empty());
}

#[test]
fn every_record_has_a_name_and_an_identifier() {
    let output = format!(
        "{}\n{}\n{}\n{}\n{}\n",
        HEADER,
        row("7-Zip", "7zip.7zip", "19.00", "21.07", "winget"),
        row("", "a", "b", "c", "d"),
        row("n", "", "b", "c", "d"),
        row("n", "i", "", "", ""),
    );
    let packages = parse_winget_output(&output);
    assert_eq!(packages.len(), 2);
    for p in &packages {
        assert!(!p.name.trim().is_empty());
        assert!(!p.id.trim().is_empty());
    }
}
