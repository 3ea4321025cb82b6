use conky_hwmon::{classify, locate, replace_hwmon_path, CliError, Config, LineAction, SensorKind};

fn args(list: &[&str]) -> Vec<String> {
    list.iter().map(|a| String::from(*a)).collect()
}

fn config(no_coretemp: bool, no_nvme: bool) -> Config {
    Config { help: false, inplace: false, no_coretemp, no_nvme, rc_file: None }
}

fn rewrite(line: &str, cfg: &Config, reg: &Vec<Option<String>>) -> String {
    match classify(line, cfg) {
        LineAction::Keep => String::from(line),
        LineAction::Patch(kind) => {
            replace_hwmon_path(String::from(line), locate(kind.chip_name(), reg))
        }
    }
}

fn registry(entries: &[&str]) -> Vec<Option<String>> {
    entries.iter().map(|e| Some(String::from(*e))).collect()
}

#[test]
fn cpu_line_is_patched_with_coretemp_index() {
    let reg = registry(&["acpi", "coretemp"]);
    let cfg = config(false, false);
    let line = "== CPU == temp hwmon 3 foo";
    assert_eq!(classify(line, &cfg), LineAction::Patch(SensorKind::CoreTemperature));
    assert_eq!(locate("coretemp", &reg), Some(1));
    assert_eq!(rewrite(line, &cfg, &reg), "== CPU == temp hwmon 1 foo");
}

#[test]
fn suppressed_cpu_line_is_kept() {
    let reg = registry(&["acpi", "coretemp"]);
    let cfg = config(true, false);
    let line = "== CPU == temp hwmon 3 foo";
    assert_eq!(classify(line, &cfg), LineAction::Keep);
    assert_eq!(rewrite(line, &cfg, &reg), line);
}

#[test]
fn disk_line_with_word_token_is_kept() {
    let reg = registry(&["nvme"]);
    let cfg = config(false, false);
    let line = "== Disk IO == hwmon foo";
    assert_eq!(classify(line, &cfg), LineAction::Patch(SensorKind::NvmeDisk));
    assert_eq!(rewrite(line, &cfg, &reg), line);
}

#[test]
fn disk_line_without_nvme_is_kept() {
    let reg = registry(&["coretemp", "acpi"]);
    let cfg = config(false, false);
    let line = "== Disk IO == read hwmon 4 x";
    assert_eq!(locate("nvme", &reg), None);
    assert_eq!(rewrite(line, &cfg, &reg), line);
}

#[test]
fn disk_line_is_patched_with_nvme_index() {
    let reg = registry(&["coretemp", "acpi", "nvme"]);
    let cfg = config(false, false);
    assert_eq!(rewrite("== Disk IO == read hwmon 4 x", &cfg, &reg), "== Disk IO == read hwmon 2 x");
    let cfg = config(false, true);
    assert_eq!(classify("== Disk IO == read hwmon 4 x", &cfg), LineAction::Keep);
}

#[test]
fn comment_lines_are_kept() {
    let cfg = config(false, false);
    for line in ["-- == CPU == hwmon 3 x", "--", "-- hwmon 1 z"] {
        assert_eq!(classify(line, &cfg), LineAction::Keep);
    }
}

#[test]
fn lines_without_hwmon_are_kept() {
    let cfg = config(false, false);
    for line in ["== CPU == temp 3 foo", "", "== Disk IO == HWMON 2 a"] {
        assert_eq!(classify(line, &cfg), LineAction::Keep);
    }
}

#[test]
fn other_lines_with_hwmon_are_kept() {
    let cfg = config(false, false);
    assert_eq!(classify("${hwmon 3 temp 1}", &cfg), LineAction::Keep);
    assert_eq!(classify(" == CPU == hwmon 3 x", &cfg), LineAction::Keep);
}

#[test]
fn rewriting_twice_matches_once() {
    let reg = registry(&["acpi", "coretemp", "nvme"]);
    for cfg in [config(false, false), config(true, false), config(false, true)] {
        for line in [
            "== CPU == temp hwmon 3 foo",
            "== Disk IO == hwmon 0 read",
            "-- hwmon 4",
            "== CPU == hwmon",
            "plain",
        ] {
            let once = rewrite(line, &cfg, &reg);
            assert_eq!(rewrite(&once, &cfg, &reg), once);
        }
    }
}

#[test]
fn cli_flags_and_file() {
    let c = Config::from_cli(&args(&["prog", "-i", "--no-nvme", "rc"])).unwrap();
    assert!(c.inplace && c.no_nvme && !c.help && !c.no_coretemp);
    assert_eq!(c.rc_file, Some(String::from("rc")));
    let c = Config::from_cli(&args(&["prog", "--help", "--inplace", "--no-coretemp"])).unwrap();
    assert!(c.help && c.inplace && c.no_coretemp && !c.no_nvme);
    assert_eq!(c.rc_file, None);
    let c = Config::from_cli(&args(&["prog", "-h"])).unwrap();
    assert!(c.help);
}

#[test]
fn cli_without_arguments() {
    let c = Config::from_cli(&args(&["prog"])).unwrap();
    assert!(!c.help && !c.inplace && !c.no_coretemp && !c.no_nvme);
    assert_eq!(c.rc_file, None);
    assert!(Config::from_cli(&[]).is_ok());
}

#[test]
fn cli_two_files_is_an_error() {
    let r = Config::from_cli(&args(&["prog", "a", "-i", "b"]));
    assert_eq!(r.unwrap_err(), CliError::MultipleRcFiles);
}
