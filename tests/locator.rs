use conky_hwmon::{locate, SensorKind};

fn registry(entries: &[Option<&str>]) -> Vec<Option<String>> {
    entries.iter().map(|e| e.map(String::from)).collect()
}

#[test]
fn finds_coretemp_after_acpi() {
    let reg = registry(&[Some("acpi"), Some("coretemp")]);
    assert_eq!(locate("coretemp", &reg), Some(1));
}

#[test]
fn absent_chip_is_not_found() {
    let reg = registry(&[Some("coretemp"), Some("acpi")]);
    assert_eq!(locate("nvme", &reg), None);
    assert_eq!(locate("nvme", &Vec::new()), None);
}

#[test]
fn first_match_wins() {
    let reg = registry(&[Some("acpi"), Some("nvme"), Some("nvme")]);
    assert_eq!(locate("nvme", &reg), Some(1));
}

#[test]
fn unreadable_entries_are_skipped() {
    let reg = registry(&[None, Some("nvme")]);
    assert_eq!(locate("nvme", &reg), Some(1));
}

#[test]
fn comparison_is_exact() {
    let reg = registry(&[Some("nvme\n"), Some("Nvme"), Some("nvme0")]);
    assert_eq!(locate("nvme", &reg), None);
}

#[test]
fn sensor_kinds_name_their_chips() {
    assert_eq!(SensorKind::CoreTemperature.chip_name(), "coretemp");
    assert_eq!(SensorKind::NvmeDisk.chip_name(), "nvme");
    assert_eq!(SensorKind::CoreTemperature.section_marker(), "== CPU ==");
    assert_eq!(SensorKind::NvmeDisk.section_marker(), "== Disk IO ==");
}
