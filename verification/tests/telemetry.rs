use qwen_engine::profile::{
    difference, integer_value, kib_value, mount_of, parse_faults, physical_core_count,
    rotational_flag, usable_output, value_after_colon, HostInfo, HostTexts, ProcessSnapshot,
};

#[test]
fn parses_linux_process_fault_fields() {
    let stat = "42 (bench worker) R 1 2 3 4 5 6 101 8 202 9";
    assert_eq!(parse_faults(stat), (Some(101), Some(202)));
}

#[test]
fn process_delta_saturates_counters() {
    let before = ProcessSnapshot {
        minor_faults: Some(10),
        read_bytes: Some(100),
        ..Default::default()
    };
    let after = ProcessSnapshot {
        minor_faults: Some(15),
        read_bytes: Some(90),
        ..Default::default()
    };
    let delta = before.delta(&after);
    assert_eq!(delta.minor_faults, Some(5));
    assert_eq!(delta.read_bytes, Some(0));
}

#[test]
fn parses_status_values_with_kib_suffix() {
    assert_eq!(kib_value("VmRSS:\t  123 kB\n", "VmRSS:"), Some(125_952));
}

#[test]
fn a_name_with_brackets_does_not_hide_the_fields() {
    let stat = "42 (a) b) R 1 2 3 4 5 6 7 8 9";
    assert_eq!(parse_faults(stat), (Some(7), Some(9)));
    assert_eq!(parse_faults("no bracket"), (None, None));
}

#[test]
fn values_stand_behind_colons() {
    let text = "model name\t: Fast CPU\nother : x\n";
    assert_eq!(value_after_colon(text, "model name"), Some("Fast CPU".into()));
    assert_eq!(value_after_colon(text, "missing"), None);
    assert_eq!(integer_value("read_bytes: 512\n", "read_bytes:"), Some(512));
    assert_eq!(difference(Some(3), None), None);
    assert_eq!(difference(Some(3), Some(5)), Some(2));
}

#[test]
fn cores_are_counted_once_per_package() {
    let block = |package: u32, core: u32| format!("physical id : {package}\ncore id : {core}\n");
    let text = [block(0, 0), block(0, 0), block(0, 1), block(1, 0)].join("\n");
    assert_eq!(physical_core_count(&text), Some(3));
    assert_eq!(physical_core_count(""), None);
}

#[test]
fn small_outputs_of_tools() {
    assert_eq!(usable_output(true, " abc\n"), Some("abc".into()));
    assert_eq!(usable_output(false, "abc"), None);
    assert_eq!(rotational_flag("1\n"), Some(true));
    assert_eq!(rotational_flag("0"), Some(false));
    assert_eq!(rotational_flag("?"), None);
    assert_eq!(
        mount_of("/dev/nvme0n1 ext4"),
        Some(("/dev/nvme0n1".into(), "ext4".into()))
    );
}

#[test]
fn a_host_is_described_from_its_texts() {
    let info = HostInfo::detect(HostTexts {
        cpuinfo: Some("model name : Fast\nphysical id : 0\ncore id : 0\n".into()),
        meminfo: Some("MemTotal:  2 kB\n".into()),
        mount: Some("/dev/sda1 xfs\n".into()),
        rotational: Some("0\n".into()),
        logical_cpus: None,
        kernel: Some("6".into()),
        rustc: None,
    });
    assert_eq!(info.cpu_model, Some("Fast".into()));
    assert_eq!(info.physical_cores, Some(1));
    assert_eq!(info.memory_total_bytes, Some(2048));
    assert_eq!(info.storage_source, Some("/dev/sda1".into()));
    assert_eq!(info.filesystem, Some("xfs".into()));
    assert_eq!(info.storage_rotational, Some(false));
    assert_eq!(info.logical_cpus, 1);
}
