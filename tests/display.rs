use mofetch::bench::Benchmark;
use mofetch::config::{KeyNames, KeyValues, PROGRAM_DEFAULTS};
use mofetch::help::{help_line, init_options, HelpOption};
use mofetch::info::{format_uptime, info_column, info_line, info_lines, static_info, InfoValuePair, SpaceType};

#[test]
fn spacing_text() {
    assert_eq!(SpaceType::Empty.to_str(), "");
    assert_eq!(SpaceType::Single.to_str(), "\n");
    assert_eq!(SpaceType::Double.to_str(), "\n\n");
    assert_eq!(SpaceType::Line.to_str(), "\n---------");
    assert_eq!(SpaceType::DoubleLine.to_str(), "\n-----------\n");
}

#[test]
fn uptime_text() {
    assert_eq!(format_uptime(0), "0 mins");
    assert_eq!(format_uptime(60), "1 min");
    assert_eq!(format_uptime(3600), "1 hr 0 mins");
    assert_eq!(format_uptime(7380), "2 hrs 3 mins");
    assert_eq!(format_uptime(3660), "1 hr 1 min");
}

#[test]
fn info_layout() {
    let pair = InfoValuePair {
        name: "CPU".to_string(),
        value: "Fast".to_string(),
        omit_name: false,
        space: SpaceType::Empty,
    };
    assert_eq!(info_line(&pair, 12, 5), "\x1b[5;12HCPU: Fast");
    let host = InfoValuePair {
        name: "Host Name".to_string(),
        value: "box".to_string(),
        omit_name: true,
        space: SpaceType::Single,
    };
    assert_eq!(info_line(&host, 1, 2), "\x1b[2;1Hbox\n");
    assert_eq!(info_column(40), 42);
    assert_eq!(info_column(u32::MAX), u16::MAX);
}

#[test]
fn static_entries() {
    let info = static_info(
        "box".to_string(),
        "Linux",
        "6.1",
        "6.1.0-x".to_string(),
        "Some CPU".to_string(),
        "Some GPU",
        "DiscreteGpu",
        3720,
    );
    let a = info.as_array();
    assert_eq!(a[0].value, "box");
    assert!(a[0].omit_name);
    assert_eq!(a[1].value, "Linux (6.1)");
    assert_eq!(a[2].name, "Kernel");
    assert_eq!(a[4].value, "Some GPU [DiscreteGpu]");
    assert_eq!(a[5].value, "1 hr 2 mins");
    let lines = info_lines(&info, 10);
    assert_eq!(lines.len(), 6);
    assert_eq!(lines[0], "\x1b[2;12Hbox\n-----------\n");
    assert_eq!(lines[1], "\x1b[3;12HOS: Linux (6.1)");
}

#[test]
fn help_catalog() {
    let groups = init_options();
    assert_eq!(groups.len(), 3);
    assert_eq!(groups[0].name.as_deref(), Some("Information options"));
    assert_eq!(groups[1].name.as_deref(), Some("Pre-processing options"));
    assert_eq!(groups[2].name.as_deref(), Some("Shader options"));
    assert_eq!(groups[0].options.len(), 5);
    assert_eq!(groups[1].options.len(), 6);
    assert_eq!(groups[2].options.len(), 3);
    assert_eq!(groups[1].options[3].long.as_deref(), Some("fps"));
    assert_eq!(groups[1].options[3].datatype.as_deref(), Some("int"));
}

#[test]
fn help_lines_are_padded() {
    let groups = init_options();
    let line = help_line(&groups[0].options[0]);
    assert_eq!(line, format!("-h --help{}Display this help message", " ".repeat(19)));
    let line = help_line(&groups[0].options[4]);
    assert_eq!(line, format!("   --gpus{}Get all available GPU adapters by index", " ".repeat(19)));
    let long = HelpOption {
        short: None,
        long: Some("a-very-long-option-name-indeed".to_string()),
        desc: Some("d".to_string()),
        datatype: None,
    };
    assert_eq!(help_line(&long), "   --a-very-long-option-name-indeedd");
}

#[test]
fn benchmark_average() {
    let mut b = Benchmark::init();
    assert_eq!(b, Benchmark { total_time: 0, image_decode_time: 0, render_time: 0, cache_time: 0 });
    b.add(&Benchmark { total_time: 10, image_decode_time: 4, render_time: 6, cache_time: 9 });
    b.add(&Benchmark { total_time: 20, image_decode_time: 4, render_time: 7, cache_time: 0 });
    b.average(2);
    assert_eq!(b, Benchmark { total_time: 30, image_decode_time: 4, render_time: 6, cache_time: 4 });
    let mut big = Benchmark { total_time: u128::MAX, image_decode_time: 0, render_time: 0, cache_time: 0 };
    big.add(&Benchmark { total_time: 1, image_decode_time: 0, render_time: 0, cache_time: 0 });
    assert_eq!(big.total_time, u128::MAX);
}

#[test]
fn configuration_tables() {
    assert!(PROGRAM_DEFAULTS.contains("[key_names]"));
    let n = KeyNames {
        os: "OS".to_string(),
        kernel: "Kernel".to_string(),
        cpu: "CPU".to_string(),
        gpu: "GPU".to_string(),
        cpu_usage: "CPU usage".to_string(),
        uptime: "Uptime".to_string(),
    };
    assert_eq!(n.cpu_usage, "CPU usage");
    let v = KeyValues {
        host_name: "system_default".to_string(),
        os: "system_default".to_string(),
        kernel: "system_default".to_string(),
        cpu: "system_default".to_string(),
        gpu: "system_default".to_string(),
    };
    assert_eq!(v.gpu, "system_default");
}
