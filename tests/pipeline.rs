use zram_generator::config::{
    join_path, normalize_root, parse_module, resolve_section, Config, ConfigError, Device,
    ModuleConfig,
};
use zram_generator::generator::{run_generator, Action};
use zram_generator::ini_file::IniSection;
use zram_generator::meminfo::MemInfoError;
use zram_generator::size::{Fraction, MemoryLimit};
use zram_generator::text::NumberError;

fn meminfo_mb(mb: u64) -> Option<String> {
    Some(format!(
        "MemTotal:       {} kB\nMemFree:         1000 kB\n",
        mb * 1024
    ))
}

fn args(list: &[&str]) -> Vec<String> {
    list.iter().map(|s| s.to_string()).collect()
}

fn run(config: Option<&str>, meminfo: Option<String>) -> Vec<Action> {
    let c = Config::parse(
        None,
        &args(&["/tmp/out"]),
        config.map(String::from),
        meminfo,
    )
    .unwrap();
    c.run(false).unwrap()
}

fn file_at<'a>(plan: &'a [Action], path: &str) -> Option<&'a str> {
    plan.iter().find_map(|a| match a {
        Action::WriteFile { path: p, contents } if p == path => Some(contents.as_str()),
        _ => None,
    })
}

#[test]
fn scenario_included_device() {
    let plan = run(
        Some("[zram0]\nmemory-limit=8192\nzram-fraction=0.5\n"),
        meminfo_mb(4096),
    );
    assert_eq!(plan.len(), 4);
    let service = file_at(&plan, "/tmp/out/swap-create@zram0.service").unwrap();
    assert_eq!(
        service,
        "[Unit]\nDescription=Create swap on /dev/%i\nWants=systemd-modules-load.service\n\
         After=systemd-modules-load.service\nAfter=dev-zram0.device\nDefaultDependencies=false\n\n\
         [Service]\nType=oneshot\nExecStartPre=-modprobe zram\n\
         ExecStart=sh -c 'echo 2147483648 >/sys/block/%i/disksize'\nExecStart=mkswap /dev/%i\n"
    );
    let swap = file_at(&plan, "/tmp/out/dev-zram0.swap").unwrap();
    assert_eq!(
        swap,
        "[Unit]\nDescription=Compressed swap on /dev/zram0\nRequires=swap-create@zram0.service\n\
         After=swap-create@zram0.service\n\n[Swap]\nWhat=/dev/zram0\nOptions=pri=100\n"
    );
    assert!(plan.iter().any(|a| matches!(a, Action::Symlink { target, link }
        if target == "../dev-zram0.swap" && link == "/tmp/out/swap.target.wants/dev-zram0.swap")));
    assert_eq!(file_at(&plan, "/run/modules-load.d/zram.conf"), Some("zram\n"));
}

#[test]
fn scenario_excluded_device() {
    let plan = run(Some("[zram0]\nmemory-limit=2048\n"), meminfo_mb(8192));
    assert!(plan.is_empty());
}

#[test]
fn disksize_truncates_megabytes_before_scaling() {
    // 1000 MB and a third: 333.33.. MB, so 333 whole megabytes.
    let plan = run(Some("[zram0]\nzram-fraction=0.333333\n"), meminfo_mb(1000));
    let service = file_at(&plan, "/tmp/out/swap-create@zram0.service").unwrap();
    // floor(0.333333 * 1000) = 333
    assert!(service.contains("echo 349175808 >"));
}

#[test]
fn fraction_in_exponent_notation() {
    let plan = run(Some("[zram0]\nmemory-limit=none\nzram-fraction=5e-1\n"), meminfo_mb(4096));
    let service = file_at(&plan, "/tmp/out/swap-create@zram0.service").unwrap();
    assert!(service.contains("echo 2147483648 >"));
}

#[test]
fn any_float_ratio_is_accepted() {
    let c = Config::parse(
        None,
        &args(&["o"]),
        Some("[zram0]\nmemory-limit=none\nzram-fraction=1e-25\n[zram1]\nzram-fraction=-0.5\n".into()),
        meminfo_mb(1024),
    )
    .unwrap();
    assert_eq!(c.devices.len(), 2);
    assert_eq!(c.devices[0].disksize, 0);
    assert_eq!(c.devices[1].disksize, 0);
}

#[test]
fn default_fraction_is_a_quarter() {
    let c = Config::parse(
        None,
        &args(&["/tmp/out"]),
        Some("[zram1]\n".to_string()),
        meminfo_mb(1024),
    )
    .unwrap();
    assert_eq!(c.devices.len(), 1);
    let d = &c.devices[0];
    assert_eq!(d.name, "zram1");
    assert_eq!(d.memory_limit_mb, MemoryLimit::Bounded(2048));
    assert_eq!(d.zram_fraction, Fraction { negative: false, digits: vec!['2', '5'], scale: -2 });
    assert_eq!(d.disksize, 256 * 1024 * 1024);
}

#[test]
fn memory_equal_to_limit_is_kept() {
    let c = Config::parse(None, &args(&["o"]), Some("[zram0]\nmemory-limit=2048\n".into()), meminfo_mb(2048)).unwrap();
    assert_eq!(c.devices.len(), 1);
    let c = Config::parse(
        None,
        &args(&["o"]),
        Some("[zram0]\nmemory-limit=2048\n".into()),
        Some("MemTotal: 2097153 kB\n".into()),
    )
    .unwrap();
    assert_eq!(c.devices.len(), 0);
}

#[test]
fn foreign_sections_are_ignored() {
    let plan = run(
        Some("[swap]\nmemory-limit=none\nzram-fraction=1.0\n[other]\nzram-fraction=bad\n"),
        meminfo_mb(1024),
    );
    assert!(plan.is_empty());
}

#[test]
fn unlimited_memory_limit_keeps_device() {
    let c = Config::parse(
        None,
        &args(&["o"]),
        Some("[zram0]\nmemory-limit=none\n".into()),
        Some("MemTotal: 999999999999 kB\n".into()),
    )
    .unwrap();
    assert_eq!(c.devices.len(), 1);
    assert_eq!(c.devices[0].memory_limit_mb, MemoryLimit::Unlimited);
}

#[test]
fn file_order_is_kept() {
    let c = Config::parse(
        None,
        &args(&["o"]),
        Some("[zram2]\n[zram0]\nmemory-limit=1\n[zram1]\n".into()),
        meminfo_mb(1024),
    )
    .unwrap();
    let names: Vec<&str> = c.devices.iter().map(|d| d.name.as_str()).collect();
    assert_eq!(names, vec!["zram2", "zram1"]);
}

#[test]
fn running_twice_gives_the_same_plan() {
    let text = Some("[zram0]\nzram-fraction=0.5\n[zram1]\nmemory-limit=none\n");
    let a = run(text, meminfo_mb(2000));
    let b = run(text, meminfo_mb(2000));
    assert_eq!(a.len(), b.len());
    for (x, y) in a.iter().zip(b.iter()) {
        match (x, y) {
            (Action::WriteFile { path: p1, contents: c1 }, Action::WriteFile { path: p2, contents: c2 }) => {
                assert_eq!(p1, p2);
                assert_eq!(c1, c2);
            }
            (Action::Symlink { target: t1, link: l1 }, Action::Symlink { target: t2, link: l2 }) => {
                assert_eq!(t1, t2);
                assert_eq!(l1, l2);
            }
            _ => panic!("plans differ"),
        }
    }
}

#[test]
fn absent_configuration_writes_nothing() {
    let plan = run(None, None);
    assert!(plan.is_empty());
}

#[test]
fn module_load_file_only_with_devices() {
    let plan = run(Some("[zram0]\n[zram1]\n"), meminfo_mb(1024));
    let loads = plan
        .iter()
        .filter(|a| matches!(a, Action::WriteFile { path, .. } if path == "/run/modules-load.d/zram.conf"))
        .count();
    assert_eq!(loads, 1);
    assert_eq!(plan.len(), 7);
    let plan = run(Some("[zram0]\nmemory-limit=1\n"), meminfo_mb(1024));
    assert!(file_at(&plan, "/run/modules-load.d/zram.conf").is_none());
}

#[test]
fn container_writes_nothing() {
    let c = Config::parse(None, &args(&["o"]), Some("[zram0]\n".into()), meminfo_mb(1024)).unwrap();
    assert!(c.run(true).unwrap().is_empty());
}

#[test]
fn root_override_gets_trailing_slash() {
    assert_eq!(normalize_root(None), "/");
    assert_eq!(normalize_root(Some("/tmp/root".into())), "/tmp/root/");
    assert_eq!(normalize_root(Some("/tmp/root/".into())), "/tmp/root/");
    assert_eq!(normalize_root(Some("".into())), "/");
}

#[test]
fn root_override_is_used_in_paths_and_units() {
    let c = Config::parse(
        Some("/tmp/r".into()),
        &args(&["out/", "a", "b"]),
        Some("[zram0]\n".into()),
        meminfo_mb(1024),
    )
    .unwrap();
    let plan = c.run(false).unwrap();
    let swap = file_at(&plan, "out/dev-zram0.swap").unwrap();
    assert!(swap.contains("What=/tmp/r/dev/zram0\n"));
    assert_eq!(file_at(&plan, "/tmp/r/run/modules-load.d/zram.conf"), Some("zram\n"));
}

#[test]
fn join_path_forms() {
    assert_eq!(join_path("/a", "b"), "/a/b");
    assert_eq!(join_path("/a/", "b"), "/a/b");
    assert_eq!(join_path("", "b"), "b");
}

#[test]
fn argument_counts() {
    assert!(matches!(parse_module(&args(&[])), Err(ConfigError::Arguments)));
    assert!(matches!(parse_module(&args(&["a", "b"])), Err(ConfigError::Arguments)));
    assert!(matches!(parse_module(&args(&["a", "b", "c", "d"])), Err(ConfigError::Arguments)));
    assert!(matches!(parse_module(&args(&["a"])),
        Ok(ModuleConfig::Generator { output_directory }) if output_directory == "a"));
    assert!(matches!(parse_module(&args(&["a", "b", "c"])),
        Ok(ModuleConfig::Generator { output_directory }) if output_directory == "a"));
}

#[test]
fn setup_device_arguments() {
    assert!(matches!(parse_module(&args(&["--setup-device", "zram3"])),
        Ok(ModuleConfig::DeviceSetup { name }) if name == "zram3"));
    assert!(matches!(parse_module(&args(&["--setup-device", "sda"])),
        Err(ConfigError::SetupDeviceName)));
    assert!(matches!(parse_module(&args(&["--setup-device"])),
        Err(ConfigError::SetupDeviceName)));
    let c = Config::parse(None, &args(&["--setup-device", "zram0"]), None, None).unwrap();
    assert!(matches!(c.run(false), Err(ConfigError::SetupUnimplemented { name }) if name == "zram0"));
}

#[test]
fn bad_memory_limit_is_reported() {
    let r = Config::parse(None, &args(&["o"]), Some("[zram0]\nmemory-limit=lots\n".into()), meminfo_mb(1));
    assert!(matches!(r, Err(ConfigError::MemoryLimit { path, section, value, reason: NumberError::InvalidDigit })
        if path == "/etc/systemd/zram-generator.conf" && section == "zram0" && value == "lots"));
    let r = Config::parse(None, &args(&["o"]), Some("[zram0]\nmemory-limit=99999999999999999999\n".into()), meminfo_mb(1));
    assert!(matches!(r, Err(ConfigError::MemoryLimit { reason: NumberError::Overflow, .. })));
}

#[test]
fn bad_fraction_is_reported() {
    let r = Config::parse(None, &args(&["o"]), Some("[zram0]\nzram-fraction=half\n".into()), meminfo_mb(1));
    assert!(matches!(r, Err(ConfigError::Fraction { path, section, value })
        if path == "/etc/systemd/zram-generator.conf" && section == "zram0" && value == "half"));
    let r = Config::parse(None, &args(&["o"]), Some("[zram0]\nzram-fraction=0.5.5\n".into()), meminfo_mb(1));
    assert!(matches!(r, Err(ConfigError::Fraction { .. })));
}

#[test]
fn oversized_device_is_reported() {
    let r = Config::parse(
        None,
        &args(&["o"]),
        Some("[zram0]\nmemory-limit=none\nzram-fraction=100000000\n".into()),
        Some("MemTotal: 18000000000000 kB\n".into()),
    );
    assert!(matches!(r, Err(ConfigError::SizeOverflow { section }) if section == "zram0"));
}

#[test]
fn meminfo_problems_are_reported() {
    let cfg = Some("[zram0]\n".to_string());
    let r = Config::parse(Some("/r".into()), &args(&["o"]), cfg.clone(), None);
    assert!(matches!(r, Err(ConfigError::MemInfoUnreadable { path }) if path == "/r/proc/meminfo"));
    let r = Config::parse(None, &args(&["o"]), cfg.clone(), Some("MemFree: 10 kB\n".into()));
    assert!(matches!(r, Err(ConfigError::MemInfo { problem: MemInfoError::Missing, .. })));
    let r = Config::parse(None, &args(&["o"]), cfg.clone(), Some("MemTotal: x kB\n".into()));
    assert!(matches!(r, Err(ConfigError::MemInfo { problem: MemInfoError::Value(NumberError::InvalidDigit), .. })));
}

#[test]
fn meminfo_skips_valueless_line() {
    let c = Config::parse(
        None,
        &args(&["o"]),
        Some("[zram0]\nzram-fraction=1\n".into()),
        Some("Other: 1\n  MemTotal:\nMemTotal:\t2048 kB\nMemTotal: 1 kB\n".into()),
    )
    .unwrap();
    assert_eq!(c.devices[0].disksize, 2 * 1024 * 1024);
}

#[test]
fn byte_order_mark_is_skipped() {
    let c = Config::parse(None, &args(&["o"]), Some("\u{feff}[zram0]\n".into()), meminfo_mb(1024)).unwrap();
    assert_eq!(c.devices.len(), 1);
    assert_eq!(c.devices[0].name, "zram0");
}

#[test]
fn syntax_error_is_reported() {
    let r = Config::parse(None, &args(&["o"]), Some("[zram0\n".into()), meminfo_mb(1));
    assert!(matches!(r, Err(ConfigError::Syntax { path, .. }) if path == "/etc/systemd/zram-generator.conf"));
}

#[test]
fn section_lookup_takes_first_value() {
    let sec = IniSection {
        name: Some("zram5".into()),
        entries: vec![
            ("memory-limit".into(), "4096".into()),
            ("memory-limit".into(), "1".into()),
            ("zram-fraction".into(), "+.5".into()),
        ],
    };
    let d: Device = resolve_section("zram.conf", &sec, 4096 * 1024).unwrap().unwrap();
    assert_eq!(d.memory_limit_mb, MemoryLimit::Bounded(4096));
    assert_eq!(d.zram_fraction, Fraction { negative: false, digits: vec!['5'], scale: -1 });
    assert_eq!(d.disksize, 2048 * 1024 * 1024);
}

#[test]
fn run_generator_on_no_devices() {
    assert!(run_generator("/", &Vec::new(), "o", false).is_empty());
}

#[test]
fn meminfo_fields_split_on_any_whitespace() {
    let c = Config::parse(
        None,
        &args(&["o"]),
        Some("[zram0]\nzram-fraction=1\n".into()),
        Some("MemFree: 5 kB\r\n\u{a0}MemTotal:\u{3000}4096 kB\r\n".into()),
    )
    .unwrap();
    assert_eq!(c.devices[0].disksize, 4 * 1024 * 1024);
}
