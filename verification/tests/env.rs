use reproducible::env::{format_cpu_with_clock_speed, host_from_rustc_output, rustc_version_from_output, Env};

fn gigahertz(clock_speed: u64) -> String {
    format!("{:.1}", clock_speed as f64 / 1e9)
}

#[test]
fn env_summary_text() {
    let env = Env {
        rust_version: "1.90.0".to_string(),
        platform: "x86_64-unknown-linux-gnu".to_string(),
        package_name: "ellip".to_string(),
        package_version: "1.1.0".to_string(),
        cpu: "AMD Ryzen 5 4600H with Radeon Graphics".to_string(),
        clock_speed: 3_000_000_000,
        total_memory: 16_000_000_000,
    };
    assert_eq!(
        env.describe(&gigahertz),
        "AMD Ryzen 5 4600H with Radeon Graphics @3.0 GHz RAM 16 GB running x86_64-unknown-linux-gnu rustc 1.90.0 using ellip v1.1.0"
    );
    assert_eq!(
        env.summary_with_cpu("CPU"),
        "CPU RAM 16 GB running x86_64-unknown-linux-gnu rustc 1.90.0 using ellip v1.1.0"
    );
}

#[test]
fn cpu_label_in_megahertz() {
    assert_eq!(format_cpu_with_clock_speed("Intel Core i5", 800_000_000, &gigahertz), "Intel Core i5 @800 MHz");
    assert_eq!(format_cpu_with_clock_speed("Intel Core i5", 1_000_000_000, &gigahertz), "Intel Core i5 @1000 MHz");
    assert_eq!(format_cpu_with_clock_speed("X", 2_400_000_000, &gigahertz), "X @2.4 GHz");
}

#[test]
fn cpu_label_without_speed() {
    assert_eq!(format_cpu_with_clock_speed("Some CPU", 0, &gigahertz), "Some CPU");
}

#[test]
fn rustc_version_is_second_word() {
    let out = b"rustc 1.90.0 (1159e78c4 2025-09-14)\n".to_vec();
    assert_eq!(rustc_version_from_output(Some(out)), "1.90.0");
    assert_eq!(rustc_version_from_output(Some(b"rustc\n".to_vec())), "unknown");
    assert_eq!(rustc_version_from_output(Some(vec![0xff, 0x20, 0x41])), "unknown");
    assert_eq!(rustc_version_from_output(None), "unknown");
}

#[test]
fn host_line_of_verbose_version() {
    let out = b"rustc 1.90.0\nbinary: rustc\nhost: x86_64-unknown-linux-gnu\r\nrelease: 1.90.0\n".to_vec();
    assert_eq!(host_from_rustc_output(Some(out)), Some("x86_64-unknown-linux-gnu".to_string()));
    assert_eq!(host_from_rustc_output(Some(b"host:x\nhost: y\n".to_vec())), None);
    assert_eq!(host_from_rustc_output(Some(b"release: 1\n".to_vec())), None);
    assert_eq!(host_from_rustc_output(None), None);
}
