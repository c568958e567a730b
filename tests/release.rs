use algohub::release::{
    asset_file_name, check_status, decimal_text, downloaded, is_arch_linux, plan_download, stage_error, DownloadResult,
    DownloadStep, Error, Flavor, Platform, Stage,
};

fn platform(os: &str, arch: &str, flavor: Flavor) -> Platform {
    Platform { os: os.to_string(), arch: arch.to_string(), flavor }
}

fn name(os: &str, arch: &str, flavor: Flavor) -> Result<String, String> {
    asset_file_name(&platform(os, arch, flavor), "1.2.3").map_err(|e| e.message)
}

const FLAVORS: [Flavor; 4] = [Flavor::Gnu, Flavor::Musl, Flavor::Msvc, Flavor::Mingw];

#[test]
fn supported_download_fetches_the_resolved_artifact() {
    match plan_download(&platform("linux", "x86_64", Flavor::Gnu), false, "1.2.3") {
        DownloadStep::Fetch { url, file_name } => {
            assert_eq!(url, "https://github.com/swpu-acm/algohub/releases/download/1.2.3/algohub-1.2.3-1.x86_64.rpm");
            assert_eq!(file_name, "algohub-1.2.3-1.x86_64.rpm");
            let r = downloaded(&file_name);
            assert!(r.status);
            assert_eq!(r.message.as_deref(), Some("Successfully downloaded release: algohub-1.2.3-1.x86_64.rpm"));
        }
        other => panic!("unexpected step {:?}", other),
    }
}

#[test]
fn arch_linux_gets_the_advisory_without_a_fetch() {
    for arch in ["x86_64", "aarch64", "riscv64"] {
        match plan_download(&platform("linux", arch, Flavor::Gnu), true, "1.2.3") {
            DownloadStep::Finished(r) => {
                assert!(r.status);
                assert_eq!(r.message.as_deref(), Some("Please install the latest version manually"));
            }
            other => panic!("unexpected step {:?}", other),
        }
    }
}

#[test]
fn arch_flag_counts_only_on_linux() {
    match plan_download(&platform("macos", "aarch64", Flavor::Gnu), true, "2.0") {
        DownloadStep::Fetch { file_name, .. } => assert_eq!(file_name, "algohub_2.0_aarch64.dmg"),
        other => panic!("unexpected step {:?}", other),
    }
}

#[test]
fn unsupported_platform_is_an_error_naming_it() {
    match plan_download(&platform("freebsd", "x86_64", Flavor::Gnu), false, "1.2.3") {
        DownloadStep::Failed(e) => {
            assert!(!e.status);
            assert!(e.message.contains("freebsd"));
            assert!(e.message.contains("x86_64"));
            assert_eq!(e.message, "Unsupported OS or architecture: OS = freebsd, ARCH = x86_64");
        }
        other => panic!("unexpected step {:?}", other),
    }
}

#[test]
fn name_table_rows() {
    for f in FLAVORS {
        assert_eq!(name("macos", "x86_64", f), Ok("algohub_1.2.3_x64.dmg".to_string()));
        assert_eq!(name("macos", "aarch64", f), Ok("algohub_1.2.3_aarch64.dmg".to_string()));
        assert_eq!(name("linux", "aarch64", f), Ok("algohub_aarch64.app.tar.gz".to_string()));
    }
    assert_eq!(name("linux", "x86_64", Flavor::Gnu), Ok("algohub-1.2.3-1.x86_64.rpm".to_string()));
    assert_eq!(name("linux", "x86_64", Flavor::Musl), Ok("algohub_1.2.3_amd64.deb".to_string()));
    assert_eq!(name("windows", "x86_64", Flavor::Msvc), Ok("algohub_1.2.3_x64_en-US.msi".to_string()));
    assert_eq!(name("windows", "x86_64", Flavor::Mingw), Ok("algohub_1.2.3_x64-setup.exe".to_string()));
    assert_eq!(name("windows", "x86_64", Flavor::Gnu), Ok("algohub_1.2.3_x64-setup.exe".to_string()));
}

#[test]
fn other_combinations_are_unsupported() {
    for f in FLAVORS {
        assert!(name("windows", "aarch64", f).is_err());
        assert!(name("linux", "riscv64", f).is_err());
        assert!(name("ios", "aarch64", f).is_err());
        assert!(name("Linux", "x86_64", f).is_err());
        assert!(name("", "", f).is_err());
    }
}

#[test]
fn version_is_used_verbatim() {
    assert_eq!(name_v("v1.0.0-rc.2"), "algohub_v1.0.0-rc.2_x64.dmg");
    assert_eq!(name_v(""), "algohub__x64.dmg");
}

fn name_v(v: &str) -> String {
    asset_file_name(&platform("macos", "x86_64", Flavor::Musl), v).ok().unwrap()
}

#[test]
fn failure_status_is_never_a_success() {
    assert!(check_status("u", 200).is_ok());
    assert!(check_status("u", 299).is_ok());
    for code in [0u16, 100, 199, 300, 304, 404, 500, 65535] {
        let e = check_status("https://e/x", code).unwrap_err();
        assert!(!e.status);
        assert!(e.message.contains("https://e/x"));
        assert!(e.message.contains(&code.to_string()));
    }
    let e = check_status("https://e/x", 404).unwrap_err();
    assert_eq!(e.message, "Failed to download release from https://e/x. HTTP Status: 404");
}

#[test]
fn stage_errors_name_subject_and_cause() {
    let e = stage_error(Stage::Send, "https://e/x", "refused");
    assert!(!e.status);
    assert_eq!(e.message, "Failed to send request to https://e/x: refused");
    assert_eq!(
        stage_error(Stage::Read, "https://e/x", "eof").message,
        "Failed to read response content from https://e/x: eof"
    );
    assert_eq!(stage_error(Stage::Create, "a.dmg", "denied").message, "Failed to create file a.dmg: denied");
    assert_eq!(stage_error(Stage::Write, "a.dmg", "full").message, "Failed to write to file a.dmg: full");
}

#[test]
fn arch_linux_is_detected_in_os_release() {
    assert!(is_arch_linux("NAME=\"Arch Linux\"\nID=arch\n"));
    assert!(!is_arch_linux("NAME=\"Ubuntu\"\nID=ubuntu\n"));
    assert!(!is_arch_linux("NAME=\"arch linux\""));
    assert!(!is_arch_linux(""));
}

#[test]
fn error_and_result_constructors() {
    let e = Error::from("boom".to_string());
    assert!(!e.status);
    assert_eq!(e.message, "boom");
    let d = DownloadResult::default();
    assert!(d.status);
    assert!(d.message.is_none());
}

#[test]
fn decimal_text_writes_digits() {
    assert_eq!(decimal_text(0), "0");
    assert_eq!(decimal_text(7), "7");
    assert_eq!(decimal_text(10), "10");
    assert_eq!(decimal_text(404), "404");
    assert_eq!(decimal_text(65535), "65535");
    for n in [1u16, 9, 99, 100, 1000, 12345] {
        assert_eq!(decimal_text(n), n.to_string());
    }
}
