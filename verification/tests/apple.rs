//! Xcode, simulators and CocoaPods.
use reclaim::model::{Candidate, Regen, Severity, Tier};
use reclaim::platform::Os;
use reclaim::providers::apple::{CocoaPods, SimulatorRuntimes, XcodeArtifacts};
use reclaim::providers::testing::TestHome;

fn first<'a>(found: &'a [Candidate], provider: &str) -> &'a Candidate {
    found.iter().find(|c| c.provider == provider).expect(provider)
}

#[test]
fn derived_data_is_safe_and_rebuildable() {
    let mut home = TestHome::on(Os::MacOs);
    home.file("Library/Developer/Xcode/DerivedData/App-abc/Build/x.o");

    let found = home.discover(&XcodeArtifacts);
    let dd = first(&found, "apple.derived-data");
    assert_eq!(dd.tier, Tier::Safe);
    assert!(matches!(dd.regen, Regen::Rebuild { .. }));
}

#[test]
fn archives_are_caution_and_explain_the_dsym_risk() {
    // The single most dangerous thing this tool can offer to delete.
    let mut home = TestHome::on(Os::MacOs);
    home.file("Library/Developer/Xcode/Archives/2026-01-01/App.xcarchive/Info.plist");

    let found = home.discover(&XcodeArtifacts);
    let archives = first(&found, "apple.archives");
    assert_eq!(archives.tier, Tier::Caution);
    assert!(matches!(archives.regen, Regen::Never));
    let warning = &archives.warnings[0];
    assert_eq!(warning.severity, Severity::Danger);
    assert!(warning.message.contains("dSYM"), "{}", warning.message);
    assert!(warning.message.contains("symbolicate"), "{}", warning.message);
}

#[test]
fn device_support_warns_that_a_physical_device_is_needed() {
    let mut home = TestHome::on(Os::MacOs);
    home.file("Library/Developer/Xcode/iOS DeviceSupport/18.0/Symbols/x");

    let found = home.discover(&XcodeArtifacts);
    let ds = first(&found, "apple.device-support");
    assert_eq!(ds.tier, Tier::Review);
    assert!(ds.warnings.iter().any(|w| w.message.contains("physical device")));
}

#[test]
fn device_backups_are_offered_individually_and_marked_as_personal_data() {
    let mut home = TestHome::on(Os::MacOs);
    home.file("Library/Application Support/MobileSync/Backup/00008030-ABC/Manifest.db");
    home.file("Library/Application Support/MobileSync/Backup/00008030-XYZ/Manifest.db");

    let found = home.discover(&XcodeArtifacts);
    let backups: Vec<&Candidate> =
        found.iter().filter(|c| c.provider == "apple.device-backup").collect();

    assert_eq!(backups.len(), 2, "one candidate per device, never a single bulk item");
    for backup in backups {
        assert_eq!(backup.tier, Tier::Caution);
        assert!(matches!(backup.regen, Regen::Never));
        assert!(backup.warnings.iter().any(|w| w.message.contains("not a cache")));
    }
}

#[test]
fn nothing_is_offered_on_a_machine_without_xcode() {
    assert!(TestHome::new().discover(&XcodeArtifacts).is_empty());
    assert!(TestHome::on(Os::MacOs).discover(&XcodeArtifacts).is_empty());
}

#[test]
fn pods_with_a_lockfile_are_safe_and_re_downloadable() {
    let mut home = TestHome::new();
    home.project("dev/ios-app", &["Podfile", "Podfile.lock"]);
    home.file("dev/ios-app/Pods/Alamofire/Source.swift");

    let found = home.discover(&CocoaPods);
    let pods = first(&found, "apple.pods");
    assert_eq!(pods.tier, Tier::Safe);
    assert!(matches!(pods.regen, Regen::Download { .. }));
}

#[test]
fn pods_without_a_lockfile_are_caution() {
    let mut home = TestHome::new();
    home.project("dev/ios-app", &["Podfile"]);
    home.file("dev/ios-app/Pods/Alamofire/Source.swift");

    let found = home.discover(&CocoaPods);
    assert_eq!(first(&found, "apple.pods").tier, Tier::Caution);
}

#[test]
fn simulator_devices_warn_about_losing_app_data() {
    let mut seen = 0;
    for os in [Os::Linux, Os::MacOs] {
        let mut home = TestHome::on(os);
        home.ctx.disk.commands.push("xcrun".to_string());
        home.dir("Library/Developer/CoreSimulator/Devices/ABC-123/data");

        let found = home.discover(&SimulatorRuntimes);
        if let Some(devices) = found.iter().find(|c| c.provider == "apple.simulator-devices") {
            seen += 1;
            assert_eq!(devices.tier, Tier::Caution);
            assert!(devices.warnings.iter().any(|w| w.message.contains("app data")));
        }
    }
    assert_eq!(seen, 1);
}
