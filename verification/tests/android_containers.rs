//! Android SDKs and container runtimes.
use reclaim::model::{Candidate, Regen, Severity, Tier};
use reclaim::platform::Base;
use reclaim::providers::android::{AndroidAvds, AndroidSdk};
use reclaim::providers::containers::{ContainerVms, Docker};
use reclaim::providers::testing::TestHome;

/// A home with its SDK and AVD directories redirected inside it.
fn android_home() -> TestHome {
    let mut home = TestHome::new();
    home.redirect(Base::AndroidSdk, "sdk");
    home.redirect(Base::AndroidAvd, "avd");
    home
}

#[test]
fn system_images_are_offered_per_api_level() {
    let mut home = android_home();
    home.file("sdk/system-images/android-34/google_apis/arm64/system.img");
    home.file("sdk/system-images/android-33/google_apis/arm64/system.img");
    home.dir("avd");

    let found = home.discover(&AndroidSdk);
    let images: Vec<&Candidate> =
        found.iter().filter(|c| c.provider == "android.system-image").collect();
    assert_eq!(images.len(), 2, "one candidate per API level");
    assert!(images.iter().all(|i| i.tier == Tier::Review));
}

#[test]
fn avds_are_caution_and_include_their_ini_file() {
    // Leaving the .ini behind produces a broken entry in the AVD manager.
    let mut home = android_home();
    home.file("avd/Pixel_7.avd/userdata-qemu.img");
    home.file("avd/Pixel_7.ini");

    let found = home.discover(&AndroidAvds);
    assert_eq!(found.len(), 1);
    let avd = &found[0];
    assert_eq!(avd.tier, Tier::Caution);
    assert_eq!(avd.paths.len(), 2, "the .avd dir and its .ini must go together");
    assert!(avd.paths.iter().any(|p| p.ends_with("/Pixel_7.ini")));
    assert!(avd.warnings.iter().any(|w| w.severity == Severity::Danger));
}

#[test]
fn an_avd_without_an_ini_still_works() {
    let mut home = android_home();
    home.file("avd/Orphan.avd/userdata.img");

    let found = home.discover(&AndroidAvds);
    assert_eq!(found.len(), 1);
    assert_eq!(found[0].paths.len(), 1);
}

#[test]
fn a_single_ndk_version_is_not_offered() {
    let mut home = android_home();
    home.dir("sdk/ndk/26.1.10909125");
    home.dir("avd");

    let found = home.discover(&AndroidSdk);
    assert!(!found.iter().any(|c| c.provider == "android.ndk"));

    home.dir("sdk/ndk/25.2.9519653");
    let found = home.discover(&AndroidSdk);
    assert!(found.iter().any(|c| c.provider == "android.ndk"));
}

#[test]
fn nothing_is_offered_without_an_android_sdk() {
    assert!(android_home().discover(&AndroidSdk).is_empty());
}

/// A home whose machine answers for docker.
fn docker_home() -> TestHome {
    let mut home = TestHome::new();
    home.ctx.disk.commands.push("docker".to_string());
    home.ctx.disk.daemons.push("docker".to_string());
    home
}

#[test]
fn docker_candidates_all_use_shell_actions() {
    // Deleting files under Docker's storage corrupts the installation; every reclaim must go
    // through the daemon.
    let found = docker_home().discover(&Docker);
    assert!(!found.is_empty());
    for candidate in found {
        assert!(
            candidate.action.is_shell(),
            "{} must reclaim via the daemon, not by deleting paths",
            candidate.provider
        );
    }
    assert!(TestHome::new().discover(&Docker).is_empty());
}

#[test]
fn volumes_are_withheld_unless_explicitly_enabled() {
    for home in [TestHome::new(), docker_home()] {
        let found = home.discover(&Docker);
        assert!(!found.iter().any(|c| c.provider == "containers.docker-volumes"));
    }
}

#[test]
fn volumes_when_enabled_are_marked_unrecoverable() {
    let mut home = docker_home();
    home.ctx.config.providers.containers.include_volumes = true;
    let found = home.discover(&Docker);

    let volumes =
        found.iter().find(|c| c.provider == "containers.docker-volumes").expect("volumes");
    assert_eq!(volumes.tier, Tier::Caution);
    assert!(matches!(volumes.regen, Regen::Never));
    assert!(volumes.warnings.iter().any(|w| w.severity == Severity::Danger));
}

#[test]
fn the_docker_desktop_disk_image_is_flagged_as_a_factory_reset() {
    let mut home = TestHome::new();
    home.file("Library/Containers/com.docker.docker/Data/vms/0/data/Docker.raw");

    let found = home.discover(&ContainerVms);
    let vm = found.iter().find(|c| c.label.contains("disk image")).expect("vm disk");
    assert_eq!(vm.tier, Tier::Caution);
    assert!(vm.warnings.iter().any(|w| w.message.contains("factory reset")));
}

#[test]
fn nothing_is_offered_without_any_container_runtime() {
    assert!(TestHome::new().discover(&ContainerVms).is_empty());
}
