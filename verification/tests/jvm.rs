//! Gradle, Maven and their projects.
use reclaim::model::{Candidate, Regen, Tier};
use reclaim::providers::jvm::{count_locally_installed, JvmCaches, JvmProjects, LocalArtifacts};
use reclaim::providers::testing::TestHome;

fn first<'a>(found: &'a [Candidate], provider: &str) -> &'a Candidate {
    found.iter().find(|c| c.provider == provider).expect(provider)
}

#[test]
fn gradle_caches_are_safe() {
    let mut home = TestHome::new();
    home.file(".gradle/caches/modules-2/files/x.jar");
    let found = home.discover(&JvmCaches);
    assert_eq!(first(&found, "jvm.gradle-caches").tier, Tier::Safe);
}

#[test]
fn a_purely_downloaded_maven_repo_is_review_tier() {
    let mut home = TestHome::new();
    home.file(".m2/repository/com/example/lib/1.0/lib-1.0.jar");
    home.file(".m2/repository/com/example/lib/1.0/_remote.repositories");

    let found = home.discover(&JvmCaches);
    let m2 = first(&found, "jvm.maven-repo");
    assert_eq!(m2.tier, Tier::Review);
    assert!(matches!(m2.regen, Regen::Download { .. }));
}

#[test]
fn a_maven_repo_with_locally_installed_artifacts_is_caution_and_unrecoverable() {
    // This is the case that a plain `rm -rf ~/.m2` silently destroys.
    let mut home = TestHome::new();
    home.file(".m2/repository/com/example/lib/1.0/lib-1.0.jar");
    home.file(".m2/repository/com/example/lib/1.0/_remote.repositories");
    home.file(".m2/repository/com/mine/internal/2.0/internal-2.0.jar");

    let found = home.discover(&JvmCaches);
    let m2 = first(&found, "jvm.maven-repo");
    assert_eq!(m2.tier, Tier::Caution);
    assert!(matches!(m2.regen, Regen::Never));
    let warning = m2
        .warnings
        .iter()
        .find(|w| w.message.contains("_remote.repositories"))
        .expect("must explain why");
    assert!(warning.message.contains("mvn install"));
}

#[test]
fn maven_target_is_not_claimed_for_a_gradle_project() {
    // `target/` in a Gradle project is not Maven output and may be anything.
    let mut home = TestHome::new();
    home.project("dev/app", &["build.gradle"]);
    home.file("dev/app/target/stuff.bin");
    home.file("dev/app/build/libs/app.jar");

    let found = home.discover(&JvmProjects);
    let labels: Vec<&str> = found.iter().map(|c| c.label.as_str()).collect();
    assert!(labels.contains(&"Gradle build output"));
    assert!(!labels.contains(&"Maven build output"));
}

#[test]
fn gradle_build_is_not_claimed_for_a_maven_project() {
    let mut home = TestHome::new();
    home.project("dev/app", &["pom.xml"]);
    home.file("dev/app/target/classes/A.class");
    home.file("dev/app/build/notes.txt");

    let found = home.discover(&JvmProjects);
    let labels: Vec<&str> = found.iter().map(|c| c.label.as_str()).collect();
    assert!(labels.contains(&"Maven build output"));
    assert!(!labels.contains(&"Gradle build output"));
}

#[test]
fn local_artifact_detection_reports_zero_for_a_clean_repo() {
    let mut home = TestHome::new();
    home.file(".m2/repository/a/b/1.0/b-1.0.jar");
    home.file(".m2/repository/a/b/1.0/_remote.repositories");
    let result = count_locally_installed(&home.ctx.disk.maven, 1000);
    assert_eq!(result, LocalArtifacts { found: 0, truncated: false });
}

#[test]
fn a_spent_budget_truncates_the_count() {
    let mut home = TestHome::new();
    home.file(".m2/repository/a/b/1.0/b-1.0.jar");
    home.file(".m2/repository/a/c/1.0/c-1.0.jar");
    let whole = count_locally_installed(&home.ctx.disk.maven, 1000);
    assert_eq!(whole, LocalArtifacts { found: 2, truncated: false });
    let cut = count_locally_installed(&home.ctx.disk.maven, 1);
    assert!(cut.truncated);
}

#[test]
fn nothing_is_offered_without_a_jvm_toolchain() {
    assert!(TestHome::new().discover(&JvmCaches).is_empty());
}
