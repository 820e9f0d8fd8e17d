//! The smaller ecosystems, editors, and local models.
use reclaim::model::{Candidate, Regen, Severity, Tier};
use reclaim::pipeline::Provider;
use reclaim::platform::Os;
use reclaim::providers::ai_tools::{LocalAiTools, MachineLearning};
use reclaim::providers::misc::{providers, BuildTools, Dart, Editors, Php};
use reclaim::providers::testing::{expect_candidate, TestHome};

fn first<'a>(found: &'a [Candidate], provider: &str) -> &'a Candidate {
    found.iter().find(|c| c.provider == provider).expect(provider)
}

#[test]
fn php_vendor_without_a_lockfile_is_caution() {
    let mut home = TestHome::new();
    home.project("dev/site", &["composer.json"]);
    home.file("dev/site/vendor/autoload.php");

    let found = home.discover(&Php);
    assert_eq!(first(&found, "php.vendor").tier, Tier::Caution);
}

#[test]
fn php_vendor_with_a_lockfile_is_reviewable() {
    let mut home = TestHome::new();
    home.project("dev/site", &["composer.json", "composer.lock"]);
    home.file("dev/site/vendor/autoload.php");

    let found = home.discover(&Php);
    assert_eq!(first(&found, "php.vendor").tier, Tier::Review);
}

#[test]
fn cmake_build_dirs_are_only_claimed_when_cmake_generated_them() {
    // `build/` is far too common a directory name to claim on sight.
    let mut home = TestHome::new();
    home.project("dev/native", &["CMakeLists.txt"]);
    home.file("dev/native/build/notes.txt");

    assert!(!home.discover(&BuildTools).iter().any(|c| c.provider == "buildtools.cmake-build"));

    home.file("dev/native/build/CMakeCache.txt");
    assert!(home.discover(&BuildTools).iter().any(|c| c.provider == "buildtools.cmake-build"));
}

#[test]
fn editor_workspace_storage_warns_about_losing_project_state() {
    for (os, base) in
        [(Os::MacOs, "Library/Application Support/Code"), (Os::Linux, ".config/Code")]
    {
        let mut home = TestHome::on(os);
        home.file(&format!("{base}/User/workspaceStorage/abc/state.vscdb"));

        let found = home.discover(&Editors);
        let ws = first(&found, "editors.workspace-storage");
        assert_eq!(ws.tier, Tier::Review);
        assert!(ws.warnings.iter().any(|w| w.message.contains("open tabs")));
    }
}

#[test]
fn editor_caches_are_safe() {
    for (os, base) in
        [(Os::MacOs, "Library/Application Support/Cursor"), (Os::Linux, ".config/Cursor")]
    {
        let mut home = TestHome::on(os);
        home.file(&format!("{base}/Cache/data"));

        let found = home.discover(&Editors);
        let cache = found.iter().find(|c| c.label.contains("Cursor")).expect("cursor cache");
        assert_eq!(cache.tier, Tier::Safe);
    }
}

#[test]
fn misc_ml_model_caches_warn_about_the_download_size() {
    let mut home = TestHome::new();
    home.file(".ollama/models/manifests/registry/library/llama3/latest");

    let found = home.discover(&reclaim::providers::misc::MachineLearning);
    let ollama = first(&found, "ml.ollama");
    assert_eq!(ollama.tier, Tier::Review);
    assert!(ollama.warnings.iter().any(|w| w.message.contains("large downloads")));
}

#[test]
fn ml_is_disabled_by_the_default_config() {
    let home = TestHome::new();
    assert!(
        !home.ctx.config.providers.is_enabled("ml.models"),
        "model weights are deliberate downloads; opt-in only"
    );
}

#[test]
fn dart_pub_cache_is_review_tier() {
    let mut home = TestHome::new();
    home.file(".pub-cache/hosted/pub.dev/http-1.0/lib/http.dart");

    let found = home.discover(&Dart);
    assert_eq!(first(&found, "dart.pub-cache").tier, Tier::Review);
}

#[test]
fn empty_home_yields_nothing_from_any_of_these() {
    let home = TestHome::new();
    for provider in providers() {
        let found = home.discover(&provider);
        assert!(found.is_empty(), "{} offered {:?}", provider.id(), found);
    }
}

#[test]
fn ai_tools_ml_model_caches_warn_about_the_download_size() {
    let mut home = TestHome::new();
    home.file(".ollama/models/manifests/registry/library/llama3/latest");

    let found = home.discover(&MachineLearning);
    let ollama = expect_candidate(&found, "ml.ollama");
    assert_eq!(ollama.tier, Tier::Review);
    assert!(ollama.warnings.iter().any(|w| w.message.contains("large downloads")));
}

#[test]
fn ml_models_is_disabled_by_the_default_config() {
    let home = TestHome::new();
    assert!(
        !home.ctx.config.providers.is_enabled("ml.models"),
        "model weights are deliberate downloads; opt-in only"
    );
}

#[test]
fn ml_local_tools_is_disabled_by_the_default_config() {
    let home = TestHome::new();
    assert!(!home.ctx.config.providers.is_enabled("ml.local-tools"));
}

#[test]
fn disabling_check_running_never_adds_the_running_warning() {
    let mut home = TestHome::new();
    home.ctx.disk.ports.push(11434);
    home.file(".ollama/models/manifests/x");
    let says_running = |found: &Vec<Candidate>| {
        expect_candidate(found, "ml.ollama")
            .warnings
            .iter()
            .any(|w| w.message.contains("appears to be running"))
    };
    assert!(says_running(&home.discover(&MachineLearning)));

    home.ctx.config.providers.ai.check_running = false;
    assert!(!says_running(&home.discover(&MachineLearning)));
}

#[test]
fn comfyui_models_require_the_comfy_environment_marker() {
    let mut home = TestHome::new();
    // A plain Python project must not be mistaken for a ComfyUI install.
    home.project("dev/some-python-app", &["requirements.txt"]);
    home.dir("dev/some-python-app/models");
    assert!(home.discover(&LocalAiTools).is_empty());

    home.file("dev/some-python-app/.comfy_environment");
    let found = home.discover(&LocalAiTools);
    expect_candidate(&found, "ml.comfyui-models");
}

#[test]
fn comfyui_output_is_caution_and_never_regenerates() {
    let mut home = TestHome::new();
    home.project("dev/comfy", &["requirements.txt"]);
    home.file("dev/comfy/.comfy_environment");
    home.dir("dev/comfy/output");

    let found = home.discover(&LocalAiTools);
    let output = expect_candidate(&found, "ml.comfyui-output");
    assert_eq!(output.tier, Tier::Caution);
    assert!(matches!(output.regen, Regen::Never));
    assert!(output.warnings.iter().any(|w| w.severity == Severity::Danger));
}

#[test]
fn sillytavern_requires_the_world_info_marker() {
    let mut home = TestHome::new();
    // A plain Node project must not be mistaken for SillyTavern.
    home.project("dev/some-node-app", &["package.json"]);
    home.file("dev/some-node-app/data/_cache/x");
    assert!(home.discover(&LocalAiTools).is_empty());

    home.file("dev/some-node-app/public/scripts/world-info.js");
    let found = home.discover(&LocalAiTools);
    expect_candidate(&found, "ml.sillytavern-cache");
}

#[test]
fn sillytavern_thumbnails_are_found_per_profile() {
    let mut home = TestHome::new();
    home.project("dev/st", &["package.json"]);
    home.file("dev/st/public/scripts/world-info.js");
    home.file("dev/st/data/default-user/thumbnails/avatar.png");
    home.file("dev/st/data/second-user/thumbnails/avatar.png");

    let found = home.discover(&LocalAiTools);
    let thumb_paths: Vec<String> = found
        .iter()
        .filter(|c| c.provider == "ml.sillytavern-thumbnails")
        .flat_map(|c| c.paths.clone())
        .collect();
    assert_eq!(thumb_paths.len(), 2, "one candidate per profile: {found:#?}");
}

#[test]
fn a1111_requires_both_distinctive_files() {
    let mut home = TestHome::new();
    home.project("dev/sd-webui", &["requirements.txt"]);
    home.file("dev/sd-webui/webui.py");
    home.dir("dev/sd-webui/models");
    // `modules/paths_internal.py` missing: not yet claimed.
    assert!(home.discover(&LocalAiTools).is_empty());

    home.file("dev/sd-webui/modules/paths_internal.py");
    let found = home.discover(&LocalAiTools);
    expect_candidate(&found, "ml.a1111-models");
}

#[test]
fn an_empty_home_yields_nothing() {
    let home = TestHome::new();
    assert!(home.discover(&MachineLearning).is_empty());
    assert!(home.discover(&LocalAiTools).is_empty());
}
