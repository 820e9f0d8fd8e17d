//! Local AI tooling, all of it in the `ml` group and disabled by default: model weights are large,
//! deliberate downloads, not incidental build byproducts.
//!
//! There are model caches at well-known paths, and installs by git clone, which are found among the
//! projects by a file unique to the tool. Where a tool has a server on a well-known port, a
//! candidate carries a warning while that port answers. This is evidence, not a gate: a port that
//! does not answer proves nothing.
use vstd::prelude::*;
use vstd::string::*;
use crate::model::{
    Candidate, CandidateBuilder, CandidateModel, Group, ProjectModel, ProjectRoot, Regen,
    RegenModel, Tier, Warning, WarningModel,
};
use crate::path::{join, join_path};
use crate::pipeline::{Provider, ScanContext, discover};
use crate::providers::AnyProvider;
use crate::providers::support::{
    ProjectOffers, SubdirOffers, addition, artifact, artifacts_in_projects, auto_on, automatic,
    cache, caution, danger, download, each_subdir, given, nothing, offer, offer_all,
    offers_in_all, offers_of_all, project_artifact, redownload, start,
};
use crate::text::{decimal, decimal_text, views};

verus! {

/// The tool answers on its port, where looking for it is allowed.
pub open spec fn is_running(ctx: &ScanContext, port: u16) -> bool {
    ctx.config.providers.ai.check_running && ctx.disk@.ports.contains(port)
}

fn currently_running(ctx: &ScanContext, port: u16) -> (r: bool)
    ensures
        r == is_running(ctx, port),
{
    ctx.config.providers.ai.check_running && ctx.disk.port_is_open(port)
}

/// The warning for a tool that answers on its port.
pub open spec fn in_use_warning(tool: Seq<char>, port: u16) -> WarningModel {
    caution(
        tool + " appears to be running right now (detected on 127.0.0.1:"@ + decimal(port as nat)
            + "); files here may be in active use."@,
    )
}

fn running_warning(tool: &str, port: u16) -> (w: Warning)
    ensures
        w@ == in_use_warning(tool@, port),
{
    Warning::caution(
        tool.to_owned().concat(" appears to be running right now (detected on 127.0.0.1:").concat(
            decimal_text(port as u128).as_str(),
        ).concat("); files here may be in active use.").as_str(),
    )
}

/// The warning for generated media: unlike model weights, there is no source to get it from.
pub open spec fn output_warning() -> WarningModel {
    danger("These are your generated outputs, not re-creatable from anywhere else."@)
}

fn irreplaceable_output_warning() -> (w: Warning)
    ensures
        w@ == output_warning(),
{
    Warning::danger("These are your generated outputs, not re-creatable from anywhere else.")
}

/// Downloaded model weights, of a tool with a server where there is one.
pub open spec fn weights_offer(
    ctx: &ScanContext,
    id: Seq<char>,
    label: Seq<char>,
    path: Seq<char>,
    source: Seq<char>,
    server: Option<(Seq<char>, u16)>,
) -> Seq<CandidateModel> {
    let weights = cache(id, Group::Ml, label, path).detailed(
        "Downloaded model weights."@,
    ).tiered(Tier::Review).returning(download(source)).with_warning(
        caution("Model weights are very large downloads; re-fetching can take a long time."@),
    );
    given(
        ctx.disk@.present(path),
        match server {
            Some((tool, port)) => weights.warned_if(
                is_running(ctx, port),
                in_use_warning(tool, port),
            ),
            None => weights,
        },
    )
}

fn weights(
    ctx: &ScanContext,
    id: &str,
    label: &str,
    path: &str,
    source: &str,
    server: Option<(&str, u16)>,
) -> (found: Option<Candidate>)
    ensures
        addition(found) == weights_offer(
            ctx,
            id@,
            label@,
            path@,
            source@,
            match server {
                Some((tool, port)) => Some((tool@, port)),
                None => None,
            },
        ),
{
    if !ctx.disk.has(path) {
        return None;
    }
    let c = CandidateBuilder::new(id, Group::Ml, label).path(path).detail(
        "Downloaded model weights.",
    ).tier(Tier::Review).regen(redownload(source)).warn(
        Warning::caution(
            "Model weights are very large downloads; re-fetching can take a long time.",
        ),
    );
    match server {
        Some((tool, port)) => Some(
            c.warn_if(currently_running(ctx, port), running_warning(tool, port)).build(),
        ),
        None => Some(c.build()),
    }
}

/// Model caches with well-known paths.
pub struct MachineLearning;

impl Provider for MachineLearning {
    open spec fn name(&self) -> Seq<char> {
        "ml.models"@
    }

    open spec fn marks(&self) -> Seq<Seq<char>> {
        Seq::empty()
    }

    open spec fn offers(&self, ctx: &ScanContext) -> Seq<CandidateModel> {
        nothing()
            + weights_offer(
                ctx,
                "ml.huggingface"@,
                "Hugging Face model cache"@,
                join(ctx.paths@.cache_dir, "huggingface"@),
                "the Hugging Face Hub"@,
                None,
            )
            + weights_offer(
                ctx,
                "ml.huggingface"@,
                "Hugging Face model cache"@,
                join(ctx.paths@.home, ".cache/huggingface"@),
                "the Hugging Face Hub"@,
                None,
            )
            + weights_offer(
                ctx,
                "ml.torch"@,
                "PyTorch hub cache"@,
                join(ctx.paths@.cache_dir, "torch"@),
                "the PyTorch hub"@,
                None,
            )
            + weights_offer(
                ctx,
                "ml.ollama"@,
                "Ollama models"@,
                join(ctx.paths@.home, ".ollama/models"@),
                "the Ollama registry"@,
                Some(("Ollama"@, 11_434)),
            )
            + weights_offer(
                ctx,
                "ml.lmstudio"@,
                "LM Studio models"@,
                join(ctx.paths@.home, ".lmstudio/models"@),
                "the LM Studio model catalog"@,
                Some(("LM Studio"@, 1_234)),
            )
            + weights_offer(
                ctx,
                "ml.lmstudio"@,
                "LM Studio model cache"@,
                join(ctx.paths@.home, ".cache/lm-studio"@),
                "the LM Studio model catalog"@,
                Some(("LM Studio"@, 1_234)),
            )
    }

    fn id(&self) -> (s: &'static str) {
        "ml.models"
    }

    fn markers(&self) -> (v: Vec<&'static str>) {
        let v: Vec<&'static str> = Vec::new();
        assert(views(v@) =~= Seq::empty());
        v
    }

    fn discover(&self, ctx: &ScanContext) -> (out: Vec<Candidate>) {
        let mut out = start();
        offer(
            &mut out,
            weights(
                ctx,
                "ml.huggingface",
                "Hugging Face model cache",
                join_path(ctx.paths.cache_dir().as_str(), "huggingface").as_str(),
                "the Hugging Face Hub",
                None,
            ),
        );
        offer(
            &mut out,
            weights(
                ctx,
                "ml.huggingface",
                "Hugging Face model cache",
                ctx.paths.home_join(".cache/huggingface").as_str(),
                "the Hugging Face Hub",
                None,
            ),
        );
        offer(
            &mut out,
            weights(
                ctx,
                "ml.torch",
                "PyTorch hub cache",
                join_path(ctx.paths.cache_dir().as_str(), "torch").as_str(),
                "the PyTorch hub",
                None,
            ),
        );
        offer(
            &mut out,
            weights(
                ctx,
                "ml.ollama",
                "Ollama models",
                ctx.paths.home_join(".ollama/models").as_str(),
                "the Ollama registry",
                Some(("Ollama", 11_434)),
            ),
        );
        offer(
            &mut out,
            weights(
                ctx,
                "ml.lmstudio",
                "LM Studio models",
                ctx.paths.home_join(".lmstudio/models").as_str(),
                "the LM Studio model catalog",
                Some(("LM Studio", 1_234)),
            ),
        );
        offer(
            &mut out,
            weights(
                ctx,
                "ml.lmstudio",
                "LM Studio model cache",
                ctx.paths.home_join(".cache/lm-studio").as_str(),
                "the LM Studio model catalog",
                Some(("LM Studio", 1_234)),
            ),
        );
        out
    }
}

/// Model weights of ComfyUI.
pub open spec fn comfyui_models_offer(ctx: &ScanContext, at: Seq<char>) -> Seq<CandidateModel> {
    let path = join(at, "models"@);
    given(
        ctx.disk@.is_dir(path),
        artifact("ml.comfyui-models"@, Group::Ml, "ComfyUI models"@, at, path).detailed(
            "Downloaded checkpoints, LoRAs, VAEs and other model weights."@,
        ).tiered(Tier::Review).returning(download("Hugging Face / Civitai"@)).with_warning(
            caution(
                "Model weights are very large downloads; re-fetching can take a long time."@,
            ),
        ).warned_if(is_running(ctx, 8_188), in_use_warning("ComfyUI"@, 8_188)),
    )
}

fn comfyui_models(ctx: &ScanContext, at: &str) -> (found: Option<Candidate>)
    ensures
        addition(found) == comfyui_models_offer(ctx, at@),
{
    let path = join_path(at, "models");
    match project_artifact(
        ctx,
        "ml.comfyui-models",
        Group::Ml,
        "ComfyUI models",
        at,
        path.as_str(),
    ) {
        Some(c) => Some(
            c.detail("Downloaded checkpoints, LoRAs, VAEs and other model weights.").tier(Tier::Review).regen(
                redownload("Hugging Face / Civitai"),
            ).warn(
                Warning::caution(
                    "Model weights are very large downloads; re-fetching can take a long time.",
                ),
            ).warn_if(currently_running(ctx, 8_188), running_warning("ComfyUI", 8_188)).build(),
        ),
        None => None,
    }
}

/// What ComfyUI generated.
pub open spec fn comfyui_output_offer(ctx: &ScanContext, at: Seq<char>) -> Seq<CandidateModel> {
    let path = join(at, "output"@);
    given(ctx.disk@.is_dir(path), artifact("ml.comfyui-output"@, Group::Ml, "ComfyUI generated output"@, at, path)
        .detailed("Images and other media ComfyUI generated."@)
        .tiered(Tier::Caution)
        .returning(RegenModel::Never)
        .with_warning(output_warning()))
}

fn comfyui_output(ctx: &ScanContext, at: &str) -> (found: Option<Candidate>)
    ensures
        addition(found) == comfyui_output_offer(ctx, at@),
{
    let path = join_path(at, "output");
    match project_artifact(
        ctx,
        "ml.comfyui-output",
        Group::Ml,
        "ComfyUI generated output",
        at,
        path.as_str(),
    ) {
        Some(c) => Some(c
            .detail("Images and other media ComfyUI generated.")
            .tier(Tier::Caution)
            .regen(Regen::Never)
            .warn(irreplaceable_output_warning()).build()),
        None => None,
    }
}

/// An install of ComfyUI, told apart from other Python projects by a file that it writes itself.
pub struct ComfyUi;

impl ProjectOffers for ComfyUi {
    open spec fn offers_in(&self, ctx: &ScanContext, project: ProjectModel) -> Seq<CandidateModel> {
        let at = project.path;
        if ctx.disk@.is_file(join(at, ".comfy_environment"@)) {
            nothing() + comfyui_models_offer(ctx, at) + comfyui_output_offer(ctx, at)
        } else {
            nothing()
        }
    }

    fn build(&self, ctx: &ScanContext, project: &ProjectRoot) -> (out: Vec<Candidate>) {
        let at = project.path.as_str();
        let mut out = start();
        if !ctx.disk.is_file(join_path(at, ".comfy_environment").as_str()) {
            return out;
        }
        offer(&mut out, comfyui_models(ctx, at));
        offer(&mut out, comfyui_output(ctx, at));
        out
    }
}

/// A cache of SillyTavern that fills again in normal use.
pub open spec fn tavern_cache_offer(
    ctx: &ScanContext,
    at: Seq<char>,
    label: Seq<char>,
    dir: Seq<char>,
) -> Seq<CandidateModel> {
    let path = join(at, dir);
    given(
        ctx.disk@.is_dir(path),
        artifact("ml.sillytavern-cache"@, Group::Ml, label, at, path).returning(
            auto_on("normal use"@),
        ).warned_if(is_running(ctx, 8_000), in_use_warning("SillyTavern"@, 8_000)),
    )
}

fn tavern_cache(ctx: &ScanContext, at: &str, label: &str, dir: &str) -> (found: Option<Candidate>)
    ensures
        addition(found) == tavern_cache_offer(ctx, at@, label@, dir@),
{
    let path = join_path(at, dir);
    match project_artifact(ctx, "ml.sillytavern-cache", Group::Ml, label, at, path.as_str()) {
        Some(c) => Some(
            c.regen(automatic("normal use")).warn_if(
                currently_running(ctx, 8_000),
                running_warning("SillyTavern", 8_000),
            ).build(),
        ),
        None => None,
    }
}

/// The thumbnails of one profile. Profiles can be renamed, so each one found is looked at.
pub struct Thumbnails<'a> {
    pub at: &'a str,
}

impl<'a> SubdirOffers for Thumbnails<'a> {
    open spec fn offer_of(&self, ctx: &ScanContext, dir: Seq<char>, name: Seq<char>) -> Seq<
        CandidateModel,
    > {
        thumbnails_offer(ctx, self.at@, join(join(dir, name), "thumbnails"@))
    }

    fn build(&self, ctx: &ScanContext, dir: &str, name: &str) -> (found: Option<Candidate>) {
        let path = join_path(join_path(dir, name).as_str(), "thumbnails");
        match project_artifact(
            ctx,
            "ml.sillytavern-thumbnails",
            Group::Ml,
            "SillyTavern thumbnail cache",
            self.at,
            path.as_str(),
        ) {
            Some(c) => Some(
                c.regen(automatic("next view")).warn_if(
                    currently_running(ctx, 8_000),
                    running_warning("SillyTavern", 8_000),
                ).build(),
            ),
            None => None,
        }
    }
}

/// The thumbnails in a directory.
pub open spec fn thumbnails_offer(ctx: &ScanContext, at: Seq<char>, path: Seq<char>) -> Seq<
    CandidateModel,
> {
    given(
        ctx.disk@.is_dir(path),
        artifact(
            "ml.sillytavern-thumbnails"@,
            Group::Ml,
            "SillyTavern thumbnail cache"@,
            at,
            path,
        ).returning(auto_on("next view"@)).warned_if(
            is_running(ctx, 8_000),
            in_use_warning("SillyTavern"@, 8_000),
        ),
    )
}

/// The thumbnails of all profiles of an install.
pub open spec fn all_thumbnails_offer(
    ctx: &ScanContext,
    at: Seq<char>,
    dir: Seq<char>,
    profiles: Seq<Seq<char>>,
) -> Seq<CandidateModel>
    decreases profiles.len(),
{
    if profiles.len() == 0 {
        nothing()
    } else {
        all_thumbnails_offer(ctx, at, dir, profiles.drop_last()) + thumbnails_offer(
            ctx,
            at,
            join(join(dir, profiles.last()), "thumbnails"@),
        )
    }
}

proof fn lemma_thumbnails<'a>(
    build: &Thumbnails<'a>,
    ctx: &ScanContext,
    dir: Seq<char>,
    profiles: Seq<Seq<char>>,
)
    ensures
        offers_of_all(build, ctx, dir, profiles) == all_thumbnails_offer(
            ctx,
            build.at@,
            dir,
            profiles,
        ),
    decreases profiles.len(),
{
    if profiles.len() > 0 {
        lemma_thumbnails(build, ctx, dir, profiles.drop_last());
    }
}

/// An install of SillyTavern, told apart from other Node projects by a script of its front end.
pub struct SillyTavern;

impl ProjectOffers for SillyTavern {
    open spec fn offers_in(&self, ctx: &ScanContext, project: ProjectModel) -> Seq<CandidateModel> {
        let at = project.path;
        let data = join(at, "data"@);
        if ctx.disk@.is_file(join(at, "public/scripts/world-info.js"@)) {
            nothing()
                + tavern_cache_offer(ctx, at, "SillyTavern content cache"@, "data/_cache"@)
                + tavern_cache_offer(ctx, at, "SillyTavern webpack cache"@, "data/_webpack"@)
                + tavern_cache_offer(ctx, at, "SillyTavern upload cache"@, "data/_uploads"@)
                + all_thumbnails_offer(ctx, at, data, ctx.disk@.subdir_names(data))
        } else {
            nothing()
        }
    }

    fn build(&self, ctx: &ScanContext, project: &ProjectRoot) -> (out: Vec<Candidate>) {
        let at = project.path.as_str();
        let mut out = start();
        if !ctx.disk.is_file(join_path(at, "public/scripts/world-info.js").as_str()) {
            return out;
        }
        offer(&mut out, tavern_cache(ctx, at, "SillyTavern content cache", "data/_cache"));
        offer(&mut out, tavern_cache(ctx, at, "SillyTavern webpack cache", "data/_webpack"));
        offer(&mut out, tavern_cache(ctx, at, "SillyTavern upload cache", "data/_uploads"));
        let data = join_path(at, "data");
        let thumbnails = Thumbnails { at };
        proof {
            lemma_thumbnails(&thumbnails, ctx, data@, ctx.disk@.subdir_names(data@));
        }
        offer_all(&mut out, each_subdir(ctx, data.as_str(), &thumbnails));
        out
    }
}

/// Model weights of the Stable Diffusion WebUI.
pub open spec fn webui_models_offer(ctx: &ScanContext, at: Seq<char>) -> Seq<CandidateModel> {
    let path = join(at, "models"@);
    given(
        ctx.disk@.is_dir(path),
        artifact("ml.a1111-models"@, Group::Ml, "Stable Diffusion WebUI models"@, at, path).detailed(
            "Checkpoints, LoRAs, VAEs, ControlNet and embedding weights."@,
        ).tiered(Tier::Review).returning(download("Hugging Face / Civitai"@)).with_warning(
            caution(
                "Model weights are very large downloads; re-fetching can take a long time."@,
            ),
        ).warned_if(is_running(ctx, 7_860), in_use_warning("Automatic1111"@, 7_860)),
    )
}

fn webui_models(ctx: &ScanContext, at: &str) -> (found: Option<Candidate>)
    ensures
        addition(found) == webui_models_offer(ctx, at@),
{
    let path = join_path(at, "models");
    match project_artifact(
        ctx,
        "ml.a1111-models",
        Group::Ml,
        "Stable Diffusion WebUI models",
        at,
        path.as_str(),
    ) {
        Some(c) => Some(
            c.detail("Checkpoints, LoRAs, VAEs, ControlNet and embedding weights.").tier(Tier::Review).regen(
                redownload("Hugging Face / Civitai"),
            ).warn(
                Warning::caution(
                    "Model weights are very large downloads; re-fetching can take a long time.",
                ),
            ).warn_if(currently_running(ctx, 7_860), running_warning("Automatic1111", 7_860)).build(),
        ),
        None => None,
    }
}

/// What the Stable Diffusion WebUI generated.
pub open spec fn webui_output_offer(ctx: &ScanContext, at: Seq<char>) -> Seq<CandidateModel> {
    let path = join(at, "outputs"@);
    given(ctx.disk@.is_dir(path), artifact("ml.a1111-output"@, Group::Ml, "Stable Diffusion WebUI generated output"@, at, path)
        .detailed("Images WebUI generated."@)
        .tiered(Tier::Caution)
        .returning(RegenModel::Never)
        .with_warning(output_warning()))
}

fn webui_output(ctx: &ScanContext, at: &str) -> (found: Option<Candidate>)
    ensures
        addition(found) == webui_output_offer(ctx, at@),
{
    let path = join_path(at, "outputs");
    match project_artifact(
        ctx,
        "ml.a1111-output",
        Group::Ml,
        "Stable Diffusion WebUI generated output",
        at,
        path.as_str(),
    ) {
        Some(c) => Some(c
            .detail("Images WebUI generated.")
            .tier(Tier::Caution)
            .regen(Regen::Never)
            .warn(irreplaceable_output_warning()).build()),
        None => None,
    }
}

/// An install of the Stable Diffusion WebUI. Either of its two files alone is too generic to trust.
pub struct Automatic1111;

impl ProjectOffers for Automatic1111 {
    open spec fn offers_in(&self, ctx: &ScanContext, project: ProjectModel) -> Seq<CandidateModel> {
        let at = project.path;
        if ctx.disk@.is_file(join(at, "webui.py"@)) && ctx.disk@.is_file(
            join(at, "modules/paths_internal.py"@),
        ) {
            nothing() + webui_models_offer(ctx, at) + webui_output_offer(ctx, at)
        } else {
            nothing()
        }
    }

    fn build(&self, ctx: &ScanContext, project: &ProjectRoot) -> (out: Vec<Candidate>) {
        let at = project.path.as_str();
        let mut out = start();
        if !(ctx.disk.is_file(join_path(at, "webui.py").as_str()) && ctx.disk.is_file(
            join_path(at, "modules/paths_internal.py").as_str(),
        )) {
            return out;
        }
        offer(&mut out, webui_models(ctx, at));
        offer(&mut out, webui_output(ctx, at));
        out
    }
}

/// Installs by git clone.
pub struct LocalAiTools;

impl Provider for LocalAiTools {
    open spec fn name(&self) -> Seq<char> {
        "ml.local-tools"@
    }

    open spec fn marks(&self) -> Seq<Seq<char>> {
        Seq::empty()
    }

    open spec fn offers(&self, ctx: &ScanContext) -> Seq<CandidateModel> {
        nothing()
            + offers_in_all(&ComfyUi, ctx, ctx.marked(seq!["requirements.txt"@, "pyproject.toml"@]))
            + offers_in_all(&SillyTavern, ctx, ctx.marked(seq!["package.json"@]))
            + offers_in_all(
                &Automatic1111,
                ctx,
                ctx.marked(seq!["requirements.txt"@, "pyproject.toml"@]),
            )
    }

    fn id(&self) -> (s: &'static str) {
        "ml.local-tools"
    }

    fn markers(&self) -> (v: Vec<&'static str>) {
        let v: Vec<&'static str> = Vec::new();
        assert(views(v@) =~= Seq::empty());
        v
    }

    fn discover(&self, ctx: &ScanContext) -> (out: Vec<Candidate>) {
        let python = ["requirements.txt", "pyproject.toml"];
        assert(views(python@) =~= seq!["requirements.txt"@, "pyproject.toml"@]);
        let node = ["package.json"];
        assert(views(node@) =~= seq!["package.json"@]);
        let mut out = start();
        offer_all(&mut out, artifacts_in_projects(ctx, &python, &ComfyUi));
        offer_all(&mut out, artifacts_in_projects(ctx, &node, &SillyTavern));
        offer_all(&mut out, artifacts_in_projects(ctx, &python, &Automatic1111));
        out
    }
}

/// The providers of this module.
pub fn providers() -> (v: Vec<AnyProvider>)
    ensures
        v@ == seq![
            AnyProvider::LocalModels(MachineLearning),
            AnyProvider::LocalAiTools(LocalAiTools),
        ],
{
    let v = vec![
        AnyProvider::LocalModels(MachineLearning),
        AnyProvider::LocalAiTools(LocalAiTools),
    ];
    assert(
        v@ =~= seq![
            AnyProvider::LocalModels(MachineLearning),
            AnyProvider::LocalAiTools(LocalAiTools),
        ]
    );
    v
}

} // verus!
