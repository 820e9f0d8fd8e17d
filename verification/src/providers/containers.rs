//! Containers: Docker, Podman, Colima and Lima.
//!
//! Docker is reclaimed by asking the daemon rather than by deleting paths: its storage is a single
//! opaque disk image on macOS, and removing files under it corrupts the whole installation.
use vstd::prelude::*;
use vstd::string::*;
use crate::model::{
    Candidate, CandidateBuilder, CandidateModel, Group, Regen, RegenModel, Tier, Warning,
};
use crate::path::join;
use crate::pipeline::{Provider, ScanContext, discover};
use crate::providers::AnyProvider;
use crate::providers::support::{
    addition, auto_on, automatic, cache, caution, danger, download, given, info, nothing, offer,
    rebuild, redownload, shell, start,
};
use crate::text::views;

verus! {

pub struct Docker;

/// The build cache: pure derived data.
pub open spec fn layer_cache_offer(ctx: &ScanContext) -> Seq<CandidateModel> {
    given(
        true,
        cache(
            "containers.docker-buildcache"@,
            Group::Containers,
            "Docker build cache"@,
            join(ctx.paths@.home, ".docker"@),
        ).detailed(
            "BuildKit layer cache. Rebuilt on the next image build."@,
        ).running("docker"@, seq!["builder"@, "prune"@, "-a"@, "-f"@]).tiered(Tier::Safe).returning(
            rebuild(8),
        ).with_warning(
            info(
                "Only affects cache layers; images and containers are untouched."@,
            ),
        ),
    )
}

fn layer_cache(ctx: &ScanContext) -> (found: Option<Candidate>)
    ensures
        addition(found) == layer_cache_offer(ctx),
{
    let args = ["builder", "prune", "-a", "-f"];
    assert(views(args@) =~= seq!["builder"@, "prune"@, "-a"@, "-f"@]);
    Some(
        CandidateBuilder::new(
            "containers.docker-buildcache",
            Group::Containers,
            "Docker build cache",
        ).path(ctx.paths.home_join(".docker").as_str()).detail(
            "BuildKit layer cache. Rebuilt on the next image build.",
        ).action(shell("docker", &args)).tier(Tier::Safe).regen(
            Regen::Rebuild { minutes: 8 },
        ).warn(
            Warning::info(
                "Only affects cache layers; images and containers are untouched.",
            ),
        ).build(),
    )
}

/// Images that no tag refers to, so that nothing can be using them.
pub open spec fn dangling_images_offer(ctx: &ScanContext) -> Seq<CandidateModel> {
    given(
        true,
        cache(
            "containers.docker-dangling"@,
            Group::Containers,
            "Dangling Docker images"@,
            join(ctx.paths@.home, ".docker"@),
        ).detailed(
            "Untagged image layers left behind by rebuilds."@,
        ).running("docker"@, seq!["image"@, "prune"@, "-f"@]).tiered(Tier::Safe).returning(
            download("the image registry"@),
        ),
    )
}

fn dangling_images(ctx: &ScanContext) -> (found: Option<Candidate>)
    ensures
        addition(found) == dangling_images_offer(ctx),
{
    let args = ["image", "prune", "-f"];
    assert(views(args@) =~= seq!["image"@, "prune"@, "-f"@]);
    Some(
        CandidateBuilder::new(
            "containers.docker-dangling",
            Group::Containers,
            "Dangling Docker images",
        ).path(ctx.paths.home_join(".docker").as_str()).detail(
            "Untagged image layers left behind by rebuilds.",
        ).action(shell("docker", &args)).tier(Tier::Safe).regen(
            redownload("the image registry"),
        ).build(),
    )
}

/// Images that nothing runs, tagged ones included: a bigger and more surprising set.
pub open spec fn unused_images_offer(ctx: &ScanContext) -> Seq<CandidateModel> {
    given(
        true,
        cache(
            "containers.docker-unused"@,
            Group::Containers,
            "All unused Docker images"@,
            join(ctx.paths@.home, ".docker"@),
        ).detailed(
            "Every image not used by a running container, including tagged ones you pulled deliberately."@,
        ).running("docker"@, seq!["system"@, "prune"@, "-a"@, "-f"@]).tiered(Tier::Review).returning(
            download("the image registry"@),
        ).with_warning(
            caution(
                "Removes tagged images too. Anything not pullable from a registry (locally built, never pushed) is gone."@,
            ),
        ),
    )
}

fn unused_images(ctx: &ScanContext) -> (found: Option<Candidate>)
    ensures
        addition(found) == unused_images_offer(ctx),
{
    let args = ["system", "prune", "-a", "-f"];
    assert(views(args@) =~= seq!["system"@, "prune"@, "-a"@, "-f"@]);
    Some(
        CandidateBuilder::new(
            "containers.docker-unused",
            Group::Containers,
            "All unused Docker images",
        ).path(ctx.paths.home_join(".docker").as_str()).detail(
            "Every image not used by a running container, including tagged ones you pulled deliberately.",
        ).action(shell("docker", &args)).tier(Tier::Review).regen(
            redownload("the image registry"),
        ).warn(
            Warning::caution(
                "Removes tagged images too. Anything not pullable from a registry (locally built, never pushed) is gone.",
            ),
        ).build(),
    )
}

/// Volumes, which hold databases and other state: offered on request only.
pub open spec fn unused_volumes_offer(ctx: &ScanContext) -> Seq<CandidateModel> {
    given(
        true,
        cache(
            "containers.docker-volumes"@,
            Group::Containers,
            "Unused Docker volumes"@,
            join(ctx.paths@.home, ".docker"@),
        ).detailed(
            "Named volumes not attached to any container."@,
        ).running("docker"@, seq!["volume"@, "prune"@, "-a"@, "-f"@]).tiered(Tier::Caution).returning(
            RegenModel::Never,
        ).with_warning(
            danger(
                "Volumes hold database contents and other persistent state. This is unrecoverable."@,
            ),
        ),
    )
}

fn unused_volumes(ctx: &ScanContext) -> (found: Option<Candidate>)
    ensures
        addition(found) == unused_volumes_offer(ctx),
{
    let args = ["volume", "prune", "-a", "-f"];
    assert(views(args@) =~= seq!["volume"@, "prune"@, "-a"@, "-f"@]);
    Some(
        CandidateBuilder::new(
            "containers.docker-volumes",
            Group::Containers,
            "Unused Docker volumes",
        ).path(ctx.paths.home_join(".docker").as_str()).detail(
            "Named volumes not attached to any container.",
        ).action(shell("docker", &args)).tier(Tier::Caution).regen(
            Regen::Never,
        ).warn(
            Warning::danger(
                "Volumes hold database contents and other persistent state. This is unrecoverable.",
            ),
        ).build(),
    )
}

impl Provider for Docker {
    open spec fn name(&self) -> Seq<char> {
        "containers.docker"@
    }

    open spec fn marks(&self) -> Seq<Seq<char>> {
        Seq::empty()
    }

    open spec fn offers(&self, ctx: &ScanContext) -> Seq<CandidateModel> {
        if ctx.disk@.commands.contains("docker"@) && ctx.disk@.daemons.contains("docker"@) {
            nothing() + layer_cache_offer(ctx) + dangling_images_offer(ctx) + unused_images_offer(
                ctx,
            ) + (if ctx.config.providers.containers.include_volumes {
                unused_volumes_offer(ctx)
            } else {
                nothing()
            })
        } else {
            nothing()
        }
    }

    fn id(&self) -> (s: &'static str) {
        "containers.docker"
    }

    fn markers(&self) -> (v: Vec<&'static str>) {
        let v: Vec<&'static str> = Vec::new();
        assert(views(v@) =~= Seq::empty());
        v
    }

    fn discover(&self, ctx: &ScanContext) -> (out: Vec<Candidate>) {
        let mut out = start();
        if !ctx.disk.has_command("docker") || !ctx.disk.daemon_running("docker") {
            return out;
        }
        offer(&mut out, layer_cache(ctx));
        offer(&mut out, dangling_images(ctx));
        offer(&mut out, unused_images(ctx));
        let ghost before = views(out@);
        if ctx.config.providers.containers.include_volumes {
            offer(&mut out, unused_volumes(ctx));
        } else {
            assert(before + nothing() =~= before);
        }
        out
    }
}

pub struct ContainerVms;

/// The disk image grows and never shrinks on its own, but it is everything that Docker holds.
pub open spec fn docker_disk_offer(ctx: &ScanContext) -> Seq<CandidateModel> {
    let path = join(ctx.paths@.home, "Library/Containers/com.docker.docker/Data/vms"@);
    given(ctx.disk@.present(path), cache("containers.docker-vm"@, Group::Containers, "Docker Desktop disk image"@, path)
        .tiered(Tier::Caution)
        .returning(RegenModel::Never)
        .with_warning(danger("This single file contains every Docker image, container and volume. Deleting it is equivalent to a factory reset of Docker."@)))
}

fn docker_disk(ctx: &ScanContext) -> (found: Option<Candidate>)
    ensures
        addition(found) == docker_disk_offer(ctx),
{
    let path = ctx.paths.home_join("Library/Containers/com.docker.docker/Data/vms");
    if ctx.disk.has(path.as_str()) {
        Some(CandidateBuilder::new("containers.docker-vm", Group::Containers, "Docker Desktop disk image").path(path.as_str())
            .tier(Tier::Caution)
            .regen(Regen::Never)
            .warn(Warning::danger("This single file contains every Docker image, container and volume. Deleting it is equivalent to a factory reset of Docker.")).build())
    } else {
        None
    }
}

/// Logs of Docker Desktop.
pub open spec fn docker_logs_offer(ctx: &ScanContext) -> Seq<CandidateModel> {
    let path = join(ctx.paths@.home, "Library/Containers/com.docker.docker/Data/log"@);
    given(ctx.disk@.present(path), cache("containers.docker-vm"@, Group::Containers, "Docker Desktop data"@, path)
        .tiered(Tier::Safe)
        .returning(auto_on("next start"@)))
}

fn docker_logs(ctx: &ScanContext) -> (found: Option<Candidate>)
    ensures
        addition(found) == docker_logs_offer(ctx),
{
    let path = ctx.paths.home_join("Library/Containers/com.docker.docker/Data/log");
    if ctx.disk.has(path.as_str()) {
        Some(CandidateBuilder::new("containers.docker-vm", Group::Containers, "Docker Desktop data").path(path.as_str())
            .tier(Tier::Safe)
            .regen(automatic("next start")).build())
    } else {
        None
    }
}

/// A virtual machine with all of its images and volumes.
pub open spec fn machine_offer(
    ctx: &ScanContext,
    id: Seq<char>,
    label: Seq<char>,
    path: Seq<char>,
) -> Seq<CandidateModel> {
    given(ctx.disk@.present(path), cache(id, Group::Containers, label, path)
        .tiered(Tier::Caution)
        .returning(RegenModel::Never)
        .with_warning(danger("Contains the virtual machine disk with all of its images and volumes."@)))
}

fn machine(ctx: &ScanContext, id: &str, label: &str, path: &str) -> (found: Option<Candidate>)
    ensures
        addition(found) == machine_offer(ctx, id@, label@, path@),
{
    if ctx.disk.has(path) {
        Some(CandidateBuilder::new(id, Group::Containers, label).path(path)
            .tier(Tier::Caution)
            .regen(Regen::Never)
            .warn(Warning::danger("Contains the virtual machine disk with all of its images and volumes.")).build())
    } else {
        None
    }
}

impl Provider for ContainerVms {
    open spec fn name(&self) -> Seq<char> {
        "containers.vms"@
    }

    open spec fn marks(&self) -> Seq<Seq<char>> {
        Seq::empty()
    }

    open spec fn offers(&self, ctx: &ScanContext) -> Seq<CandidateModel> {
        nothing()
            + docker_disk_offer(ctx)
            + docker_logs_offer(ctx)
            + machine_offer(
                ctx,
                "containers.colima"@,
                "Colima VM data"@,
                join(ctx.paths@.home, ".colima"@),
            )
            + machine_offer(
                ctx,
                "containers.lima"@,
                "Lima VM data"@,
                join(ctx.paths@.home, ".lima"@),
            )
            + machine_offer(
                ctx,
                "containers.podman"@,
                "Podman machine data"@,
                join(ctx.paths@.home, ".local/share/containers"@),
            )
    }

    fn id(&self) -> (s: &'static str) {
        "containers.vms"
    }

    fn markers(&self) -> (v: Vec<&'static str>) {
        let v: Vec<&'static str> = Vec::new();
        assert(views(v@) =~= Seq::empty());
        v
    }

    fn discover(&self, ctx: &ScanContext) -> (out: Vec<Candidate>) {
        let mut out = start();
        offer(&mut out, docker_disk(ctx));
        offer(&mut out, docker_logs(ctx));
        offer(
            &mut out,
            machine(
                ctx,
                "containers.colima",
                "Colima VM data",
                ctx.paths.home_join(".colima").as_str(),
            ),
        );
        offer(
            &mut out,
            machine(ctx, "containers.lima", "Lima VM data", ctx.paths.home_join(".lima").as_str()),
        );
        offer(
            &mut out,
            machine(
                ctx,
                "containers.podman",
                "Podman machine data",
                ctx.paths.home_join(".local/share/containers").as_str(),
            ),
        );
        out
    }
}

/// The providers of this module.
pub fn providers() -> (v: Vec<AnyProvider>)
    ensures
        v@ == seq![AnyProvider::Docker(Docker), AnyProvider::ContainerVms(ContainerVms)],
{
    let v = vec![AnyProvider::Docker(Docker), AnyProvider::ContainerVms(ContainerVms)];
    assert(v@ =~= seq![AnyProvider::Docker(Docker), AnyProvider::ContainerVms(ContainerVms)]);
    v
}

} // verus!
