//! Ecosystem providers: what each toolchain leaves on disk, how safe it is to
//! remove, and what it costs to get back.
//!
//! A provider is deliberately dumb and declarative. It looks at what exists and at the projects
//! that were found, then returns candidates carrying a tier, a regeneration cost and the warnings
//! a user needs before deciding. It never measures, never walks, and never deletes.
use vstd::prelude::*;
use vstd::string::*;
use crate::discovery::{drop_repeats, lemma_sorted_once, sort_texts, text_sorted, without_repeats};
use crate::model::{Candidate, CandidateModel, Group};
use crate::pipeline::{Provider, ScanContext, discover};
use crate::text::{has_prefix, views};
use crate::providers::node::NodeCaches;
use crate::providers::node::NodeModules;
use crate::providers::python::PythonCaches;
use crate::providers::python::PythonProjects;
use crate::providers::rust::RustCaches;
use crate::providers::rust::RustTargets;
use crate::providers::jvm::JvmCaches;
use crate::providers::jvm::JvmProjects;
use crate::providers::go::GoCaches;
use crate::providers::apple::XcodeArtifacts;
use crate::providers::apple::SimulatorRuntimes;
use crate::providers::apple::CocoaPods;
use crate::providers::android::AndroidSdk;
use crate::providers::android::AndroidAvds;
use crate::providers::containers::Docker;
use crate::providers::containers::ContainerVms;
use crate::providers::misc::DotNet;
use crate::providers::misc::Ruby;
use crate::providers::misc::Php;
use crate::providers::misc::Dart;
use crate::providers::misc::BuildTools;
use crate::providers::misc::Editors;
use crate::providers::misc::System;
use crate::providers::misc::MachineLearning;
use crate::providers::ai_tools::LocalAiTools;

pub mod ai_tools;
pub mod android;
pub mod apple;
pub mod catalogue;
pub mod containers;
pub mod go;
pub mod jvm;
pub mod misc;
pub mod node;
pub mod probes;
pub mod python;
pub mod reach;
pub mod rules;
pub mod rust;
pub mod support;
pub mod testing;

verus! {

broadcast use crate::text::lemma_views_push;

/// A provider of any ecosystem.
pub enum AnyProvider {
    NodeCaches(NodeCaches),
    NodeModules(NodeModules),
    PythonCaches(PythonCaches),
    PythonProjects(PythonProjects),
    RustCaches(RustCaches),
    RustTargets(RustTargets),
    JvmCaches(JvmCaches),
    JvmProjects(JvmProjects),
    GoCaches(GoCaches),
    XcodeArtifacts(XcodeArtifacts),
    SimulatorRuntimes(SimulatorRuntimes),
    CocoaPods(CocoaPods),
    AndroidSdk(AndroidSdk),
    AndroidAvds(AndroidAvds),
    Docker(Docker),
    ContainerVms(ContainerVms),
    DotNet(DotNet),
    Ruby(Ruby),
    Php(Php),
    Dart(Dart),
    BuildTools(BuildTools),
    Editors(Editors),
    System(System),
    MachineLearning(MachineLearning),
    LocalModels(crate::providers::ai_tools::MachineLearning),
    LocalAiTools(LocalAiTools),
}

impl Provider for AnyProvider {
    open spec fn name(&self) -> Seq<char> {
        match self {
            AnyProvider::NodeCaches(p) => p.name(),
            AnyProvider::NodeModules(p) => p.name(),
            AnyProvider::PythonCaches(p) => p.name(),
            AnyProvider::PythonProjects(p) => p.name(),
            AnyProvider::RustCaches(p) => p.name(),
            AnyProvider::RustTargets(p) => p.name(),
            AnyProvider::JvmCaches(p) => p.name(),
            AnyProvider::JvmProjects(p) => p.name(),
            AnyProvider::GoCaches(p) => p.name(),
            AnyProvider::XcodeArtifacts(p) => p.name(),
            AnyProvider::SimulatorRuntimes(p) => p.name(),
            AnyProvider::CocoaPods(p) => p.name(),
            AnyProvider::AndroidSdk(p) => p.name(),
            AnyProvider::AndroidAvds(p) => p.name(),
            AnyProvider::Docker(p) => p.name(),
            AnyProvider::ContainerVms(p) => p.name(),
            AnyProvider::DotNet(p) => p.name(),
            AnyProvider::Ruby(p) => p.name(),
            AnyProvider::Php(p) => p.name(),
            AnyProvider::Dart(p) => p.name(),
            AnyProvider::BuildTools(p) => p.name(),
            AnyProvider::Editors(p) => p.name(),
            AnyProvider::System(p) => p.name(),
            AnyProvider::MachineLearning(p) => p.name(),
            AnyProvider::LocalModels(p) => p.name(),
            AnyProvider::LocalAiTools(p) => p.name(),
        }
    }

    open spec fn marks(&self) -> Seq<Seq<char>> {
        match self {
            AnyProvider::NodeCaches(p) => p.marks(),
            AnyProvider::NodeModules(p) => p.marks(),
            AnyProvider::PythonCaches(p) => p.marks(),
            AnyProvider::PythonProjects(p) => p.marks(),
            AnyProvider::RustCaches(p) => p.marks(),
            AnyProvider::RustTargets(p) => p.marks(),
            AnyProvider::JvmCaches(p) => p.marks(),
            AnyProvider::JvmProjects(p) => p.marks(),
            AnyProvider::GoCaches(p) => p.marks(),
            AnyProvider::XcodeArtifacts(p) => p.marks(),
            AnyProvider::SimulatorRuntimes(p) => p.marks(),
            AnyProvider::CocoaPods(p) => p.marks(),
            AnyProvider::AndroidSdk(p) => p.marks(),
            AnyProvider::AndroidAvds(p) => p.marks(),
            AnyProvider::Docker(p) => p.marks(),
            AnyProvider::ContainerVms(p) => p.marks(),
            AnyProvider::DotNet(p) => p.marks(),
            AnyProvider::Ruby(p) => p.marks(),
            AnyProvider::Php(p) => p.marks(),
            AnyProvider::Dart(p) => p.marks(),
            AnyProvider::BuildTools(p) => p.marks(),
            AnyProvider::Editors(p) => p.marks(),
            AnyProvider::System(p) => p.marks(),
            AnyProvider::MachineLearning(p) => p.marks(),
            AnyProvider::LocalModels(p) => p.marks(),
            AnyProvider::LocalAiTools(p) => p.marks(),
        }
    }

    open spec fn offers(&self, ctx: &ScanContext) -> Seq<CandidateModel> {
        match self {
            AnyProvider::NodeCaches(p) => p.offers(ctx),
            AnyProvider::NodeModules(p) => p.offers(ctx),
            AnyProvider::PythonCaches(p) => p.offers(ctx),
            AnyProvider::PythonProjects(p) => p.offers(ctx),
            AnyProvider::RustCaches(p) => p.offers(ctx),
            AnyProvider::RustTargets(p) => p.offers(ctx),
            AnyProvider::JvmCaches(p) => p.offers(ctx),
            AnyProvider::JvmProjects(p) => p.offers(ctx),
            AnyProvider::GoCaches(p) => p.offers(ctx),
            AnyProvider::XcodeArtifacts(p) => p.offers(ctx),
            AnyProvider::SimulatorRuntimes(p) => p.offers(ctx),
            AnyProvider::CocoaPods(p) => p.offers(ctx),
            AnyProvider::AndroidSdk(p) => p.offers(ctx),
            AnyProvider::AndroidAvds(p) => p.offers(ctx),
            AnyProvider::Docker(p) => p.offers(ctx),
            AnyProvider::ContainerVms(p) => p.offers(ctx),
            AnyProvider::DotNet(p) => p.offers(ctx),
            AnyProvider::Ruby(p) => p.offers(ctx),
            AnyProvider::Php(p) => p.offers(ctx),
            AnyProvider::Dart(p) => p.offers(ctx),
            AnyProvider::BuildTools(p) => p.offers(ctx),
            AnyProvider::Editors(p) => p.offers(ctx),
            AnyProvider::System(p) => p.offers(ctx),
            AnyProvider::MachineLearning(p) => p.offers(ctx),
            AnyProvider::LocalModels(p) => p.offers(ctx),
            AnyProvider::LocalAiTools(p) => p.offers(ctx),
        }
    }

    fn id(&self) -> (s: &'static str) {
        match self {
            AnyProvider::NodeCaches(p) => p.id(),
            AnyProvider::NodeModules(p) => p.id(),
            AnyProvider::PythonCaches(p) => p.id(),
            AnyProvider::PythonProjects(p) => p.id(),
            AnyProvider::RustCaches(p) => p.id(),
            AnyProvider::RustTargets(p) => p.id(),
            AnyProvider::JvmCaches(p) => p.id(),
            AnyProvider::JvmProjects(p) => p.id(),
            AnyProvider::GoCaches(p) => p.id(),
            AnyProvider::XcodeArtifacts(p) => p.id(),
            AnyProvider::SimulatorRuntimes(p) => p.id(),
            AnyProvider::CocoaPods(p) => p.id(),
            AnyProvider::AndroidSdk(p) => p.id(),
            AnyProvider::AndroidAvds(p) => p.id(),
            AnyProvider::Docker(p) => p.id(),
            AnyProvider::ContainerVms(p) => p.id(),
            AnyProvider::DotNet(p) => p.id(),
            AnyProvider::Ruby(p) => p.id(),
            AnyProvider::Php(p) => p.id(),
            AnyProvider::Dart(p) => p.id(),
            AnyProvider::BuildTools(p) => p.id(),
            AnyProvider::Editors(p) => p.id(),
            AnyProvider::System(p) => p.id(),
            AnyProvider::MachineLearning(p) => p.id(),
            AnyProvider::LocalModels(p) => p.id(),
            AnyProvider::LocalAiTools(p) => p.id(),
        }
    }

    fn markers(&self) -> (v: Vec<&'static str>) {
        match self {
            AnyProvider::NodeCaches(p) => p.markers(),
            AnyProvider::NodeModules(p) => p.markers(),
            AnyProvider::PythonCaches(p) => p.markers(),
            AnyProvider::PythonProjects(p) => p.markers(),
            AnyProvider::RustCaches(p) => p.markers(),
            AnyProvider::RustTargets(p) => p.markers(),
            AnyProvider::JvmCaches(p) => p.markers(),
            AnyProvider::JvmProjects(p) => p.markers(),
            AnyProvider::GoCaches(p) => p.markers(),
            AnyProvider::XcodeArtifacts(p) => p.markers(),
            AnyProvider::SimulatorRuntimes(p) => p.markers(),
            AnyProvider::CocoaPods(p) => p.markers(),
            AnyProvider::AndroidSdk(p) => p.markers(),
            AnyProvider::AndroidAvds(p) => p.markers(),
            AnyProvider::Docker(p) => p.markers(),
            AnyProvider::ContainerVms(p) => p.markers(),
            AnyProvider::DotNet(p) => p.markers(),
            AnyProvider::Ruby(p) => p.markers(),
            AnyProvider::Php(p) => p.markers(),
            AnyProvider::Dart(p) => p.markers(),
            AnyProvider::BuildTools(p) => p.markers(),
            AnyProvider::Editors(p) => p.markers(),
            AnyProvider::System(p) => p.markers(),
            AnyProvider::MachineLearning(p) => p.markers(),
            AnyProvider::LocalModels(p) => p.markers(),
            AnyProvider::LocalAiTools(p) => p.markers(),
        }
    }

    fn discover(&self, ctx: &ScanContext) -> (out: Vec<Candidate>) {
        match self {
            AnyProvider::NodeCaches(p) => p.discover(ctx),
            AnyProvider::NodeModules(p) => p.discover(ctx),
            AnyProvider::PythonCaches(p) => p.discover(ctx),
            AnyProvider::PythonProjects(p) => p.discover(ctx),
            AnyProvider::RustCaches(p) => p.discover(ctx),
            AnyProvider::RustTargets(p) => p.discover(ctx),
            AnyProvider::JvmCaches(p) => p.discover(ctx),
            AnyProvider::JvmProjects(p) => p.discover(ctx),
            AnyProvider::GoCaches(p) => p.discover(ctx),
            AnyProvider::XcodeArtifacts(p) => p.discover(ctx),
            AnyProvider::SimulatorRuntimes(p) => p.discover(ctx),
            AnyProvider::CocoaPods(p) => p.discover(ctx),
            AnyProvider::AndroidSdk(p) => p.discover(ctx),
            AnyProvider::AndroidAvds(p) => p.discover(ctx),
            AnyProvider::Docker(p) => p.discover(ctx),
            AnyProvider::ContainerVms(p) => p.discover(ctx),
            AnyProvider::DotNet(p) => p.discover(ctx),
            AnyProvider::Ruby(p) => p.discover(ctx),
            AnyProvider::Php(p) => p.discover(ctx),
            AnyProvider::Dart(p) => p.discover(ctx),
            AnyProvider::BuildTools(p) => p.discover(ctx),
            AnyProvider::Editors(p) => p.discover(ctx),
            AnyProvider::System(p) => p.discover(ctx),
            AnyProvider::MachineLearning(p) => p.discover(ctx),
            AnyProvider::LocalModels(p) => p.discover(ctx),
            AnyProvider::LocalAiTools(p) => p.discover(ctx),
        }
    }
}

/// Every provider, in the order their groups are listed to the user.
pub open spec fn every_provider() -> Seq<AnyProvider> {
    seq![
        AnyProvider::NodeCaches(NodeCaches),
        AnyProvider::NodeModules(NodeModules),
        AnyProvider::PythonCaches(PythonCaches),
        AnyProvider::PythonProjects(PythonProjects),
        AnyProvider::RustCaches(RustCaches),
        AnyProvider::RustTargets(RustTargets),
        AnyProvider::JvmCaches(JvmCaches),
        AnyProvider::JvmProjects(JvmProjects),
        AnyProvider::GoCaches(GoCaches),
        AnyProvider::XcodeArtifacts(XcodeArtifacts),
        AnyProvider::SimulatorRuntimes(SimulatorRuntimes),
        AnyProvider::CocoaPods(CocoaPods),
        AnyProvider::AndroidSdk(AndroidSdk),
        AnyProvider::AndroidAvds(AndroidAvds),
        AnyProvider::Docker(Docker),
        AnyProvider::ContainerVms(ContainerVms),
        AnyProvider::DotNet(DotNet),
        AnyProvider::Ruby(Ruby),
        AnyProvider::Php(Php),
        AnyProvider::Dart(Dart),
        AnyProvider::BuildTools(BuildTools),
        AnyProvider::Editors(Editors),
        AnyProvider::System(System),
        AnyProvider::MachineLearning(MachineLearning),
    ]
}

/// Every provider, in the order their groups are listed to the user.
pub fn all() -> (v: Vec<AnyProvider>)
    ensures
        v@ == every_provider(),
{
    let mut v = node::providers();
    let mut more = python::providers();
    v.append(&mut more);
    let mut more = rust::providers();
    v.append(&mut more);
    let mut more = jvm::providers();
    v.append(&mut more);
    let mut more = go::providers();
    v.append(&mut more);
    let mut more = apple::providers();
    v.append(&mut more);
    let mut more = android::providers();
    v.append(&mut more);
    let mut more = containers::providers();
    v.append(&mut more);
    let mut more = misc::providers();
    v.append(&mut more);
    assert(v@ =~= every_provider());
    v
}

/// The marker files of all providers, provider by provider.
pub open spec fn marks_of(providers: Seq<AnyProvider>) -> Seq<Seq<char>>
    decreases providers.len(),
{
    if providers.len() == 0 {
        Seq::empty()
    } else {
        marks_of(providers.drop_last()) + providers.last().marks()
    }
}

/// Every project marker file any provider cares about, for the walk that finds projects: sorted,
/// each once.
pub fn all_markers() -> (markers: Vec<String>)
    ensures
        views(markers@) == without_repeats(text_sorted(marks_of(every_provider()))),
        views(markers@).no_duplicates(),
        forall|marker: Seq<char>|
            views(markers@).contains(marker) == marks_of(every_provider()).contains(marker),
{
    let providers = all();
    let mut found: Vec<String> = Vec::new();
    let mut i: usize = 0;
    assert(providers@.take(0) =~= Seq::empty());
    assert(views(found@) =~= Seq::<Seq<char>>::empty());
    while i < providers.len()
        invariant
            i <= providers@.len(),
            views(found@) == marks_of(providers@.take(i as int)),
        decreases providers@.len() - i,
    {
        assert(providers@.take(i + 1).drop_last() =~= providers@.take(i as int));
        let marks = providers[i].markers();
        let ghost before = views(found@);
        let ghost added = views(marks@);
        let mut k: usize = 0;
        assert(before + added.take(0) =~= before);
        while k < marks.len()
            invariant
                k <= marks@.len(),
                added == views(marks@),
                views(found@) == before + added.take(k as int),
            decreases marks@.len() - k,
        {
            assert(before + added.take(k + 1) =~= (before + added.take(k as int)).push(
                marks@[k as int]@,
            ));
            found.push(marks[k].to_owned());
            k += 1;
        }
        assert(added.take(added.len() as int) =~= added);
        i += 1;
    }
    assert(providers@.take(providers@.len() as int) =~= providers@);
    let sorted = sort_texts(&found);
    proof {
        lemma_sorted_once(views(found@), views(sorted@));
    }
    drop_repeats(&sorted)
}

/// No two providers have the same id.
pub proof fn provider_ids_are_unique(i: int, j: int)
    requires
        0 <= i < j < every_provider().len(),
    ensures
        every_provider()[i].name() != every_provider()[j].name(),
{
    reveal_strlit("node.caches");
    reveal_strlit("node.modules");
    reveal_strlit("python.caches");
    reveal_strlit("python.projects");
    reveal_strlit("rust.caches");
    reveal_strlit("rust.target");
    reveal_strlit("jvm.caches");
    reveal_strlit("jvm.projects");
    reveal_strlit("go.caches");
    reveal_strlit("apple.xcode");
    reveal_strlit("apple.simulators");
    reveal_strlit("apple.pods");
    reveal_strlit("android.sdk");
    reveal_strlit("android.avd");
    reveal_strlit("containers.docker");
    reveal_strlit("containers.vms");
    reveal_strlit("dotnet.caches");
    reveal_strlit("ruby.caches");
    reveal_strlit("php.caches");
    reveal_strlit("dart.caches");
    reveal_strlit("buildtools.caches");
    reveal_strlit("editors.caches");
    reveal_strlit("system.caches");
    reveal_strlit("ml.models");
    let a = every_provider()[i].name();
    let b = every_provider()[j].name();
    assert(a.len() != b.len() || a[0] != b[0] || a[2] != b[2] || a[8] != b[8]);
}

impl AnyProvider {
    /// The group of everything that the provider offers.
    pub open spec fn group(self) -> Group {
        match self {
            AnyProvider::NodeCaches(_) => Group::Node,
            AnyProvider::NodeModules(_) => Group::Node,
            AnyProvider::PythonCaches(_) => Group::Python,
            AnyProvider::PythonProjects(_) => Group::Python,
            AnyProvider::RustCaches(_) => Group::Rust,
            AnyProvider::RustTargets(_) => Group::Rust,
            AnyProvider::JvmCaches(_) => Group::Jvm,
            AnyProvider::JvmProjects(_) => Group::Jvm,
            AnyProvider::GoCaches(_) => Group::Go,
            AnyProvider::XcodeArtifacts(_) => Group::Apple,
            AnyProvider::SimulatorRuntimes(_) => Group::Apple,
            AnyProvider::CocoaPods(_) => Group::Apple,
            AnyProvider::AndroidSdk(_) => Group::Android,
            AnyProvider::AndroidAvds(_) => Group::Android,
            AnyProvider::Docker(_) => Group::Containers,
            AnyProvider::ContainerVms(_) => Group::Containers,
            AnyProvider::DotNet(_) => Group::DotNet,
            AnyProvider::Ruby(_) => Group::Ruby,
            AnyProvider::Php(_) => Group::Php,
            AnyProvider::Dart(_) => Group::Dart,
            AnyProvider::BuildTools(_) => Group::BuildTools,
            AnyProvider::Editors(_) => Group::Editors,
            AnyProvider::System(_) => Group::System,
            AnyProvider::MachineLearning(_) => Group::Ml,
            AnyProvider::LocalModels(_) => Group::Ml,
            AnyProvider::LocalAiTools(_) => Group::Ml,
        }
    }
}

/// The id of a provider is the name of its group, a dot, and a name: filtering by group relies on
/// it.
pub proof fn provider_ids_are_dotted(p: AnyProvider)
    ensures
        has_prefix(p.name(), p.group().name() + "."@),
        p.name().len() > p.group().name().len() + 1,
{
    reveal_strlit("android");
    reveal_strlit("android.avd");
    reveal_strlit("android.sdk");
    reveal_strlit("apple");
    reveal_strlit("apple.pods");
    reveal_strlit("apple.simulators");
    reveal_strlit("apple.xcode");
    reveal_strlit("buildtools");
    reveal_strlit("buildtools.caches");
    reveal_strlit("containers");
    reveal_strlit("containers.docker");
    reveal_strlit("containers.vms");
    reveal_strlit("dart");
    reveal_strlit("dart.caches");
    reveal_strlit("dotnet");
    reveal_strlit("dotnet.caches");
    reveal_strlit("editors");
    reveal_strlit("editors.caches");
    reveal_strlit("go");
    reveal_strlit("go.caches");
    reveal_strlit("jvm");
    reveal_strlit("jvm.caches");
    reveal_strlit("jvm.projects");
    reveal_strlit("ml");
    reveal_strlit("ml.local-tools");
    reveal_strlit("ml.models");
    reveal_strlit("node");
    reveal_strlit("node.caches");
    reveal_strlit("node.modules");
    reveal_strlit("php");
    reveal_strlit("php.caches");
    reveal_strlit("python");
    reveal_strlit("python.caches");
    reveal_strlit("python.projects");
    reveal_strlit("ruby");
    reveal_strlit("ruby.caches");
    reveal_strlit("rust");
    reveal_strlit("rust.caches");
    reveal_strlit("rust.target");
    reveal_strlit("system");
    reveal_strlit("system.caches");
    reveal_strlit(".");
    let prefix = p.group().name() + "."@;
    assert(p.name().take(prefix.len() as int) =~= prefix);
}

/// These files mark the projects of each provider; the others look at no project for their marks.
pub proof fn these_files_are_looked_for(p: AnyProvider)
    ensures
        p.marks() == match p {
            AnyProvider::NodeModules(_) => seq!["package.json"@],
            AnyProvider::PythonProjects(_) => seq![
                "pyproject.toml"@,
                "requirements.txt"@,
                "Pipfile"@,
                "setup.py"@,
                "environment.yml"@,
            ],
            AnyProvider::RustTargets(_) => seq!["Cargo.toml"@],
            AnyProvider::JvmProjects(_) => seq![
                "pom.xml"@,
                "build.gradle"@,
                "build.gradle.kts"@,
                "settings.gradle"@,
                "settings.gradle.kts"@,
                "build.sbt"@,
            ],
            AnyProvider::GoCaches(_) => seq!["go.mod"@],
            AnyProvider::CocoaPods(_) => seq!["Podfile"@, "Package.swift"@, "Cartfile"@],
            AnyProvider::DotNet(_) => seq!["Directory.Build.props"@],
            AnyProvider::Ruby(_) => seq!["Gemfile"@],
            AnyProvider::Php(_) => seq!["composer.json"@],
            AnyProvider::Dart(_) => seq!["pubspec.yaml"@],
            AnyProvider::BuildTools(_) => seq!["CMakeLists.txt"@, "WORKSPACE"@, "MODULE.bazel"@],
            _ => Seq::empty(),
        },
{
}

/// The markers of providers are those of each, one after the other.
pub proof fn every_provider_adds_its_markers(providers: Seq<AnyProvider>, p: AnyProvider)
    ensures
        marks_of(Seq::empty()) == Seq::<Seq<char>>::empty(),
        marks_of(providers.push(p)) == marks_of(providers) + p.marks(),
{
    assert(providers.push(p).drop_last() =~= providers);
}

/// There is a provider for every ecosystem, and each of them counts to the one that it is of.
pub proof fn these_providers_are_known(p: AnyProvider)
    ensures
        every_provider().contains(p) == !(p is LocalModels || p is LocalAiTools),
        (p is NodeCaches || p is NodeModules) == (p.group() == Group::Node),
        (p is PythonCaches || p is PythonProjects) == (p.group() == Group::Python),
        (p is RustCaches || p is RustTargets) == (p.group() == Group::Rust),
        (p is JvmCaches || p is JvmProjects) == (p.group() == Group::Jvm),
        p is GoCaches == (p.group() == Group::Go),
        (p is XcodeArtifacts || p is SimulatorRuntimes || p is CocoaPods) == (p.group()
            == Group::Apple),
        (p is AndroidSdk || p is AndroidAvds) == (p.group() == Group::Android),
        (p is Docker || p is ContainerVms) == (p.group() == Group::Containers),
        p is DotNet == (p.group() == Group::DotNet),
        p is Ruby == (p.group() == Group::Ruby),
        p is Php == (p.group() == Group::Php),
        p is Dart == (p.group() == Group::Dart),
        p is BuildTools == (p.group() == Group::BuildTools),
        p is Editors == (p.group() == Group::Editors),
        p is System == (p.group() == Group::System),
        (p is MachineLearning || p is LocalModels || p is LocalAiTools) == (p.group()
            == Group::Ml),
{
    let all = every_provider();
    assert(all.len() == 24);
    assert(all[0] is NodeCaches && all[1] is NodeModules && all[2] is PythonCaches);
    assert(all[3] is PythonProjects && all[4] is RustCaches && all[5] is RustTargets);
    assert(all[6] is JvmCaches && all[7] is JvmProjects && all[8] is GoCaches);
    assert(all[9] is XcodeArtifacts && all[10] is SimulatorRuntimes && all[11] is CocoaPods);
    assert(all[12] is AndroidSdk && all[13] is AndroidAvds && all[14] is Docker);
    assert(all[15] is ContainerVms && all[16] is DotNet && all[17] is Ruby && all[18] is Php);
    assert(all[19] is Dart && all[20] is BuildTools && all[21] is Editors && all[22] is System);
    assert(all[23] is MachineLearning);
}

} // verus!
