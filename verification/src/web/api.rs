//! What the HTTP routes decide and answer.
use vstd::prelude::*;
use vstd::string::*;
use crate::config::Config;
use crate::exec::CleanOptions;
use crate::format::parse_bytes_spec;
use crate::journal::{
    Disposition, ItemOutcome, OutcomeModel, RunRecord, Trigger, failed_items, freed_by,
    trashed_by,
};
use crate::model::{
    Candidate, CandidateModel, Group, Kind, Severity, Size, Tier, Warning, WarningModel, age_phrase,
    humanize_age,
};
use crate::pipeline::{Provider, ScanResult, filter_from_config, hidden_among};
use crate::platform::{Paths, contracted};
use crate::providers::all;
use crate::staleness::{Filter, FilterModel, total_freed};
use crate::text::{
    Dup, chars_of, dup_option, has_prefix, lemma_one_piece, option_text, pieces, slice_text,
    split_text, starts_with, views,
};
use crate::cli::render::{age_text, is_report_order, reportable};
use crate::web::state::{ServerState, Token, known, resolved};

verus! {

broadcast use crate::text::lemma_views_push;

/// A refusal or failure, with its HTTP status.
#[derive(Debug)]
pub struct ApiError {
    pub status: u16,
    pub message: String,
}

impl View for ApiError {
    type V = (u16, Seq<char>);

    open spec fn view(&self) -> (u16, Seq<char>) {
        (self.status, self.message@)
    }
}

/// No or a wrong token.
pub open spec fn unauthorized_error() -> (u16, Seq<char>) {
    (401, "missing or invalid token; open the URL printed by `reclaim ui`"@)
}

impl ApiError {
    pub fn unauthorized() -> (e: Self)
        ensures
            e@ == unauthorized_error(),
    {
        ApiError {
            status: 401,
            message: "missing or invalid token; open the URL printed by `reclaim ui`".to_owned(),
        }
    }

    pub fn forbidden(message: &str) -> (e: Self)
        ensures
            e@ == (403u16, message@),
    {
        ApiError { status: 403, message: message.to_owned() }
    }

    pub fn bad_request(message: &str) -> (e: Self)
        ensures
            e@ == (400u16, message@),
    {
        ApiError { status: 400, message: message.to_owned() }
    }

    pub fn internal(message: &str) -> (e: Self)
        ensures
            e@ == (500u16, message@),
    {
        ApiError { status: 500, message: message.to_owned() }
    }
}

/// An origin on this machine.
pub open spec fn is_loopback(origin: Seq<char>) -> bool {
    has_prefix(origin, "http://127.0.0.1:"@) || has_prefix(origin, "http://localhost:"@)
        || has_prefix(origin, "http://[::1]:"@)
}

/// A request presents the token, in its header or in its query.
pub open spec fn presents(
    token: Seq<char>,
    header: Option<Seq<char>>,
    query: Option<Seq<char>>,
) -> bool {
    header == Some(token) || (match query {
        Some(q) => pieces(q, '&').contains("t="@ + token),
        None => false,
    })
}

/// The error that a request is refused with, if any.
pub open spec fn refusal(
    token: Seq<char>,
    origin: Option<Seq<char>>,
    header: Option<Seq<char>>,
    query: Option<Seq<char>>,
) -> Option<(u16, Seq<char>)> {
    if origin is Some && !is_loopback(origin->0) {
        Some((403, "requests must originate from localhost"@))
    } else if !presents(token, header, query) {
        Some(unauthorized_error())
    } else {
        None
    }
}

/// The view of a text that may be missing.
pub open spec fn option_str(text: Option<&str>) -> Option<Seq<char>> {
    match text {
        Some(s) => Some(s@),
        None => None,
    }
}

/// The parameter's value is the token. The parameter exists for event streams, which cannot set
/// headers.
fn query_presents(token: &Token, query: &str) -> (r: bool)
    ensures
        r == pieces(query@, '&').contains("t="@ + token@),
{
    let pairs = split_text(query, '&');
    let ghost all = views(pairs@);
    let wanted = "t=".to_owned().concat(token.as_str());
    let mut i: usize = 0;
    while i < pairs.len()
        invariant
            i <= pairs@.len(),
            all == views(pairs@),
            all == pieces(query@, '&'),
            wanted@ == "t="@ + token@,
            forall|k: int| 0 <= k < i ==> #[trigger] all[k] != wanted@,
        decreases pairs@.len() - i,
    {
        assert(all[i as int] == pairs@[i as int]@);
        let chars = chars_of(pairs[i].as_str());
        let total: usize = chars.len();
        if starts_with(pairs[i].as_str(), "t=") {
            proof {
                reveal_strlit("t=");
                assert(chars@.take(2) =~= "t="@);
            }
            let value = slice_text(&chars, 2, total);
            assert(chars@ =~= "t="@ + value@);
            if token.matches(value.as_str()) {
                assert(all[i as int] == wanted@);
                assert(all.contains(wanted@));
                return true;
            }
            assert(all[i as int] != wanted@) by {
                if all[i as int] == wanted@ {
                    assert(value@ =~= wanted@.skip(2));
                    assert(token@ =~= wanted@.skip(2)) by {
                        reveal_strlit("t=");
                    }
                }
            }
        } else {
            assert(all[i as int] != wanted@) by {
                assert(wanted@.take("t="@.len() as int) =~= "t="@);
            }
        }
        i += 1;
    }
    false
}

/// Whether a request presents the token.
pub fn token_present(token: &Token, header: Option<&str>, query: Option<&str>) -> (r: bool)
    ensures
        r == presents(token@, option_str(header), option_str(query)),
{
    if let Some(text) = header {
        if token.matches(text) {
            return true;
        }
    }
    match query {
        Some(q) => query_presents(token, q),
        None => false,
    }
}

/// Refuse anything that does not present the token, or that comes from another site. Requests of
/// the UI itself carry a loopback origin or none at all.
pub fn authenticate(
    token: &Token,
    origin: Option<&str>,
    header: Option<&str>,
    query: Option<&str>,
) -> (r: Result<(), ApiError>)
    ensures
        match (
            r,
            refusal(token@, option_str(origin), option_str(header), option_str(query)),
        ) {
            (Ok(_), None) => true,
            (Err(e), Some(expected)) => e@ == expected,
            _ => false,
        },
{
    if let Some(text) = origin {
        let loopback = starts_with(text, "http://127.0.0.1:") || starts_with(
            text,
            "http://localhost:",
        ) || starts_with(text, "http://[::1]:");
        if !loopback {
            return Err(ApiError::forbidden("requests must originate from localhost"));
        }
    }
    if !token_present(token, header, query) {
        return Err(ApiError::unauthorized());
    }
    Ok(())
}

/// A warning as the frontend shows it.
#[derive(Debug)]
pub struct WarningView {
    pub severity: String,
    pub message: String,
}

impl View for WarningView {
    type V = (Seq<char>, Seq<char>);

    open spec fn view(&self) -> (Seq<char>, Seq<char>) {
        (self.severity@, self.message@)
    }
}

/// The name of a severity.
pub open spec fn severity_name(severity: Severity) -> Seq<char> {
    match severity {
        Severity::Info => "info"@,
        Severity::Caution => "caution"@,
        Severity::Danger => "danger"@,
    }
}

fn name_severity(severity: Severity) -> (s: &'static str)
    ensures
        s@ == severity_name(severity),
{
    match severity {
        Severity::Info => "info",
        Severity::Caution => "caution",
        Severity::Danger => "danger",
    }
}

/// The name of a kind.
pub open spec fn kind_name(kind: Kind) -> Seq<char> {
    match kind {
        Kind::GlobalCache => "globalcache"@,
        Kind::ProjectArtifact => "projectartifact"@,
        Kind::Runtime => "runtime"@,
        Kind::Command => "command"@,
    }
}

fn name_kind(kind: Kind) -> (s: &'static str)
    ensures
        s@ == kind_name(kind),
{
    match kind {
        Kind::GlobalCache => "globalcache",
        Kind::ProjectArtifact => "projectartifact",
        Kind::Runtime => "runtime",
        Kind::Command => "command",
    }
}

/// The name of what became of an item.
pub open spec fn disposition_name(disposition: Disposition) -> Seq<char> {
    match disposition {
        Disposition::Purged => "purged"@,
        Disposition::Trashed => "trashed"@,
        Disposition::CommandRun => "commandrun"@,
        Disposition::DryRun => "dryrun"@,
        Disposition::Failed => "failed"@,
        Disposition::Skipped => "skipped"@,
    }
}

fn name_disposition(disposition: Disposition) -> (s: &'static str)
    ensures
        s@ == disposition_name(disposition),
{
    match disposition {
        Disposition::Purged => "purged",
        Disposition::Trashed => "trashed",
        Disposition::CommandRun => "commandrun",
        Disposition::DryRun => "dryrun",
        Disposition::Failed => "failed",
        Disposition::Skipped => "skipped",
    }
}

/// The candidate as the frontend consumes it.
///
/// It carries the humanised texts, so that a browser never has to derive them again and drift from
/// the command line.
#[derive(Debug)]
pub struct CandidateView {
    pub id: String,
    pub provider: String,
    pub group: String,
    pub group_title: String,
    pub label: String,
    pub detail: String,
    pub paths: Vec<String>,
    pub tier: String,
    pub kind: String,
    pub on_disk: u64,
    pub shared: u64,
    pub files: u64,
    pub partial: bool,
    pub last_used_days: Option<u32>,
    pub last_used_human: String,
    pub active_now: bool,
    /// The bits of the score.
    pub score: u64,
    pub regen: String,
    pub warnings: Vec<WarningView>,
}

/// The size of a candidate, none where it is not measured.
pub open spec fn size_or_none(c: CandidateModel) -> Size {
    match c.size {
        Some(size) => size,
        None => Size::zero(),
    }
}

/// The paths relative to the home directory.
pub open spec fn short_paths(paths: Seq<Seq<char>>, home: Seq<char>) -> Seq<Seq<char>> {
    Seq::new(paths.len(), |i: int| contracted(home, paths[i]))
}

/// The warnings as the frontend shows them.
pub open spec fn warning_views(warnings: Seq<WarningModel>) -> Seq<(Seq<char>, Seq<char>)> {
    Seq::new(
        warnings.len(),
        |i: int| (severity_name(warnings[i].severity), warnings[i].message),
    )
}

impl CandidateView {
    /// It shows that candidate.
    pub open spec fn depicts(&self, c: CandidateModel, home: Seq<char>) -> bool {
        let size = size_or_none(c);
        &&& self.id@ == c.id
        &&& self.provider@ == c.provider
        &&& self.group@ == c.group.name()
        &&& self.group_title@ == c.group.heading()
        &&& self.label@ == c.label
        &&& self.detail@ == c.detail
        &&& views(self.paths@) == short_paths(c.paths, home)
        &&& self.tier@ == c.tier.name()
        &&& self.kind@ == kind_name(c.kind)
        &&& self.on_disk == size.on_disk
        &&& self.shared == size.shared
        &&& self.files == size.files
        &&& self.partial == size.partial
        &&& self.last_used_days == c.age()
        &&& self.last_used_human@ == age_text(c)
        &&& self.active_now == c.active()
        &&& self.score == match c.score {
            Some(bits) => bits,
            None => 0,
        }
        &&& self.regen@ == c.regen.phrase()
        &&& views(self.warnings@) == warning_views(c.warnings)
    }

    pub fn from(candidate: &Candidate, paths: &Paths) -> (v: Self)
        ensures
            v.depicts(candidate@, paths@.home),
    {
        let size = match candidate.size {
            Some(size) => size,
            None => Size::default(),
        };
        let last_used_days = candidate.last_used_days();
        CandidateView {
            id: candidate.id.0.clone(),
            provider: candidate.provider.clone(),
            group: candidate.group.as_str().to_owned(),
            group_title: candidate.group.title().to_owned(),
            label: candidate.label.clone(),
            detail: candidate.detail.clone(),
            paths: shorten_paths(&candidate.paths, paths),
            tier: candidate.tier.as_str().to_owned(),
            kind: name_kind(candidate.kind).to_owned(),
            on_disk: size.on_disk,
            shared: size.shared,
            files: size.files,
            partial: size.partial,
            last_used_days,
            last_used_human: match last_used_days {
                Some(days) => humanize_age(days),
                None => "unknown".to_owned(),
            },
            active_now: match &candidate.signals {
                Some(signals) => signals.active_now,
                None => false,
            },
            score: match candidate.score {
                Some(bits) => bits,
                None => 0,
            },
            regen: candidate.regen.summary(),
            warnings: view_warnings(&candidate.warnings),
        }
    }
}

fn shorten_paths(list: &Vec<String>, paths: &Paths) -> (out: Vec<String>)
    ensures
        views(out@) == short_paths(views(list@), paths@.home),
{
    let ghost all = short_paths(views(list@), paths@.home);
    let mut out: Vec<String> = Vec::new();
    let mut i: usize = 0;
    while i < list.len()
        invariant
            i <= list@.len(),
            all == short_paths(views(list@), paths@.home),
            out@.len() == i,
            forall|k: int| 0 <= k < i ==> (#[trigger] out@[k])@ == all[k],
        decreases list@.len() - i,
    {
        assert(views(list@)[i as int] == list@[i as int]@);
        out.push(paths.contract(list[i].as_str()));
        i += 1;
    }
    assert(views(out@) =~= all);
    out
}

fn view_warnings(warnings: &Vec<Warning>) -> (out: Vec<WarningView>)
    ensures
        views(out@) == warning_views(views(warnings@)),
{
    let ghost all = warning_views(views(warnings@));
    let mut out: Vec<WarningView> = Vec::new();
    let mut i: usize = 0;
    while i < warnings.len()
        invariant
            i <= warnings@.len(),
            all == warning_views(views(warnings@)),
            out@.len() == i,
            forall|k: int| 0 <= k < i ==> (#[trigger] out@[k])@ == all[k],
        decreases warnings@.len() - i,
    {
        assert(views(warnings@)[i as int] == warnings@[i as int]@);
        out.push(
            WarningView {
                severity: name_severity(warnings[i].severity).to_owned(),
                message: warnings[i].message.clone(),
            },
        );
        i += 1;
    }
    assert(views(out@) =~= all);
    out
}

/// The views depict the candidates, one by one.
pub open spec fn depicts_all(
    shown: Seq<CandidateView>,
    cs: Seq<CandidateModel>,
    home: Seq<char>,
) -> bool {
    &&& shown.len() == cs.len()
    &&& forall|i: int| 0 <= i < cs.len() ==> (#[trigger] shown[i]).depicts(cs[i], home)
}

fn view_all(candidates: &Vec<Candidate>, paths: &Paths) -> (out: Vec<CandidateView>)
    ensures
        depicts_all(out@, views(candidates@), paths@.home),
{
    let mut out: Vec<CandidateView> = Vec::new();
    let mut i: usize = 0;
    while i < candidates.len()
        invariant
            i <= candidates@.len(),
            out@.len() == i,
            forall|k: int|
                0 <= k < i ==> (#[trigger] out@[k]).depicts(
                    views(candidates@)[k],
                    paths@.home,
                ),
        decreases candidates@.len() - i,
    {
        assert(views(candidates@)[i as int] == candidates@[i as int]@);
        out.push(CandidateView::from(&candidates[i], paths));
        i += 1;
    }
    out
}

/// The candidates of the last scan, none before a scan has run.
pub fn candidates(state: &ServerState) -> (out: Vec<CandidateView>)
    ensures
        match state.last_scan {
            Some(result) => depicts_all(
                out@,
                views(result.candidates@),
                state.paths@.home,
            ),
            None => out@.len() == 0,
        },
{
    match &state.last_scan {
        Some(result) => view_all(&result.candidates, &state.paths),
        None => Vec::new(),
    }
}

/// The filter of a scan. Reporting always shows what is in use: it is ranked near the bottom and
/// flagged, but never hidden.
pub fn scan_filter(config: &Config, all: bool) -> (f: Filter)
    ensures
        f@ == (FilterModel {
            min_size: if all {
                0
            } else {
                match parse_bytes_spec(config.thresholds.min_size@) {
                    Ok(n) => n as u64,
                    Err(_) => 0,
                }
            },
            include_active: true,
            ..FilterModel::open_filter()
        }),
{
    let configured = filter_from_config(config);
    let mut f = Filter::default();
    f.min_size = if all {
        0
    } else {
        configured.min_size
    };
    f.include_active = true;
    f
}

/// The total of a group.
#[derive(Debug)]
pub struct GroupTotal {
    pub group: String,
    pub title: String,
    pub on_disk: u64,
}

impl View for GroupTotal {
    type V = (Seq<char>, Seq<char>, u64);

    open spec fn view(&self) -> (Seq<char>, Seq<char>, u64) {
        (self.group@, self.title@, self.on_disk)
    }
}

/// The totals of groups, as the frontend shows them.
pub open spec fn group_views(totals: Seq<(Group, Size)>) -> Seq<(Seq<char>, Seq<char>, u64)> {
    Seq::new(
        totals.len(),
        |i: int| (totals[i].0.name(), totals[i].0.heading(), totals[i].1.on_disk),
    )
}

/// The answer to a scan.
#[derive(Debug)]
pub struct ScanResponse {
    pub total_reclaimable: u64,
    pub projects_scanned: usize,
    pub elapsed_ms: u64,
    pub unreadable: usize,
    pub hidden_count: usize,
    pub hidden_bytes: u64,
    pub groups: Vec<GroupTotal>,
    pub candidates: Vec<CandidateView>,
}

impl ScanResponse {
    /// It answers with that result.
    pub open spec fn tells(&self, result: ScanResult, home: Seq<char>) -> bool {
        let cs = views(result.candidates@);
        let hidden = hidden_among(views(result.all@), cs);
        &&& self.total_reclaimable == total_freed(cs)
        &&& self.projects_scanned == result.projects_scanned
        &&& self.elapsed_ms == result.elapsed_ms
        &&& self.unreadable == result.unreadable@.len()
        &&& self.hidden_count == hidden.len()
        &&& self.hidden_bytes == total_freed(hidden)
        &&& exists|totals: Seq<(Group, Size)>| #[trigger]
            is_report_order(result, totals) && views(self.groups@) == group_views(totals)
        &&& depicts_all(self.candidates@, cs, home)
    }
}

/// The answer to a scan.
pub fn scan_response(result: &ScanResult, paths: &Paths) -> (r: ScanResponse)
    requires
        reportable(*result),
    ensures
        r.tells(*result, paths@.home),
{
    let (hidden_count, hidden_bytes) = result.hidden();
    let totals = result.by_group();
    let mut groups: Vec<GroupTotal> = Vec::new();
    let mut i: usize = 0;
    while i < totals.len()
        invariant
            i <= totals@.len(),
            groups@.len() == i,
            forall|k: int| 0 <= k < i ==> (#[trigger] groups@[k])@ == group_views(totals@)[k],
        decreases totals@.len() - i,
    {
        let (group, size) = totals[i];
        groups.push(
            GroupTotal {
                group: group.as_str().to_owned(),
                title: group.title().to_owned(),
                on_disk: size.on_disk,
            },
        );
        i += 1;
    }
    proof {
        assert(views(groups@) =~= group_views(totals@));
        assert(is_report_order(*result, totals@));
    }
    ScanResponse {
        total_reclaimable: result.total_reclaimable(),
        projects_scanned: result.projects_scanned,
        elapsed_ms: result.elapsed_ms,
        unreadable: result.unreadable.len(),
        hidden_count,
        hidden_bytes,
        groups,
        candidates: view_all(&result.candidates, paths),
    }
}

/// A request to clean.
#[derive(Debug)]
pub struct CleanRequest {
    pub ids: Vec<String>,
    /// On unless a client says otherwise.
    pub dry_run: bool,
    /// Explicit acknowledgement of caution-tier items. Without it they are skipped.
    pub confirm_caution: bool,
}

/// An item of a cleanup as the frontend shows it.
#[derive(Debug)]
pub struct CleanItemView {
    pub id: String,
    pub label: String,
    pub disposition: String,
    pub freed_bytes: u64,
    pub error: Option<String>,
}

pub struct CleanItemModel {
    pub id: Seq<char>,
    pub label: Seq<char>,
    pub disposition: Seq<char>,
    pub freed_bytes: u64,
    pub error: Option<Seq<char>>,
}

impl View for CleanItemView {
    type V = CleanItemModel;

    open spec fn view(&self) -> CleanItemModel {
        CleanItemModel {
            id: self.id@,
            label: self.label@,
            disposition: self.disposition@,
            freed_bytes: self.freed_bytes,
            error: option_text(self.error),
        }
    }
}

/// The items of a run, as the frontend shows them.
pub open spec fn item_views(items: Seq<OutcomeModel>) -> Seq<CleanItemModel> {
    Seq::new(
        items.len(),
        |i: int|
            CleanItemModel {
                id: items[i].id,
                label: items[i].label,
                disposition: disposition_name(items[i].disposition),
                freed_bytes: items[i].freed_bytes,
                error: items[i].error,
            },
    )
}

/// The answer to a request to clean.
#[derive(Debug)]
pub struct CleanResponse {
    pub dry_run: bool,
    pub bytes_freed: u64,
    pub bytes_trashed: u64,
    pub succeeded: bool,
    pub summary: String,
    pub skipped_caution: usize,
    pub items: Vec<CleanItemView>,
}

/// What a request leads to.
#[derive(Debug)]
pub enum CleanDecision {
    /// These are to be cleaned, and that many were skipped.
    Clean { chosen: Vec<Candidate>, skipped_caution: usize },
    /// There is nothing to do.
    Answer(CleanResponse),
}

/// The candidates that are not of the caution tier.
pub open spec fn without_caution(cs: Seq<CandidateModel>) -> Seq<CandidateModel>
    decreases cs.len(),
{
    if cs.len() == 0 {
        Seq::empty()
    } else if cs.last().tier == Tier::Caution {
        without_caution(cs.drop_last())
    } else {
        without_caution(cs.drop_last()).push(cs.last())
    }
}

proof fn lemma_without_caution(cs: Seq<CandidateModel>)
    ensures
        without_caution(cs).len() <= cs.len(),
    decreases cs.len(),
{
    if cs.len() > 0 {
        lemma_without_caution(cs.drop_last());
    }
}

fn drop_caution(candidates: &Vec<Candidate>) -> (out: Vec<Candidate>)
    ensures
        views(out@) == without_caution(views(candidates@)),
{
    let ghost all = views(candidates@);
    let mut out: Vec<Candidate> = Vec::new();
    let mut i: usize = 0;
    assert(views(out@) =~= without_caution(all.take(0)));
    while i < candidates.len()
        invariant
            i <= candidates@.len(),
            all == views(candidates@),
            views(out@) == without_caution(all.take(i as int)),
        decreases candidates@.len() - i,
    {
        assert(all.take(i + 1).drop_last() =~= all.take(i as int));
        assert(all.take(i + 1).last() == candidates@[i as int]@);
        if candidates[i].tier != Tier::Caution {
            out.push(candidates[i].dup());
        }
        i += 1;
    }
    assert(all.take(all.len() as int) =~= all);
    out
}

/// What a request may clean: without an acknowledgement, nothing of the caution tier.
pub open spec fn cleanable(
    found: Seq<CandidateModel>,
    must_confirm: bool,
    confirmed: bool,
) -> Seq<CandidateModel> {
    if must_confirm && !confirmed {
        without_caution(found)
    } else {
        found
    }
}

/// Decide what a request leads to. Ids are resolved against the last scan, so that a client can
/// name only what this process already measured and vetted.
pub fn decide_clean(state: &ServerState, request: &CleanRequest) -> (r: Result<
    CleanDecision,
    ApiError,
>)
    ensures
        ({
            let found = resolved(known(state.last_scan), views(request.ids@));
            let left = cleanable(
                found,
                state.config.delete.confirm_caution,
                request.confirm_caution,
            );
            if found.len() == 0 {
                r matches Err(e) && e@ == (
                    400u16,
                    "no matching candidates: run a scan first, then send ids from that scan"@,
                )
            } else if left.len() == 0 {
                r matches Ok(CleanDecision::Answer(a)) && {
                    &&& a.dry_run == request.dry_run
                    &&& a.bytes_freed == 0
                    &&& a.bytes_trashed == 0
                    &&& a.succeeded
                    &&& a.summary@
                        == "nothing to do: all selected items need explicit confirmation"@
                    &&& a.skipped_caution == found.len()
                    &&& a.items@.len() == 0
                }
            } else {
                r matches Ok(CleanDecision::Clean { chosen, skipped_caution }) && views(chosen@)
                    == left && skipped_caution == found.len() - left.len()
            }
        }),
{
    let found = state.candidates_by_id(&request.ids);
    let before: usize = found.len();
    assert(before == views(found@).len());
    if before == 0 {
        return Err(
            ApiError::bad_request(
                "no matching candidates: run a scan first, then send ids from that scan",
            ),
        );
    }
    proof {
        lemma_without_caution(views(found@));
    }
    let chosen = if state.config.delete.confirm_caution && !request.confirm_caution {
        drop_caution(&found)
    } else {
        found
    };
    let left: usize = chosen.len();
    assert(left == views(chosen@).len());
    let skipped_caution: usize = before - left;
    if left == 0 {
        return Ok(
            CleanDecision::Answer(
                CleanResponse {
                    dry_run: request.dry_run,
                    bytes_freed: 0,
                    bytes_trashed: 0,
                    succeeded: true,
                    summary:
                        "nothing to do: all selected items need explicit confirmation".to_owned(),
                    skipped_caution,
                    items: Vec::new(),
                },
            ),
        );
    }
    Ok(CleanDecision::Clean { chosen, skipped_caution })
}

/// How a requested cleanup runs.
pub fn clean_options(config: &Config, request: &CleanRequest, threads: usize) -> (o: CleanOptions)
    ensures
        o == (CleanOptions {
            dry_run: request.dry_run,
            mode: config.delete.mode,
            trigger: Trigger::Web,
            concurrency: threads,
        }),
{
    CleanOptions {
        dry_run: request.dry_run,
        mode: config.delete.mode,
        trigger: Trigger::Web,
        concurrency: threads,
    }
}

fn view_items(items: &Vec<ItemOutcome>) -> (out: Vec<CleanItemView>)
    ensures
        views(out@) == item_views(views(items@)),
{
    let ghost all = item_views(views(items@));
    let mut out: Vec<CleanItemView> = Vec::new();
    let mut i: usize = 0;
    while i < items.len()
        invariant
            i <= items@.len(),
            all == item_views(views(items@)),
            out@.len() == i,
            forall|k: int| 0 <= k < i ==> (#[trigger] out@[k])@ == all[k],
        decreases items@.len() - i,
    {
        assert(views(items@)[i as int] == items@[i as int]@);
        out.push(
            CleanItemView {
                id: items[i].id.0.clone(),
                label: items[i].label.clone(),
                disposition: name_disposition(items[i].disposition).to_owned(),
                freed_bytes: items[i].freed_bytes,
                error: dup_option(&items[i].error),
            },
        );
        i += 1;
    }
    assert(views(out@) =~= all);
    out
}

/// The answer once a cleanup is done.
pub fn clean_response(record: &RunRecord, skipped_caution: usize) -> (r: CleanResponse)
    requires
        record@.sums_fit(),
    ensures
        r.dry_run == record@.dry_run,
        r.bytes_freed == freed_by(record@.items),
        r.bytes_trashed == trashed_by(record@.items),
        r.succeeded == (failed_items(record@.items).len() == 0),
        r.summary@ == record@.line(),
        r.skipped_caution == skipped_caution,
        views(r.items@) == item_views(record@.items),
{
    CleanResponse {
        dry_run: record.dry_run,
        bytes_freed: record.bytes_freed(),
        bytes_trashed: record.bytes_trashed(),
        succeeded: record.succeeded(),
        summary: record.summary(),
        skipped_caution,
        items: view_items(&record.items),
    }
}

/// A provider, and whether it is enabled.
#[derive(Debug)]
pub struct ProviderView {
    pub id: &'static str,
    pub enabled: bool,
}

impl View for ProviderView {
    type V = (Seq<char>, bool);

    open spec fn view(&self) -> (Seq<char>, bool) {
        (self.id@, self.enabled)
    }
}

/// Every provider, and whether it is enabled.
pub fn providers(state: &ServerState) -> (out: Vec<ProviderView>)
    ensures
        out@.len() == state.providers@.len(),
        forall|i: int|
            0 <= i < out@.len() ==> (#[trigger] out@[i])@ == (
                state.providers@[i].name(),
                state.config.providers.enables(state.providers@[i].name()),
            ),
{
    let mut out: Vec<ProviderView> = Vec::new();
    let mut i: usize = 0;
    while i < state.providers.len()
        invariant
            i <= state.providers@.len(),
            out@.len() == i,
            forall|k: int|
                0 <= k < i ==> (#[trigger] out@[k])@ == (
                    state.providers@[k].name(),
                    state.config.providers.enables(state.providers@[k].name()),
                ),
        decreases state.providers@.len() - i,
    {
        let id = state.providers[i].id();
        let enabled = state.config.providers.is_enabled(id);
        out.push(ProviderView { id, enabled });
        i += 1;
    }
    out
}

/// A request from another site is refused, whatever token it presents.
pub proof fn other_sites_are_refused(
    token: Seq<char>,
    origin: Seq<char>,
    header: Option<Seq<char>>,
    query: Option<Seq<char>>,
)
    requires
        !is_loopback(origin),
    ensures
        refusal(token, Some(origin), header, query) is Some,
{
}

/// A request without the token is refused, wherever it comes from.
pub proof fn a_token_is_asked_for(
    token: Seq<char>,
    origin: Option<Seq<char>>,
    header: Option<Seq<char>>,
    query: Option<Seq<char>>,
)
    requires
        !presents(token, header, query),
    ensures
        refusal(token, origin, header, query) is Some,
{
}

/// A token in the header is enough, and so is one in the query.
pub proof fn header_or_query_will_do(token: Seq<char>, header: Option<Seq<char>>)
    requires
        !token.contains('&'),
    ensures
        refusal(token, None, Some(token), None) is None,
        refusal(token, None, header, Some("t="@ + token)) is None,
{
    let query = "t="@ + token;
    reveal_strlit("t=");
    assert forall|i: int| 0 <= i < query.len() implies query[i] != '&' by {
        if i >= 2 {
            assert(query[i] == token[i - 2]);
        }
    }
    lemma_one_piece(query, '&');
    assert(pieces(query, '&')[0] == query);
}

/// Without an acknowledgement, no request cleans anything of the caution tier.
pub proof fn caution_takes_an_acknowledgement(found: Seq<CandidateModel>, c: CandidateModel)
    requires
        cleanable(found, true, false).contains(c),
    ensures
        found.contains(c),
        c.tier != Tier::Caution,
    decreases found.len(),
{
    if found.len() > 0 {
        let fewer = found.drop_last();
        let before = without_caution(fewer);
        let after = without_caution(found);
        let k = choose|k: int| 0 <= k < after.len() && after[k] == c;
        if found.last().tier == Tier::Caution || k < before.len() {
            assert(before[k] == c);
            caution_takes_an_acknowledgement(fewer, c);
            let i = choose|i: int| 0 <= i < fewer.len() && fewer[i] == c;
            assert(found[i] == c);
        } else {
            assert(found[found.len() - 1] == c);
        }
    }
}

/// A request is let in exactly where it does not come from another site and brings the token: in
/// its header, or as a parameter of its query. What comes from another site is forbidden, whatever
/// it brings, and what brings no token is not authorised.
pub proof fn a_request_brings_the_token(
    token: Seq<char>,
    origin: Option<Seq<char>>,
    header: Option<Seq<char>>,
    query: Option<Seq<char>>,
)
    ensures
        ({
            let local = origin is None || has_prefix(origin->0, "http://127.0.0.1:"@) || has_prefix(
                origin->0,
                "http://localhost:"@,
            ) || has_prefix(origin->0, "http://[::1]:"@);
            let brought = header == Some(token) || (query is Some && exists|i: int|
                0 <= i < pieces(query->0, '&').len() && #[trigger] pieces(query->0, '&')[i] == "t="@
                    + token);
            let answer = refusal(token, origin, header, query);
            &&& (answer is None) == (local && brought)
            &&& !local ==> answer == Some((403u16, "requests must originate from localhost"@))
            &&& local && !brought ==> answer == Some(unauthorized_error())
            &&& unauthorized_error().0 == 401
        }),
{
    if let Some(q) = query {
        let parts = pieces(q, '&');
        if parts.contains("t="@ + token) {
            let i = choose|i: int| 0 <= i < parts.len() && parts[i] == "t="@ + token;
            assert(parts[i] == "t="@ + token);
        }
    }
}

/// Where caution items are to be confirmed and were not, they are left out of what is cleaned and
/// nothing else is; otherwise nothing is.
pub proof fn only_unacknowledged_items_are_left_out(
    found: Seq<CandidateModel>,
    must_confirm: bool,
    confirmed: bool,
)
    ensures
        must_confirm && !confirmed ==> cleanable(found, must_confirm, confirmed) == found.filter(
            |c: CandidateModel| c.tier != Tier::Caution,
        ),
        !must_confirm || confirmed ==> cleanable(found, must_confirm, confirmed) == found,
{
    lemma_only_caution_dropped(found);
}

proof fn lemma_only_caution_dropped(cs: Seq<CandidateModel>)
    ensures
        without_caution(cs) == cs.filter(|c: CandidateModel| c.tier != Tier::Caution),
    decreases cs.len(),
{
    reveal(Seq::filter);
    if cs.len() > 0 {
        lemma_only_caution_dropped(cs.drop_last());
    } else {
        assert(without_caution(cs) =~= cs);
    }
}

/// These are the words of the interface.
pub proof fn these_words_are_sent()
    ensures
        severity_name(Severity::Info) == "info"@,
        severity_name(Severity::Caution) == "caution"@,
        severity_name(Severity::Danger) == "danger"@,
        kind_name(Kind::GlobalCache) == "globalcache"@,
        kind_name(Kind::ProjectArtifact) == "projectartifact"@,
        kind_name(Kind::Runtime) == "runtime"@,
        kind_name(Kind::Command) == "command"@,
        disposition_name(Disposition::Purged) == "purged"@,
        disposition_name(Disposition::Trashed) == "trashed"@,
        disposition_name(Disposition::CommandRun) == "commandrun"@,
        disposition_name(Disposition::DryRun) == "dryrun"@,
        disposition_name(Disposition::Failed) == "failed"@,
        disposition_name(Disposition::Skipped) == "skipped"@,
{
}

/// A view tells all of its candidate: what it is, every path, what it measures, how old it is, what
/// brings it back and every warning.
pub proof fn a_view_tells_its_candidate(v: CandidateView, c: CandidateModel, home: Seq<char>)
    requires
        v.depicts(c, home),
    ensures
        v.id@ == c.id && v.provider@ == c.provider && v.label@ == c.label && v.detail@ == c.detail,
        v.group@ == c.group.name() && v.group_title@ == c.group.heading(),
        v.tier@ == c.tier.name() && v.kind@ == kind_name(c.kind) && v.regen@ == c.regen.phrase(),
        views(v.paths@) == c.paths.map_values(|p: Seq<char>| contracted(home, p)),
        c.size is Some ==> v.on_disk == c.size->0.on_disk && v.shared == c.size->0.shared
            && v.files == c.size->0.files && v.partial == c.size->0.partial,
        c.size is None ==> v.on_disk == 0 && v.shared == 0 && v.files == 0 && !v.partial,
        v.last_used_days is Some == (c.signals is Some),
        c.signals is Some ==> v.last_used_days == Some(c.signals->0.last_used_days)
            && v.active_now == c.signals->0.active_now && v.last_used_human@ == age_phrase(
            c.signals->0.last_used_days as nat,
        ),
        c.signals is None ==> !v.active_now && v.last_used_human@ == "unknown"@,
        v.score == if c.score is Some {
            c.score->0
        } else {
            0
        },
        views(v.warnings@) == c.warnings.map_values(
            |w: WarningModel| (severity_name(w.severity), w.message),
        ),
{
    assert(views(v.paths@) =~= c.paths.map_values(|p: Seq<char>| contracted(home, p)));
    assert(views(v.warnings@) =~= c.warnings.map_values(
        |w: WarningModel| (severity_name(w.severity), w.message),
    ));
}

/// What is answered to a scan: the totals of what is shown and of what is hidden, and every
/// candidate that is shown, in order.
pub proof fn an_answer_tells_its_scan(r: ScanResponse, result: ScanResult, home: Seq<char>)
    requires
        r.tells(result, home),
    ensures
        r.candidates@.len() == result.candidates@.len(),
        forall|i: int|
            0 <= i < result.candidates@.len() ==> (#[trigger] r.candidates@[i]).depicts(
                result.candidates@[i]@,
                home,
            ),
        r.total_reclaimable == total_freed(views(result.candidates@)),
        r.hidden_count == hidden_among(views(result.all@), views(result.candidates@)).len(),
        r.hidden_bytes == total_freed(
            hidden_among(views(result.all@), views(result.candidates@)),
        ),
        r.projects_scanned == result.projects_scanned,
        r.elapsed_ms == result.elapsed_ms,
        r.unreadable == result.unreadable@.len(),
{
    assert forall|i: int| 0 <= i < result.candidates@.len() implies (
    #[trigger] r.candidates@[i]).depicts(result.candidates@[i]@, home) by {
        assert(views(result.candidates@)[i] == result.candidates@[i]@);
    }
}

/// Every item of a run is answered, in order and as it went.
pub proof fn every_item_is_answered(items: Seq<OutcomeModel>)
    ensures
        item_views(items) == items.map_values(
            |o: OutcomeModel|
                CleanItemModel {
                    id: o.id,
                    label: o.label,
                    disposition: disposition_name(o.disposition),
                    freed_bytes: o.freed_bytes,
                    error: o.error,
                },
        ),
{
    assert(item_views(items) =~= items.map_values(
        |o: OutcomeModel|
            CleanItemModel {
                id: o.id,
                label: o.label,
                disposition: disposition_name(o.disposition),
                freed_bytes: o.freed_bytes,
                error: o.error,
            },
    ));
}

} // verus!
