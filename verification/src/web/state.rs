//! Server state and the auth token.
use vstd::prelude::*;
use vstd::string::*;
use vstd::utf8::encode_utf8_decode_utf8;
use crate::config::{Config, expanded_all};
use crate::journal::{Journal, is_lower_hex};
use crate::model::{Candidate, CandidateId, CandidateModel};
use crate::path::join;
use crate::pipeline::{ScanResult, an_id_finds_its_candidate, first_with_id};
use crate::platform::{Paths, Variable};
use crate::providers::{AnyProvider, all, every_provider};
use crate::safety::{GuardModel, PathGuard, guard_of};
use crate::text::{Dup, views};

verus! {

broadcast use crate::text::lemma_views_push;

/// A random per-process token. Every request for data must present it.
///
/// It is there to stop the ordinary failure: a web page in another tab that discovers a local port
/// which deletes files if asked nicely.
#[derive(Debug, Clone)]
pub struct Token(String);

impl View for Token {
    type V = Seq<char>;

    closed spec fn view(&self) -> Seq<char> {
        self.0@
    }
}

/// The shape of a token: the 32 hexadecimal digits of a random identifier of version 4.
pub open spec fn is_token(s: Seq<char>) -> bool {
    &&& s.len() == 32
    &&& forall|i: int| 0 <= i < 32 ==> is_lower_hex(#[trigger] s[i])
    &&& s[12] == '4'
    &&& s[16] == '8' || s[16] == '9' || s[16] == 'a' || s[16] == 'b'
}

/// `uuid::Uuid::simple` spells a random identifier without hyphens. The contract states the shape
/// of its text and nothing of its digits, which are left to chance.
#[verifier::external_body]
fn random_digits() -> (digits: String)
    ensures
        is_token(digits@),
{
    uuid::Uuid::new_v4().simple().to_string()
}

impl Token {
    /// A new token.
    pub fn generate() -> (token: Self)
        ensures
            is_token(token@),
    {
        Token(random_digits())
    }

    pub fn as_str(&self) -> (s: &str)
        ensures
            s@ == self@,
    {
        self.0.as_str()
    }

    /// Whether a text is the token. The comparison takes as long for any text of the token's
    /// length, so that a token cannot be recovered from response timings.
    pub fn matches(&self, candidate: &str) -> (r: bool)
        ensures
            r == (candidate@ == self@),
    {
        let own = self.0.as_str().as_bytes();
        let given = candidate.as_bytes();
        let mut same_bytes = false;
        if given.len() == own.len() {
            let mut difference: u8 = 0;
            let mut i: usize = 0;
            while i < own.len()
                invariant
                    i <= own@.len(),
                    given@.len() == own@.len(),
                    (difference == 0) == (forall|k: int| 0 <= k < i ==> own@[k] == given@[k]),
                decreases own@.len() - i,
            {
                let a: u8 = own[i];
                let b: u8 = given[i];
                let ghost before = difference;
                difference = difference | (a ^ b);
                assert((before | (a ^ b) == 0) == (before == 0 && a == b)) by (bit_vector);
                i += 1;
            }
            same_bytes = difference == 0;
        }
        proof {
            if same_bytes {
                assert(own@ =~= given@);
            }
            encode_utf8_decode_utf8(self@);
            encode_utf8_decode_utf8(candidate@);
        }
        same_bytes
    }
}

/// State shared by all requests.
pub struct ServerState {
    pub paths: Paths,
    pub config: Config,
    pub token: Token,
    pub guard: PathGuard,
    pub journal: Journal,
    pub providers: Vec<AnyProvider>,
    /// The most recent scan, so that a cleanup acts on measured candidates rather than on sizes
    /// that a client names.
    pub last_scan: Option<ScanResult>,
    pub dev: bool,
}

/// Everything the last scan discovered.
pub open spec fn known(scan: Option<ScanResult>) -> Seq<CandidateModel> {
    match scan {
        Some(result) => views(result.all@),
        None => Seq::empty(),
    }
}

/// The candidates of the given ids, those that there are.
pub open spec fn resolved(all: Seq<CandidateModel>, ids: Seq<Seq<char>>) -> Seq<CandidateModel>
    decreases ids.len(),
{
    if ids.len() == 0 {
        Seq::empty()
    } else {
        let before = resolved(all, ids.drop_last());
        match first_with_id(all, ids.last()) {
            Some(c) => before.push(c),
            None => before,
        }
    }
}

impl ServerState {
    pub fn new(paths: Paths, config: Config, env: &Vec<Variable>, dev: bool) -> (state: Self)
        ensures
            state.paths == paths,
            state.config == config,
            is_token(state.token@),
            state.guard@ == (GuardModel {
                protected: guard_of(paths@).protected + expanded_all(
                    paths@.home,
                    views(config.delete.protected_paths@),
                    views(env@),
                ),
                ..guard_of(paths@)
            }),
            state.journal@ == join(paths@.state_dir, "reclaim/history"@),
            state.providers@ == every_provider(),
            state.last_scan is None,
            state.dev == dev,
    {
        let guard = PathGuard::new(&paths).protect(
            config.resolved_protected_paths(&paths, env),
        );
        let journal = Journal::new(paths.journal_dir().as_str());
        ServerState {
            token: Token::generate(),
            guard,
            journal,
            providers: all(),
            last_scan: None,
            paths,
            config,
            dev,
        }
    }

    /// Keep the result of a scan.
    pub fn store_scan(&mut self, result: ScanResult)
        ensures
            *final(self) == (ServerState { last_scan: Some(result), ..*old(self) }),
    {
        self.last_scan = Some(result);
    }

    /// Look up candidates of the last scan by id.
    ///
    /// A client sends ids, never paths or sizes: accepting a path would let any request that
    /// clears authentication name an arbitrary target.
    pub fn candidates_by_id(&self, ids: &Vec<String>) -> (out: Vec<Candidate>)
        ensures
            views(out@) == resolved(known(self.last_scan), views(ids@)),
    {
        let ghost all = views(ids@);
        let mut out: Vec<Candidate> = Vec::new();
        let mut i: usize = 0;
        assert(views(out@) =~= resolved(known(self.last_scan), all.take(0)));
        while i < ids.len()
            invariant
                i <= ids@.len(),
                all == views(ids@),
                views(out@) == resolved(known(self.last_scan), all.take(i as int)),
            decreases ids@.len() - i,
        {
            assert(all.take(i + 1).drop_last() =~= all.take(i as int));
            assert(all.take(i + 1).last() == ids@[i as int]@);
            if let Some(result) = &self.last_scan {
                let id = CandidateId(ids[i].clone());
                if let Some(candidate) = result.find(&id) {
                    out.push(candidate.dup());
                }
            }
            i += 1;
        }
        assert(all.take(all.len() as int) =~= all);
        out
    }
}

proof fn lemma_first_with_id(all: Seq<CandidateModel>, id: Seq<char>)
    ensures
        first_with_id(all, id) matches Some(c) ==> all.contains(c) && c.id == id,
    decreases all.len(),
{
    if all.len() > 0 && all[0].id != id {
        lemma_first_with_id(all.skip(1), id);
        if let Some(c) = first_with_id(all, id) {
            let k = choose|k: int| 0 <= k < all.skip(1).len() && all.skip(1)[k] == c;
            assert(all[k + 1] == c);
        }
    }
}

/// A client can name nothing but what the last scan discovered. Before a scan, that is nothing.
pub proof fn clients_name_only_what_was_scanned(
    scan: Option<ScanResult>,
    ids: Seq<Seq<char>>,
    c: CandidateModel,
)
    requires
        resolved(known(scan), ids).contains(c),
    ensures
        scan is Some,
        known(scan).contains(c),
        ids.contains(c.id),
    decreases ids.len(),
{
    let all = known(scan);
    if ids.len() > 0 {
        let fewer = ids.drop_last();
        let before = resolved(all, fewer);
        let after = resolved(all, ids);
        let k = choose|k: int| 0 <= k < after.len() && after[k] == c;
        if k < before.len() {
            assert(before[k] == c);
            clients_name_only_what_was_scanned(scan, fewer, c);
            let i = choose|i: int| 0 <= i < fewer.len() && fewer[i] == c.id;
            assert(ids[i] == c.id);
        } else {
            lemma_first_with_id(all, ids.last());
            assert(ids[ids.len() - 1] == c.id);
        }
    }
}

/// What a client names is looked up in the last scan, id by id: each id that is known gives its
/// candidate, in the order of the ids, and the others give nothing.
pub proof fn every_known_id_is_looked_up(all: Seq<CandidateModel>, ids: Seq<Seq<char>>)
    ensures
        resolved(all, ids) == ids.filter(
            |id: Seq<char>|
                exists|i: int| 0 <= i < all.len() && (#[trigger] all[i]).id == id,
        ).map_values(|id: Seq<char>| first_with_id(all, id)->0),
        forall|k: int|
            0 <= k < resolved(all, ids).len() ==> all.contains(#[trigger] resolved(all, ids)[k])
                && ids.contains(resolved(all, ids)[k].id),
    decreases ids.len(),
{
    let is_known = |id: Seq<char>|
        exists|i: int| 0 <= i < all.len() && (#[trigger] all[i]).id == id;
    let found = |id: Seq<char>| first_with_id(all, id)->0;
    reveal(Seq::filter);
    if ids.len() > 0 {
        let fewer = ids.drop_last();
        let last = ids.last();
        every_known_id_is_looked_up(all, fewer);
        an_id_finds_its_candidate(all, last);
        lemma_first_with_id(all, last);
        let before = fewer.filter(is_known);
        assert(before.push(last).map_values(found) =~= before.map_values(found).push(found(last)));
        assert forall|k: int| 0 <= k < resolved(all, ids).len() implies all.contains(
            #[trigger] resolved(all, ids)[k],
        ) && ids.contains(resolved(all, ids)[k].id) by {
            if k < resolved(all, fewer).len() {
                let c = resolved(all, fewer)[k];
                assert(fewer.contains(c.id));
                let i = choose|i: int| 0 <= i < fewer.len() && fewer[i] == c.id;
                assert(ids[i] == c.id);
            } else {
                assert(ids[ids.len() - 1] == last);
            }
        }
    } else {
        assert(ids.filter(is_known).map_values(found) =~= Seq::empty());
    }
}

} // verus!
