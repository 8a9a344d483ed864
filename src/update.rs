//! Governance of the settings: leaders propose parameter changes, vote on
//! them, and proposals with a majority are adopted at the next block boundary.
use vstd::prelude::*;
use crate::block::BlockDate;
use crate::config::{config_params_bytes, ConfigParam, ConfigParams};
use crate::crypto::{blake2b_256, blake2b_of, digest_of, lemma_digest_of, ed25519_accepts, ed25519_verify, push_bytes, Digest, PublicKey, Signature};
use crate::keymap::{Dup, KeyMap};
use crate::setting::{self, apply_params, contains_key, Settings, SettingsModel};

verus! {

pub type UpdateProposalId = Digest;

pub type LeaderId = PublicKey;

#[derive(Clone, Debug, PartialEq, Eq)]
pub struct UpdateProposal {
    pub changes: ConfigParams,
}

#[derive(Clone, Debug, PartialEq, Eq)]
pub struct UpdateProposalWithProposer {
    pub proposal: UpdateProposal,
    pub proposer_id: LeaderId,
}

#[derive(Clone, Debug, PartialEq, Eq)]
pub struct SignedUpdateProposal {
    pub proposal: UpdateProposalWithProposer,
    pub signature: Signature,
}

#[derive(Clone, Copy, Debug, PartialEq, Eq)]
pub struct UpdateVote {
    pub proposal_id: UpdateProposalId,
    pub voter_id: LeaderId,
}

#[derive(Clone, Copy, Debug, PartialEq, Eq)]
pub struct SignedUpdateVote {
    pub vote: UpdateVote,
    pub signature: Signature,
}

#[derive(Clone, Copy, Debug, PartialEq, Eq, Structural)]
pub enum Error {
    ProposalAlreadyPresent,
    ProposalIdMismatch,
    ProposerNotALeader,
    BadProposalSignature,
    NoSuchProposal,
    ProposalExpired,
    VoterNotALeader,
    BadVoteSignature,
    AlreadyVoted,
    Setting(setting::Error),
}

/// The bytes a proposer signs: the changes, then the proposer's key.
pub open spec fn proposal_bytes(changes: Seq<ConfigParam>, proposer: LeaderId) -> Seq<u8> {
    config_params_bytes(changes) + proposer@
}

/// The bytes a signed proposal is identified by.
pub open spec fn signed_proposal_bytes(changes: Seq<ConfigParam>, proposer: LeaderId, sig: Signature) -> Seq<u8> {
    proposal_bytes(changes, proposer) + sig@
}

/// The bytes a voter signs: the proposal id, then the voter's key.
pub open spec fn vote_bytes(v: UpdateVote) -> Seq<u8> {
    v.proposal_id@ + v.voter_id@
}

impl SignedUpdateProposal {
    fn signed_bytes(&self) -> (r: Vec<u8>)
        ensures
            r@ == proposal_bytes(self.proposal.proposal.changes@, self.proposal.proposer_id),
    {
        let mut out = self.proposal.proposal.changes.serialize();
        push_bytes(&mut out, &self.proposal.proposer_id);
        out
    }

    /// The proposal's identifier: the digest of its bytes.
    pub fn id(&self) -> (r: UpdateProposalId)
        ensures
            r@ == blake2b_of(
                signed_proposal_bytes(self.proposal.proposal.changes@, self.proposal.proposer_id, self.signature),
            ),
            r == digest_of(
                signed_proposal_bytes(self.proposal.proposal.changes@, self.proposal.proposer_id, self.signature),
            ),
    {
        let mut out = self.signed_bytes();
        push_bytes(&mut out, &self.signature);
        let r = blake2b_256(&out);
        proof {
            lemma_digest_of(
                r,
                signed_proposal_bytes(self.proposal.proposal.changes@, self.proposal.proposer_id, self.signature),
            );
        }
        r
    }
}

/// Identifiers ordered lexicographically, byte by byte.
pub open spec fn digest_lt(a: Digest, b: Digest) -> bool {
    exists|i: int| 0 <= i < 32 && (forall|k: int| 0 <= k < i ==> a[k] == b[k]) && #[trigger] a[i] < b[i]
}

pub proof fn lemma_digest_lt_transitive(a: Digest, b: Digest, c: Digest)
    requires
        digest_lt(a, b),
        digest_lt(b, c),
    ensures
        digest_lt(a, c),
{
    let i = choose|i: int| 0 <= i < 32 && (forall|k: int| 0 <= k < i ==> a[k] == b[k]) && #[trigger] a[i] < b[i];
    let j = choose|j: int| 0 <= j < 32 && (forall|k: int| 0 <= k < j ==> b[k] == c[k]) && #[trigger] b[j] < c[j];
    if i <= j {
        assert(forall|k: int| 0 <= k < i ==> a[k] == c[k]);
        assert(a[i] < c[i]);
    } else {
        assert(forall|k: int| 0 <= k < j ==> a[k] == c[k]);
        assert(a[j] < c[j]);
    }
}

proof fn lemma_digest_lt_total_from(a: Digest, b: Digest, n: int)
    requires
        0 <= n <= 32,
        forall|k: int| 0 <= k < n ==> a[k] == b[k],
        a != b,
    ensures
        digest_lt(a, b) || digest_lt(b, a),
    decreases 32 - n,
{
    broadcast use vstd::array::group_array_axioms;
    if n == 32 {
        assert(a =~= b);
    } else if a[n] < b[n] {
        assert(digest_lt(a, b));
    } else if b[n] < a[n] {
        assert(digest_lt(b, a));
    } else {
        lemma_digest_lt_total_from(a, b, n + 1);
    }
}

pub proof fn lemma_digest_lt_total(a: Digest, b: Digest)
    requires
        a != b,
    ensures
        digest_lt(a, b) || digest_lt(b, a),
{
    lemma_digest_lt_total_from(a, b, 0);
}

/// Whether `a` comes strictly before `b`.
pub fn digest_less(a: &Digest, b: &Digest) -> (r: bool)
    ensures
        r == digest_lt(*a, *b),
{
    let mut i: usize = 0;
    while i < 32
        invariant
            0 <= i <= 32,
            forall|k: int| 0 <= k < i ==> a[k] == b[k],
        decreases 32 - i,
    {
        if a[i] < b[i] {
            assert(a[i as int] < b[i as int]);
            return true;
        }
        if a[i] > b[i] {
            proof {
                if digest_lt(*a, *b) {
                    let j = choose|j: int| 0 <= j < 32 && (forall|k: int| 0 <= k < j ==> a[k] == b[k]) && #[trigger] a[j] < b[j];
                    if j > i {
                        assert(a[i as int] == b[i as int]);
                    }
                }
            }
            return false;
        }
        i += 1;
    }
    false
}

/// A proposal awaiting adoption.
#[derive(Clone, Debug, PartialEq, Eq)]
pub struct ProposalState {
    pub changes: ConfigParams,
    pub proposal_date: BlockDate,
    pub votes: Vec<LeaderId>,
}

pub struct ProposalStateModel {
    pub changes: Seq<ConfigParam>,
    pub proposal_date: BlockDate,
    pub votes: Seq<LeaderId>,
}

impl View for ProposalState {
    type V = ProposalStateModel;

    open spec fn view(&self) -> ProposalStateModel {
        ProposalStateModel { changes: self.changes@, proposal_date: self.proposal_date, votes: self.votes@ }
    }
}

impl Dup for ProposalState {
    fn dup(&self) -> (r: Self) {
        ProposalState {
            changes: self.changes.dup(),
            proposal_date: self.proposal_date,
            votes: crate::stake::copy_keys(&self.votes),
        }
    }
}

/// A strict majority of the current leaders voted for the proposal.
pub open spec fn has_majority(p: ProposalStateModel, s: SettingsModel) -> bool {
    2 * p.votes.len() > s.bft_leaders.len()
}

/// The proposal has outlived the expiration window at `date`.
pub open spec fn is_expired(p: ProposalStateModel, s: SettingsModel, date: BlockDate) -> bool {
    p.proposal_date.epoch + s.proposal_expiration < date.epoch
}

/// The proposals that stay, and the settings, after the boundary at `date`:
/// in order, a proposal with a majority is adopted, then an expired one is
/// dropped, and any other stays.
pub open spec fn process(entries: Seq<(UpdateProposalId, ProposalStateModel)>, s: SettingsModel, date: BlockDate) -> Result<
    (Seq<(UpdateProposalId, ProposalStateModel)>, SettingsModel),
    setting::Error,
>
    decreases entries.len(),
{
    if entries.len() == 0 {
        Ok((Seq::empty(), s))
    } else {
        match process(entries.drop_last(), s, date) {
            Err(e) => Err(e),
            Ok((kept, s2)) => {
                let p = entries.last().1;
                if has_majority(p, s2) {
                    match apply_params(s2, p.changes) {
                        Err(e) => Err(e),
                        Ok(s3) => Ok((kept, s3)),
                    }
                } else if is_expired(p, s2, date) {
                    Ok((kept, s2))
                } else {
                    Ok((kept.push(entries.last()), s2))
                }
            },
        }
    }
}

pub open spec fn model_entries(m: KeyMap<UpdateProposalId, ProposalState>) -> Seq<(UpdateProposalId, ProposalStateModel)> {
    m.seq().map_values(|e: (UpdateProposalId, ProposalState)| (e.0, e.1@))
}

pub open spec fn sorted_ids(s: Seq<(UpdateProposalId, ProposalStateModel)>) -> bool {
    forall|i: int, j: int| 0 <= i < j < s.len() ==> digest_lt(s[i].0, s[j].0)
}

/// The proposals after recording `p` under `proposal_id` at `cur_date`.
pub open spec fn proposal_result(
    u: Map<UpdateProposalId, ProposalStateModel>,
    proposal_id: UpdateProposalId,
    p: SignedUpdateProposal,
    leaders: Seq<LeaderId>,
    cur_date: BlockDate,
) -> Result<Map<UpdateProposalId, ProposalStateModel>, Error> {
    let changes = p.proposal.proposal.changes@;
    let proposer = p.proposal.proposer_id;
    if !leaders.contains(proposer) {
        Err(Error::ProposerNotALeader)
    } else if !ed25519_accepts(proposal_bytes(changes, proposer), proposer@, p.signature@) {
        Err(Error::BadProposalSignature)
    } else if proposal_id@ != blake2b_of(signed_proposal_bytes(changes, proposer, p.signature)) {
        Err(Error::ProposalIdMismatch)
    } else if u.contains_key(proposal_id) {
        Err(Error::ProposalAlreadyPresent)
    } else {
        Ok(u.insert(proposal_id, ProposalStateModel { changes, proposal_date: cur_date, votes: Seq::empty() }))
    }
}

/// The proposals after recording `vote` at `cur_date`.
pub open spec fn vote_result(
    u: Map<UpdateProposalId, ProposalStateModel>,
    vote: SignedUpdateVote,
    s: SettingsModel,
    cur_date: BlockDate,
) -> Result<Map<UpdateProposalId, ProposalStateModel>, Error> {
    let v = vote.vote;
    if !s.bft_leaders.contains(v.voter_id) {
        Err(Error::VoterNotALeader)
    } else if !ed25519_accepts(vote_bytes(v), v.voter_id@, vote.signature@) {
        Err(Error::BadVoteSignature)
    } else if !u.contains_key(v.proposal_id) {
        Err(Error::NoSuchProposal)
    } else if is_expired(u[v.proposal_id], s, cur_date) {
        Err(Error::ProposalExpired)
    } else if u[v.proposal_id].votes.contains(v.voter_id) {
        Err(Error::AlreadyVoted)
    } else {
        Ok(u.insert(v.proposal_id, ProposalStateModel { votes: u[v.proposal_id].votes.push(v.voter_id), ..u[v.proposal_id] }))
    }
}

/// The map a list of entries with distinct keys stands for.
pub open spec fn entries_map(s: Seq<(UpdateProposalId, ProposalStateModel)>) -> Map<UpdateProposalId, ProposalStateModel> {
    Map::new(
        |k: UpdateProposalId| exists|i: int| 0 <= i < s.len() && s[i].0 == k,
        |k: UpdateProposalId| s[choose|i: int| 0 <= i < s.len() && s[i].0 == k].1,
    )
}

#[derive(Clone, Debug)]
pub struct UpdateState {
    pub proposals: KeyMap<UpdateProposalId, ProposalState>,
}

impl UpdateState {
    /// Proposals are held in increasing order of identifier.
    pub open spec fn wf(&self) -> bool {
        &&& self.proposals.wf()
        &&& sorted_ids(model_entries(self.proposals))
    }

    pub open spec fn view(&self) -> Map<UpdateProposalId, ProposalStateModel> {
        self.proposals@
    }

    pub fn new() -> (r: Self)
        ensures
            r.wf(),
            r@ == Map::<UpdateProposalId, ProposalStateModel>::empty(),
            model_entries(r.proposals).len() == 0,
    {
        UpdateState { proposals: KeyMap::new() }
    }

    pub fn dup(&self) -> (r: Self)
        requires
            self.wf(),
        ensures
            r.wf(),
            r@ == self@,
            model_entries(r.proposals) == model_entries(self.proposals),
    {
        let r = UpdateState { proposals: self.proposals.dup() };
        assert(model_entries(r.proposals) =~= model_entries(self.proposals));
        r
    }

    /// Records a new proposal made at `cur_date`.
    pub fn apply_proposal(
        self,
        proposal_id: UpdateProposalId,
        proposal: &SignedUpdateProposal,
        settings: &Settings,
        cur_date: BlockDate,
    ) -> (r: Result<Self, Error>)
        requires
            self.wf(),
        ensures
            proposal_result(self@, proposal_id, *proposal, settings.bft_leaders@, cur_date) matches Err(e) ==> r
                == Err::<Self, Error>(e),
            proposal_result(self@, proposal_id, *proposal, settings.bft_leaders@, cur_date) matches Ok(m) ==> (r matches Ok(
                u,
            ) && u.wf() && u@ == m),
    {
        let proposer = &proposal.proposal.proposer_id;
        if !contains_key(&settings.bft_leaders, proposer) {
            return Err(Error::ProposerNotALeader);
        }
        let data = proposal.signed_bytes();
        if !ed25519_verify(&data, proposer, &proposal.signature) {
            return Err(Error::BadProposalSignature);
        }
        let expected = proposal.id();
        if !crate::keymap::KeyEq::key_eq(&expected, &proposal_id) {
            proof {
                if proposal_id@ == expected@ {
                    broadcast use vstd::array::group_array_axioms;
                    assert(proposal_id =~= expected);
                }
            }
            return Err(Error::ProposalIdMismatch);
        }
        if self.proposals.contains_key(&proposal_id) {
            return Err(Error::ProposalAlreadyPresent);
        }
        let n = self.proposals.len();
        let mut p: usize = 0;
        while p < n
            invariant
                0 <= p <= n,
                n == self.proposals.seq().len(),
                forall|i: int| 0 <= i < p ==> !digest_lt(proposal_id, #[trigger] self.proposals.seq()[i].0),
            ensures
                0 <= p <= n,
                forall|i: int| 0 <= i < p ==> !digest_lt(proposal_id, #[trigger] self.proposals.seq()[i].0),
                p < n ==> digest_lt(proposal_id, self.proposals.seq()[p as int].0),
            decreases n - p,
        {
            if digest_less(&proposal_id, &self.proposals.entry(p).0) {
                break;
            }
            p += 1;
        }
        let state = ProposalState {
            changes: proposal.proposal.proposal.changes.dup(),
            proposal_date: cur_date,
            votes: Vec::new(),
        };
        let ghost pre = self;
        let mut u = self;
        u.proposals.insert_at(p, proposal_id, state);
        proof {
            let o = model_entries(pre.proposals);
            assert forall|q: int| 0 <= q < p implies digest_lt(#[trigger] o[q].0, proposal_id) by {
                pre.proposals.lemma_entry(q);
                assert(o[q].0 == pre.proposals.seq()[q].0);
                lemma_digest_lt_total(o[q].0, proposal_id);
            }
            assert forall|q: int| p <= q < o.len() implies digest_lt(proposal_id, #[trigger] o[q].0) by {
                assert(o[p as int].0 == pre.proposals.seq()[p as int].0);
                if q > p {
                    lemma_digest_lt_transitive(proposal_id, o[p as int].0, o[q].0);
                }
            }
            assert(model_entries(u.proposals) =~= o.insert(p as int, (proposal_id, state@)));
            lemma_sorted_insert(o, p as int, proposal_id, state@);
        }
        Ok(u)
    }

    /// Records a leader's vote for a pending proposal.
    pub fn apply_vote(self, vote: &SignedUpdateVote, settings: &Settings, cur_date: BlockDate) -> (r: Result<Self, Error>)
        requires
            self.wf(),
        ensures
            vote_result(self@, *vote, settings@, cur_date) matches Err(e) ==> r == Err::<Self, Error>(e),
            vote_result(self@, *vote, settings@, cur_date) matches Ok(m) ==> (r matches Ok(u) && u.wf() && u@ == m),
    {
        let v = &vote.vote;
        if !contains_key(&settings.bft_leaders, &v.voter_id) {
            return Err(Error::VoterNotALeader);
        }
        let mut data: Vec<u8> = Vec::new();
        push_bytes(&mut data, &v.proposal_id);
        push_bytes(&mut data, &v.voter_id);
        if !ed25519_verify(&data, &v.voter_id, &vote.signature) {
            return Err(Error::BadVoteSignature);
        }
        let i = match self.proposals.find(&v.proposal_id) {
            None => {
                return Err(Error::NoSuchProposal);
            },
            Some(i) => i,
        };
        let st = self.proposals.entry(i).1.dup();
        if (st.proposal_date.epoch as u64 + settings.proposal_expiration as u64) < (cur_date.epoch as u64) {
            return Err(Error::ProposalExpired);
        }
        if contains_key(&st.votes, &v.voter_id) {
            return Err(Error::AlreadyVoted);
        }
        let mut st2 = st;
        st2.votes.push(v.voter_id);
        let ghost pre = self;
        let mut u = self;
        u.proposals.set_at(i, st2);
        proof {
            let s = model_entries(u.proposals);
            let o = model_entries(pre.proposals);
            assert forall|a: int, b: int| 0 <= a < b < s.len() implies digest_lt(s[a].0, s[b].0) by {
                assert(s[a].0 == o[a].0);
                assert(s[b].0 == o[b].0);
            }
        }
        Ok(u)
    }

    /// Adopts and expires proposals at the boundary between a block at
    /// `prev_date` and one at `new_date`.
    pub fn process_proposals(self, settings: Settings, prev_date: BlockDate, new_date: BlockDate) -> (r: Result<
        (Self, Settings),
        Error,
    >)
        requires
            self.wf(),
        ensures
            process(model_entries(self.proposals), settings@, new_date) matches Err(e) ==> r == Err::<(Self, Settings), Error>(
                Error::Setting(e),
            ),
            process(model_entries(self.proposals), settings@, new_date) matches Ok((kept, s)) ==> (r matches Ok((u, s2))
                && u.wf() && model_entries(u.proposals) == kept && s2@ == s),
    {
        let ghost entries = model_entries(self.proposals);
        let n = self.proposals.len();
        let mut kept: KeyMap<UpdateProposalId, ProposalState> = KeyMap::new();
        let mut s = settings;
        let mut i: usize = 0;
        proof {
            assert(entries.subrange(0, 0) =~= Seq::<(UpdateProposalId, ProposalStateModel)>::empty());
            assert(model_entries(kept) =~= Seq::<(UpdateProposalId, ProposalStateModel)>::empty());
        }
        while i < n
            invariant
                0 <= i <= n,
                n == self.proposals.seq().len(),
                entries == model_entries(self.proposals),
                self.wf(),
                kept.wf(),
                sorted_ids(model_entries(kept)),
                i < n ==> forall|j: int| 0 <= j < model_entries(kept).len() ==> digest_lt(
                    #[trigger] model_entries(kept)[j].0,
                    entries[i as int].0,
                ),
                process(entries.subrange(0, i as int), settings@, new_date) == Ok::<
                    (Seq<(UpdateProposalId, ProposalStateModel)>, SettingsModel),
                    setting::Error,
                >((model_entries(kept), s@)),
            decreases n - i,
        {
            proof {
                assert(entries.subrange(0, i + 1).drop_last() == entries.subrange(0, i as int));
                assert(entries.subrange(0, i + 1).last() == entries[i as int]);
            }
            let e = self.proposals.entry(i);
            let st = &e.1;
            let ghost km = model_entries(kept);
            if 2 * (st.votes.len() as u128) > (s.bft_leaders.len() as u128) {
                match s.apply(&st.changes) {
                    Ok(s3) => {
                        s = s3;
                    },
                    Err(err) => {
                        proof {
                            lemma_process_err(entries, settings@, new_date, i as int + 1);
                        }
                        return Err(Error::Setting(err));
                    },
                }
            } else if (st.proposal_date.epoch as u64 + s.proposal_expiration as u64) < (new_date.epoch as u64) {
            } else {
                proof {
                    if kept@.contains_key(e.0) {
                        let j = kept.index_of(e.0);
                        assert(model_entries(kept)[j].0 == e.0);
                        assert(digest_lt(e.0, e.0));
                    }
                }
                kept.insert_new(e.0, st.dup());
                proof {
                    let s2 = model_entries(kept);
                    assert(s2 =~= km.push(entries[i as int]));
                }
            }
            proof {
                if i + 1 < n {
                    let nk = model_entries(kept);
                    assert(digest_lt(entries[i as int].0, entries[i + 1].0));
                    assert forall|j: int| 0 <= j < nk.len() implies digest_lt(#[trigger] nk[j].0, entries[i + 1].0) by {
                        if j < km.len() {
                            assert(nk[j].0 == km[j].0);
                            lemma_digest_lt_transitive(nk[j].0, entries[i as int].0, entries[i + 1].0);
                        }
                    }
                }
            }
            i += 1;
        }
        proof {
            assert(entries.subrange(0, n as int) == entries);
        }
        Ok((UpdateState { proposals: kept }, s))
    }
}

/// Inserting an identifier at its place keeps the identifiers sorted.
pub proof fn lemma_sorted_insert(
    o: Seq<(UpdateProposalId, ProposalStateModel)>,
    p: int,
    id: UpdateProposalId,
    st: ProposalStateModel,
)
    requires
        sorted_ids(o),
        0 <= p <= o.len(),
        forall|q: int| 0 <= q < p ==> digest_lt(#[trigger] o[q].0, id),
        forall|q: int| p <= q < o.len() ==> digest_lt(id, #[trigger] o[q].0),
    ensures
        sorted_ids(o.insert(p, (id, st))),
{
    let s = o.insert(p, (id, st));
    assert forall|i: int, j: int| 0 <= i < j < s.len() implies digest_lt(s[i].0, s[j].0) by {
        if j < p {
            assert(s[i] == o[i] && s[j] == o[j]);
        } else if j == p {
            assert(s[i] == o[i]);
        } else if i < p {
            assert(s[i] == o[i] && s[j] == o[j - 1]);
        } else if i == p {
            assert(s[j] == o[j - 1]);
        } else {
            assert(s[i] == o[i - 1] && s[j] == o[j - 1]);
        }
    }
}

/// The proposals' map is the one their ordered entries stand for.
pub proof fn lemma_view_entries(u: UpdateState)
    requires
        u.wf(),
    ensures
        u@ == entries_map(model_entries(u.proposals)),
{
    let s = model_entries(u.proposals);
    assert forall|k: UpdateProposalId| u@.contains_key(k) <==> entries_map(s).contains_key(k) by {
        if u@.contains_key(k) {
            let i = u.proposals.index_of(k);
            assert(s[i].0 == k);
        }
        if entries_map(s).contains_key(k) {
            let i = choose|i: int| 0 <= i < s.len() && s[i].0 == k;
            assert(u.proposals.seq()[i].0 == k);
        }
    }
    assert forall|k: UpdateProposalId| u@.contains_key(k) implies u@[k] == entries_map(s)[k] by {
        let j = choose|i: int| 0 <= i < s.len() && s[i].0 == k;
        assert(u.proposals.seq()[j].0 == k);
        u.proposals.lemma_entry(j);
    }
    assert(u@ =~= entries_map(s));
}

/// Two lists of entries in increasing order of identifier that stand for the
/// same map are the same list.
pub proof fn lemma_sorted_entries_unique(
    s1: Seq<(UpdateProposalId, ProposalStateModel)>,
    s2: Seq<(UpdateProposalId, ProposalStateModel)>,
)
    requires
        sorted_ids(s1),
        sorted_ids(s2),
        entries_map(s1) == entries_map(s2),
    ensures
        s1 == s2,
    decreases s1.len() + s2.len(),
{
    let m = entries_map(s1);
    if s1.len() == 0 {
        if s2.len() > 0 {
            assert(entries_map(s2).contains_key(s2[0].0));
        }
        assert(s1 =~= s2);
    } else if s2.len() == 0 {
        assert(entries_map(s1).contains_key(s1[0].0));
    } else {
        let n1 = s1.len() - 1;
        let n2 = s2.len() - 1;
        let k1 = s1[n1].0;
        let k2 = s2[n2].0;
        assert(m.contains_key(k1));
        assert(m.contains_key(k2));
        let j = choose|j: int| 0 <= j < s2.len() && s2[j].0 == k1;
        let i = choose|i: int| 0 <= i < s1.len() && s1[i].0 == k2;
        if j < n2 {
            assert(digest_lt(k1, k2));
            if i < n1 {
                assert(digest_lt(k2, k1));
                lemma_digest_lt_transitive(k1, k2, k1);
            }
        }
        if i < n1 {
            assert(digest_lt(k2, k1));
            if j < n2 {
                lemma_digest_lt_transitive(k1, k2, k1);
            }
        }
        assert(k1 == k2);
        lemma_entries_map_at(s1, n1);
        lemma_entries_map_at(s2, n2);
        let t1 = s1.drop_last();
        let t2 = s2.drop_last();
        lemma_entries_map_drop_last(s1);
        lemma_entries_map_drop_last(s2);
        lemma_sorted_entries_unique(t1, t2);
        assert(s1 =~= t1.push(s1[n1]));
        assert(s2 =~= t2.push(s2[n2]));
    }
}

/// In a list in increasing order of identifier, the entry at `i` gives its
/// identifier's value in the map the list stands for.
proof fn lemma_entries_map_at(s: Seq<(UpdateProposalId, ProposalStateModel)>, i: int)
    requires
        sorted_ids(s),
        0 <= i < s.len(),
    ensures
        entries_map(s).contains_key(s[i].0),
        entries_map(s)[s[i].0] == s[i].1,
{
    let k = s[i].0;
    assert(exists|x: int| 0 <= x < s.len() && s[x].0 == k);
    let j = choose|x: int| 0 <= x < s.len() && s[x].0 == k;
    if j != i {
        if j < i {
            assert(digest_lt(s[j].0, s[i].0));
        } else {
            assert(digest_lt(s[i].0, s[j].0));
        }
    }
}

/// Dropping the last entry of a sorted list drops its identifier from the map.
proof fn lemma_entries_map_drop_last(s: Seq<(UpdateProposalId, ProposalStateModel)>)
    requires
        sorted_ids(s),
        s.len() > 0,
    ensures
        sorted_ids(s.drop_last()),
        entries_map(s.drop_last()) == entries_map(s).remove(s.last().0),
{
    let t = s.drop_last();
    let k = s.last().0;
    assert forall|q: UpdateProposalId| entries_map(t).contains_key(q) <==> (entries_map(s).contains_key(q) && q != k) by {
        if entries_map(t).contains_key(q) {
            let j = choose|x: int| 0 <= x < t.len() && t[x].0 == q;
            assert(s[j].0 == q);
            assert(digest_lt(s[j].0, k));
        }
        if entries_map(s).contains_key(q) && q != k {
            let j = choose|x: int| 0 <= x < s.len() && s[x].0 == q;
            assert(j != s.len() - 1);
            assert(t[j].0 == q);
        }
    }
    assert forall|q: UpdateProposalId| entries_map(t).contains_key(q) implies entries_map(t)[q] == entries_map(s)[q] by {
        let j = choose|x: int| 0 <= x < t.len() && t[x].0 == q;
        assert(s[j] == t[j]);
        lemma_entries_map_at(t, j);
        lemma_entries_map_at(s, j);
    }
    assert(entries_map(t) =~= entries_map(s).remove(k));
}

pub proof fn lemma_process_err(
    entries: Seq<(UpdateProposalId, ProposalStateModel)>,
    s: SettingsModel,
    date: BlockDate,
    i: int,
)
    requires
        0 <= i <= entries.len(),
        process(entries.subrange(0, i), s, date) is Err,
    ensures
        process(entries, s, date) == process(entries.subrange(0, i), s, date),
    decreases entries.len() - i,
{
    if i < entries.len() {
        assert(entries.subrange(0, i + 1).drop_last() == entries.subrange(0, i));
        lemma_process_err(entries, s, date, i + 1);
    } else {
        assert(entries.subrange(0, i) == entries);
    }
}

} // verus!
