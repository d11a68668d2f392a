//! The operator-response ledger: an append-only sequence of committed
//! transactions per project, replayed into the current responses, and the
//! lifecycle operations that extend it. Relationships between claims are kept
//! per namespace.
use vstd::prelude::*;
use vstd::pervasive::unreached;
use crate::knowledge::error::KnowledgeError;
use crate::knowledge::claim::{identity_issue, issue_of, same_claim, ClaimIssue, KnowledgeClaim};
use crate::knowledge::model::{
    KnowledgeCategory, KnowledgeId, KnowledgeNamespace, Validity, KNOWLEDGE_SCHEMA_VERSION, KnowledgeRelationship, OperatorHistoryOperation,
    OperatorResponseHistoryEntry, RelationshipType, TransactionMutation,
};
use crate::knowledge::operator::{
    binding_inputs_valid, fingerprint_consistent, identifier_valid, identity_valid, opt_view,
    sequence_id_valid, OperatorIdentity,
    opt_id_view, padded6, same_response, NewOperatorResponse, OperatorResponse, OperatorResponseId,
    OperatorResponsePayload, OperatorTargetBinding, OperatorTargetClassification, OperatorTransactionId,
    ResponseAuditMetadata, ResponseLifecycle, OPERATOR_RESPONSE_SCHEMA_VERSION, RESPONSE_ID_PREFIX,
    TRANSACTION_ID_PREFIX,
};
use crate::order::SortKey;
use crate::text::{
    chars_of, char_is_control, concat2, has_control, is_control, owned, parse_u64, parse_u64_spec,
    push_str, str_eq,
};

verus! {

/// A project name safe to use as one path component.
pub open spec fn project_name_ok(name: Seq<char>) -> bool {
    &&& name.len() > 0
    &&& name != "."@
    &&& name != ".."@
    &&& forall|i: int| 0 <= i < name.len() ==> (#[trigger] name[i]) != '/' && name[i] != '\\' && !is_control(name[i])
}

pub fn validate_project_name(name: &str) -> (r: Result<(), KnowledgeError>)
    ensures
        r is Ok <==> project_name_ok(name@),
        r matches Err(e) ==> e matches KnowledgeError::InvalidProjectName(m) && m@ == name@,
{
    proof {
        reveal_strlit(".");
        reveal_strlit("..");
    }
    let c = chars_of(name);
    if c.len() == 0 || str_eq(name, ".") || str_eq(name, "..") {
        return Err(KnowledgeError::InvalidProjectName(owned(name)));
    }
    let mut i: usize = 0;
    while i < c.len()
        invariant
            i <= c@.len(),
            c@ == name@,
            forall|j: int| 0 <= j < i ==> (#[trigger] c@[j]) != '/' && c@[j] != '\\' && !is_control(c@[j]),
        decreases c@.len() - i,
    {
        if c[i] == '/' || c[i] == '\\' || char_is_control(c[i]) {
            return Err(KnowledgeError::InvalidProjectName(owned(name)));
        }
        i = i + 1;
    }
    Ok(())
}

/// The text after the last `-`, or the whole text.
pub open spec fn last_segment(s: Seq<char>) -> Seq<char>
    decreases s.len(),
{
    if s.len() == 0 {
        s
    } else if s.last() == '-' {
        Seq::empty()
    } else {
        last_segment(s.drop_last()).push(s.last())
    }
}

/// The positive sequence number that ends an identifier.
pub open spec fn sequence_of(id: Seq<char>) -> Option<u64> {
    match parse_u64_spec(last_segment(id)) {
        Some(v) => if v > 0 {
            Some(v)
        } else {
            None
        },
        None => None,
    }
}

pub fn parse_sequence(id: &str) -> (r: Result<u64, KnowledgeError>)
    ensures
        r is Ok <==> sequence_of(id@) is Some,
        r matches Ok(v) ==> sequence_of(id@) == Some(v),
        r matches Err(e) ==> e matches KnowledgeError::InvalidOperatorResponse(m) && m@
            == "identifier has no valid sequence: "@ + id@,
{
    let c = chars_of(id);
    let mut start: usize = c.len();
    assert(c@.take(c@.len() as int) =~= c@);
    assert(c@.skip(c@.len() as int) =~= Seq::<char>::empty());
    assert(last_segment(c@) =~= last_segment(c@.take(start as int)) + c@.skip(start as int));
    while start > 0 && c[start - 1] != '-'
        invariant
            start <= c@.len(),
            c@ == id@,
            last_segment(c@) == last_segment(c@.take(start as int)) + c@.skip(start as int),
        decreases start,
    {
        proof {
            let t = c@.take(start as int);
            assert(t.drop_last() =~= c@.take(start - 1));
            assert(c@.skip(start - 1) =~= seq![c@[start - 1]] + c@.skip(start as int));
            assert(last_segment(t) == last_segment(t.drop_last()).push(t.last()));
            assert(last_segment(t.drop_last()).push(t.last()) + c@.skip(start as int) =~= last_segment(
                c@.take(start - 1),
            ) + c@.skip(start - 1));
        }
        start = start - 1;
    }
    proof {
        let t = c@.take(start as int);
        if start > 0 {
            assert(last_segment(t) == Seq::<char>::empty());
        } else {
            assert(t.len() == 0);
        }
        assert(last_segment(c@) =~= c@.skip(start as int));
    }
    let mut seg: Vec<char> = Vec::new();
    let mut i: usize = start;
    while i < c.len()
        invariant
            start <= i <= c@.len(),
            seg@ == c@.subrange(start as int, i as int),
        decreases c@.len() - i,
    {
        seg.push(c[i]);
        i = i + 1;
        assert(seg@ =~= c@.subrange(start as int, i as int));
    }
    assert(seg@ =~= last_segment(c@));
    match parse_u64(seg.as_slice()) {
        Some(v) => if v > 0 {
            return Ok(v);
        },
        None => {},
    }
    Err(KnowledgeError::InvalidOperatorResponse(concat2("identifier has no valid sequence: ", id)))
}

/// Some response names `id` as the one it supersedes.
pub open spec fn superseded_in(responses: Seq<OperatorResponse>, id: Seq<char>) -> bool {
    exists|i: int| 0 <= i < responses.len() && opt_id_view((#[trigger] responses[i]).supersedes) == Some(id)
}

/// The active governing responses with the governing key, in order.
pub open spec fn governing_with_key(responses: Seq<OperatorResponse>, key: Seq<char>) -> Seq<OperatorResponse>
    decreases responses.len(),
{
    if responses.len() == 0 {
        Seq::empty()
    } else {
        let rest = governing_with_key(responses.drop_last(), key);
        let r = responses.last();
        if r.lifecycle == ResponseLifecycle::Active && !(r.payload is Annotation) && r.target.governing_key_spec() == key {
            rest.push(r)
        } else {
            rest
        }
    }
}

/// The rule of governance: annotations coexist and supersede nothing; a
/// governing response is the only active one of its key, or supersedes the
/// only one explicitly.
pub open spec fn governance_check(
    responses: Seq<OperatorResponse>,
    target: OperatorTargetBinding,
    payload: OperatorResponsePayload,
    supersedes: Option<OperatorResponseId>,
    r: Result<(), KnowledgeError>,
) -> bool {
    if payload is Annotation {
        if supersedes is Some {
            r matches Err(e) && e matches KnowledgeError::InvalidOperatorResponse(m) && m@
                == "annotations coexist and cannot supersede governing responses"@
        } else {
            r is Ok
        }
    } else {
        let active = governing_with_key(responses, target.governing_key_spec());
        if active.len() == 0 {
            match supersedes {
                None => r is Ok,
                Some(id) => r matches Err(e) && e matches KnowledgeError::InvalidResponseTransition(m) && m@
                    == "superseded response is not active for this target: "@ + id@,
            }
        } else if active.len() == 1 {
            if supersedes matches Some(id) && active[0].id@ == id@ {
                r is Ok
            } else {
                r matches Err(e) && e matches KnowledgeError::GoverningResponseConflict(m) && m@ == active[0].id@
            }
        } else {
            r matches Err(e) && e matches KnowledgeError::GoverningResponseConflict(m) && m@
                == target.governing_key_spec()
        }
    }
}

/// The responses referred to.
pub open spec fn deref_all(s: Seq<&OperatorResponse>) -> Seq<OperatorResponse> {
    s.map_values(|r: &OperatorResponse| *r)
}

/// Checks a response against the current, unsuperseded responses.
pub fn validate_governing_response(
    responses: &Vec<&OperatorResponse>,
    target: &OperatorTargetBinding,
    payload: &OperatorResponsePayload,
    supersedes: &Option<OperatorResponseId>,
) -> (r: Result<(), KnowledgeError>)
    ensures
        governance_check(deref_all(responses@), *target, *payload, *supersedes, r),
{
    let ghost rs = deref_all(responses@);
    if payload.is_annotation() {
        if supersedes.is_some() {
            return Err(
                KnowledgeError::InvalidOperatorResponse(
                    owned("annotations coexist and cannot supersede governing responses"),
                ),
            );
        }
        return Ok(());
    }
    let key = target.governing_key();
    let mut active: Vec<usize> = Vec::new();
    let mut i: usize = 0;
    while i < responses.len()
        invariant
            i <= rs.len(),
            rs == deref_all(responses@),
            rs.len() == responses@.len(),
            key@ == target.governing_key_spec(),
            active@.len() == governing_with_key(rs.take(i as int), key@).len(),
            forall|k: int| 0 <= k < active@.len() ==> (#[trigger] active@[k]) < i
                && rs[active@[k] as int] == governing_with_key(rs.take(i as int), key@)[k],
        decreases rs.len() - i,
    {
        let r = &responses[i];
        proof {
            let t = rs.take(i + 1);
            assert(t.drop_last() =~= rs.take(i as int));
            assert(t.last() == rs[i as int]);
        }
        if r.lifecycle == ResponseLifecycle::Active && r.payload.is_governing() && str_eq(
            r.target.governing_key(),
            key,
        ) {
            active.push(i);
        }
        i = i + 1;
    }
    assert(rs.take(rs.len() as int) =~= rs);
    if active.len() == 0 {
        match supersedes {
            None => Ok(()),
            Some(id) => Err(
                KnowledgeError::InvalidResponseTransition(
                    concat2("superseded response is not active for this target: ", id.as_str()),
                ),
            ),
        }
    } else if active.len() == 1 {
        let existing = &responses[active[0]];
        match supersedes {
            Some(id) => {
                if existing.id.same(id) {
                    return Ok(());
                }
            },
            None => {},
        }
        Err(KnowledgeError::GoverningResponseConflict(owned(existing.id.as_str())))
    } else {
        Err(KnowledgeError::GoverningResponseConflict(owned(key)))
    }
}

/// A governing response that passes the check is then the only active
/// governing response of its key, apart from the one it supersedes.
pub proof fn law_single_governing_response(
    responses: Seq<OperatorResponse>,
    target: OperatorTargetBinding,
    payload: OperatorResponsePayload,
    supersedes: Option<OperatorResponseId>,
)
    requires
        !(payload is Annotation),
        governance_check(responses, target, payload, supersedes, Ok(())),
    ensures
        governing_with_key(responses, target.governing_key_spec()).len() <= 1,
        governing_with_key(responses, target.governing_key_spec()).len() == 1 ==> (supersedes matches Some(id)
            && governing_with_key(responses, target.governing_key_spec())[0].id@ == id@),
{
}

/// One committed transaction: its manifest, its commit record, and for a put
/// the stored revision.
#[derive(Debug)]
pub struct CommittedTransaction {
    pub transaction_id: OperatorTransactionId,
    pub commit_transaction: OperatorTransactionId,
    pub project: String,
    pub sequence: u64,
    pub operation: OperatorHistoryOperation,
    pub mutation: TransactionMutation,
    pub expected_transaction: Option<OperatorTransactionId>,
    pub revision_transaction: Option<OperatorTransactionId>,
    pub revision: Option<OperatorResponse>,
}

/// The operator ledger of one project: committed transactions in commit
/// order and the last allocated sequence numbers.
#[derive(Debug)]
pub struct OperatorLedger {
    pub project: String,
    pub transactions: Vec<CommittedTransaction>,
    pub last_transaction: u64,
    pub last_response: u64,
}

/// Transactions apply in sequence order, then by identifier.
impl crate::order::SortKey for CommittedTransaction {
    open spec fn sort_key(&self) -> Seq<u32> {
        seq![(self.sequence / 0x100000000) as u32, (self.sequence % 0x100000000) as u32]
            + self.transaction_id.sort_key()
    }

    fn key(&self) -> (k: Vec<u32>) {
        let mut k = Vec::new();
        k.push((self.sequence / 0x100000000) as u32);
        k.push((self.sequence % 0x100000000) as u32);
        crate::order::append_key(&mut k, &self.transaction_id.key());
        assert(k@ =~= self.sort_key());
        k
    }
}

proof fn lemma_transaction_order(a: CommittedTransaction, b: CommittedTransaction)
    requires
        a.sequence < b.sequence,
    ensures
        !crate::order::key_lt(b.sort_key(), a.sort_key()),
{
    let ka = a.sort_key();
    let kb = b.sort_key();
    let ha = (a.sequence / 0x100000000) as u32;
    let la = (a.sequence % 0x100000000) as u32;
    let hb = (b.sequence / 0x100000000) as u32;
    let lb = (b.sequence % 0x100000000) as u32;
    assert(ka[0] == ha && ka[1] == la && kb[0] == hb && kb[1] == lb);
    assert(ha < hb || (ha == hb && la < lb)) by (nonlinear_arith)
        requires
            a.sequence < b.sequence,
            ha == a.sequence / 0x100000000,
            la == a.sequence % 0x100000000,
            hb == b.sequence / 0x100000000,
            lb == b.sequence % 0x100000000,
    ;
    if ha < hb {
        assert(crate::order::key_lt(ka, kb));
    } else {
        assert(crate::order::key_lt(ka.drop_first(), kb.drop_first()));
        assert(crate::order::key_lt(ka, kb));
    }
    crate::order::lemma_key_lt_asymmetric(ka, kb);
}

fn corrupt(transaction_id: &OperatorTransactionId, message: &str) -> (e: KnowledgeError)
    ensures
        e is Corrupt,
{
    KnowledgeError::Corrupt { path: owned(transaction_id.as_str()), message: owned(message) }
}

pub open spec fn opt_tx_view(o: Option<OperatorTransactionId>) -> Option<Seq<char>> {
    match o {
        Some(t) => Some(t@),
        None => None,
    }
}

fn opt_tx_eq(a: &Option<OperatorTransactionId>, b: &Option<OperatorTransactionId>) -> (r: bool)
    ensures
        r == (opt_tx_view(*a) == opt_tx_view(*b)),
{
    match (a, b) {
        (Some(x), Some(y)) => x.same(y),
        (None, None) => true,
        _ => false,
    }
}

/// The response a transaction writes or deletes.
pub open spec fn mutation_id(m: TransactionMutation) -> OperatorResponseId {
    match m {
        TransactionMutation::Put { response_id } => response_id,
        TransactionMutation::DeleteDraft { response_id } => response_id,
    }
}

/// Where the current responses (indices of the transactions that wrote them)
/// hold the response with the identifier: the first such position.
pub open spec fn find_current(txs: Seq<CommittedTransaction>, cur: Seq<usize>, id: Seq<char>) -> Option<int>
    decreases cur.len(),
{
    if cur.len() == 0 {
        None
    } else {
        match find_current(txs, cur.drop_last(), id) {
            Some(i) => Some(i),
            None => if (txs[cur.last() as int].revision->0).id@ == id {
                Some(cur.len() - 1)
            } else {
                None
            },
        }
    }
}

/// A put whose stored revision is valid and matches its transaction.
pub open spec fn revision_fits(t: CommittedTransaction, project: Seq<char>) -> bool {
    &&& t.mutation is Put
    &&& t.revision is Some
    &&& (t.revision->0).valid()
    &&& (t.revision->0).id@ == mutation_id(t.mutation)@
    &&& (t.revision->0).project@ == project
    &&& opt_tx_view(t.revision_transaction) == Some(t.transaction_id@)
    &&& (t.revision->0).audit.transaction_id@ == t.transaction_id@
}

/// Applies the transaction at `k` to the current responses; `None` where it
/// does not fit the history.
pub open spec fn replay_step(txs: Seq<CommittedTransaction>, cur: Seq<usize>, k: int, project: Seq<char>) -> Option<Seq<usize>> {
    let t = txs[k];
    let pos = find_current(txs, cur, mutation_id(t.mutation)@);
    let actual = match pos {
        Some(p) => Some(txs[cur[p] as int].transaction_id@),
        None => None,
    };
    if actual != opt_tx_view(t.expected_transaction) {
        None
    } else if t.mutation is Put {
        if revision_fits(t, project) {
            match pos {
                Some(p) => Some(cur.update(p, k as usize)),
                None => Some(cur.push(k as usize)),
            }
        } else {
            None
        }
    } else {
        match pos {
            Some(p) => Some(cur.remove(p)),
            None => Some(cur),
        }
    }
}

/// The current responses after the first `n` transactions.
pub open spec fn replay_prefix(txs: Seq<CommittedTransaction>, n: nat, project: Seq<char>) -> Option<Seq<usize>>
    decreases n,
{
    if n == 0 {
        Some(Seq::empty())
    } else {
        match replay_prefix(txs, (n - 1) as nat, project) {
            Some(c) => replay_step(txs, c, n - 1, project),
            None => None,
        }
    }
}

/// The current responses of a history: for each, the index of the transaction
/// that wrote it; `None` for a history that does not replay.
pub open spec fn replay_spec(txs: Seq<CommittedTransaction>, project: Seq<char>) -> Option<Seq<usize>> {
    replay_prefix(txs, txs.len(), project)
}

/// The responses the indices point to.
pub open spec fn responses_at(txs: Seq<CommittedTransaction>, cur: Seq<usize>) -> Seq<OperatorResponse> {
    cur.map_values(|i: usize| txs[i as int].revision->0)
}

pub open spec fn refs_fit(txs: Seq<CommittedTransaction>, cur: Seq<usize>, n: int, project: Seq<char>) -> bool {
    forall|i: int| 0 <= i < cur.len() ==> (#[trigger] cur[i]) < n && revision_fits(txs[cur[i] as int], project)
}

proof fn lemma_find_extends(txs: Seq<CommittedTransaction>, cur: Seq<usize>, k: int, id: Seq<char>)
    requires
        0 <= k <= cur.len(),
        find_current(txs, cur.take(k), id) is Some,
    ensures
        find_current(txs, cur, id) == find_current(txs, cur.take(k), id),
    decreases cur.len() - k,
{
    if k < cur.len() {
        assert(cur.take(k + 1).drop_last() =~= cur.take(k));
        lemma_find_extends(txs, cur, k + 1, id);
    } else {
        assert(cur.take(k) =~= cur);
    }
}

proof fn lemma_find_stable(a: Seq<CommittedTransaction>, b: Seq<CommittedTransaction>, cur: Seq<usize>, id: Seq<char>)
    requires
        forall|i: int| 0 <= i < cur.len() ==> a[#[trigger] cur[i] as int] == b[cur[i] as int],
    ensures
        find_current(a, cur, id) == find_current(b, cur, id),
    decreases cur.len(),
{
    if cur.len() > 0 {
        let d = cur.drop_last();
        assert forall|i: int| 0 <= i < d.len() implies a[#[trigger] d[i] as int] == b[d[i] as int] by {
            assert(d[i] == cur[i]);
        }
        lemma_find_stable(a, b, d, id);
        assert(a[cur.last() as int] == b[cur.last() as int]);
    }
}

proof fn lemma_find_found(txs: Seq<CommittedTransaction>, cur: Seq<usize>, id: Seq<char>)
    ensures
        find_current(txs, cur, id) matches Some(p) ==> 0 <= p < cur.len() && (txs[cur[p] as int].revision->0).id@ == id,
    decreases cur.len(),
{
    if cur.len() > 0 {
        lemma_find_found(txs, cur.drop_last(), id);
    }
}

proof fn lemma_replay_refs(txs: Seq<CommittedTransaction>, n: nat, project: Seq<char>)
    requires
        n <= txs.len(),
        txs.len() <= usize::MAX,
        replay_prefix(txs, n, project) is Some,
    ensures
        refs_fit(txs, replay_prefix(txs, n, project)->0, n as int, project),
    decreases n,
{
    if n > 0 {
        lemma_replay_refs(txs, (n - 1) as nat, project);
        let c = replay_prefix(txs, (n - 1) as nat, project)->0;
        let k = n - 1;
        let t = txs[k];
        let pos = find_current(txs, c, mutation_id(t.mutation)@);
        lemma_find_found(txs, c, mutation_id(t.mutation)@);
        let r = replay_prefix(txs, n, project)->0;
        assert(replay_prefix(txs, n, project) == replay_step(txs, c, k, project));
        assert forall|i: int| 0 <= i < r.len() implies (#[trigger] r[i]) < n && revision_fits(txs[r[i] as int], project) by {
            if t.mutation is Put {
                match pos {
                    Some(p) => {
                        assert(r == c.update(p, k as usize));
                        if i != p {
                            assert(r[i] == c[i]);
                        }
                    },
                    None => {
                        assert(r == c.push(k as usize));
                        if i < c.len() {
                            assert(r[i] == c[i]);
                        }
                    },
                }
            } else {
                match pos {
                    Some(p) => {
                        assert(r == c.remove(p));
                        if i < p {
                            assert(r[i] == c[i]);
                        } else {
                            assert(r[i] == c[i + 1]);
                        }
                    },
                    None => {
                        assert(r == c);
                    },
                }
            }
        }
    }
}

/// No two current responses share an identifier.
pub open spec fn current_ids_distinct(txs: Seq<CommittedTransaction>, cur: Seq<usize>) -> bool {
    forall|a: int, b: int|
        0 <= a < b < cur.len() ==> (#[trigger] current_at(txs, cur, a)).id@ != (#[trigger] current_at(txs, cur, b)).id@
}

proof fn lemma_find_absent(txs: Seq<CommittedTransaction>, cur: Seq<usize>, id: Seq<char>)
    requires
        find_current(txs, cur, id) is None,
    ensures
        forall|i: int| 0 <= i < cur.len() ==> (#[trigger] current_at(txs, cur, i)).id@ != id,
    decreases cur.len(),
{
    if cur.len() > 0 {
        lemma_find_absent(txs, cur.drop_last(), id);
        assert forall|i: int| 0 <= i < cur.len() implies (#[trigger] current_at(txs, cur, i)).id@ != id by {
            if i < cur.len() - 1 {
                assert(current_at(txs, cur, i) == current_at(txs, cur.drop_last(), i));
            }
        }
    }
}

/// Replaying a history keeps one current response per identifier.
pub proof fn lemma_replay_ids_distinct(txs: Seq<CommittedTransaction>, n: nat, project: Seq<char>)
    requires
        n <= txs.len(),
        txs.len() <= usize::MAX,
        replay_prefix(txs, n, project) is Some,
    ensures
        current_ids_distinct(txs, replay_prefix(txs, n, project)->0),
    decreases n,
{
    if n > 0 {
        let k = n - 1;
        lemma_replay_ids_distinct(txs, k as nat, project);
        let c = replay_prefix(txs, k as nat, project)->0;
        let t = txs[k];
        let id = mutation_id(t.mutation)@;
        let pos = find_current(txs, c, id);
        lemma_find_found(txs, c, id);
        let r = replay_prefix(txs, n, project)->0;
        assert(replay_prefix(txs, n, project) == replay_step(txs, c, k, project));
        if t.mutation is Put {
            assert(revision_fits(t, project));
            match pos {
                Some(p) => {
                    assert(r == c.update(p, k as usize));
                    assert forall|a: int, b: int| 0 <= a < b < r.len() implies (#[trigger] current_at(txs, r, a)).id@
                        != (#[trigger] current_at(txs, r, b)).id@ by {
                        if a != p {
                            assert(current_at(txs, r, a) == current_at(txs, c, a));
                        }
                        if b != p {
                            assert(current_at(txs, r, b) == current_at(txs, c, b));
                        }
                    }
                },
                None => {
                    lemma_find_absent(txs, c, id);
                    assert(r == c.push(k as usize));
                    assert forall|a: int, b: int| 0 <= a < b < r.len() implies (#[trigger] current_at(txs, r, a)).id@
                        != (#[trigger] current_at(txs, r, b)).id@ by {
                        assert(current_at(txs, r, a) == current_at(txs, c, a));
                        if b < c.len() {
                            assert(current_at(txs, r, b) == current_at(txs, c, b));
                        }
                    }
                },
            }
        } else {
            match pos {
                Some(p) => {
                    assert(r == c.remove(p));
                    assert forall|a: int, b: int| 0 <= a < b < r.len() implies (#[trigger] current_at(txs, r, a)).id@
                        != (#[trigger] current_at(txs, r, b)).id@ by {
                        let a2 = if a < p { a } else { a + 1 };
                        let b2 = if b < p { b } else { b + 1 };
                        assert(current_at(txs, r, a) == current_at(txs, c, a2));
                        assert(current_at(txs, r, b) == current_at(txs, c, b2));
                    }
                },
                None => {
                    assert(r == c);
                },
            }
        }
    }
}

proof fn lemma_replay_none_extends(txs: Seq<CommittedTransaction>, n: nat, project: Seq<char>)
    requires
        n <= txs.len(),
        replay_prefix(txs, n, project) is None,
    ensures
        replay_spec(txs, project) is None,
    decreases txs.len() - n,
{
    if n < txs.len() {
        lemma_replay_none_extends(txs, n + 1, project);
    }
}

/// Replaying a history is unaffected by what is appended to it.
proof fn lemma_replay_prefix_stable(a: Seq<CommittedTransaction>, b: Seq<CommittedTransaction>, n: nat, project: Seq<char>)
    requires
        n <= a.len(),
        n <= b.len(),
        a.len() <= usize::MAX,
        forall|j: int| 0 <= j < n ==> a[j] == b[j],
    ensures
        replay_prefix(a, n, project) == replay_prefix(b, n, project),
    decreases n,
{
    if n > 0 {
        let k = n - 1;
        lemma_replay_prefix_stable(a, b, k as nat, project);
        if let Some(c) = replay_prefix(a, k as nat, project) {
            lemma_replay_refs(a, k as nat, project);
            assert forall|i: int| 0 <= i < c.len() implies a[#[trigger] c[i] as int] == b[c[i] as int] by {
                assert(c[i] < k);
            }
            assert(a[k] == b[k]);
            let id = mutation_id(a[k].mutation)@;
            lemma_find_stable(a, b, c, id);
            lemma_find_found(a, c, id);
            if let Some(p) = find_current(a, c, id) {
                assert(a[c[p] as int] == b[c[p] as int]);
            }
            assert(replay_step(a, c, k, project) == replay_step(b, c, k, project));
        }
    }
}

/// A ledger in commit order, whose counters are ahead of its history.
pub open spec fn ledger_wf(l: OperatorLedger) -> bool {
    &&& crate::order::keys_sorted(l.transactions@)
    &&& forall|i: int| 0 <= i < l.transactions@.len() ==> (#[trigger] l.transactions@[i]).sequence <= l.last_transaction
}

/// What the stored history of a transaction must agree on before it is
/// replayed.
pub open spec fn load_fits(t: CommittedTransaction, project: Seq<char>, last_transaction: u64) -> bool {
    &&& sequence_of(t.transaction_id@) == Some(t.sequence)
    &&& t.commit_transaction@ == t.transaction_id@
    &&& t.project@ == project
    &&& t.sequence <= last_transaction
}

fn find_position(txs: &Vec<CommittedTransaction>, cur: &Vec<usize>, id: &OperatorResponseId) -> (r: Option<usize>)
    requires
        forall|i: int| 0 <= i < cur@.len() ==> (#[trigger] cur@[i]) < txs@.len() && txs@[cur@[i] as int].revision is Some,
    ensures
        r matches Some(p) ==> p < cur@.len() && find_current(txs@, cur@, id@) == Some(p as int),
        r is None ==> find_current(txs@, cur@, id@) is None,
{
    let mut i: usize = 0;
    assert(cur@.take(0) =~= Seq::<usize>::empty());
    while i < cur.len()
        invariant
            i <= cur@.len(),
            find_current(txs@, cur@.take(i as int), id@) is None,
            forall|j: int| 0 <= j < cur@.len() ==> (#[trigger] cur@[j]) < txs@.len() && txs@[cur@[j] as int].revision is Some,
        decreases cur@.len() - i,
    {
        let t = &txs[cur[i]];
        assert(cur@.take(i + 1).drop_last() =~= cur@.take(i as int));
        match &t.revision {
            Some(rev) => {
                if rev.id.same(id) {
                    proof {
                        lemma_find_extends(txs@, cur@, i + 1, id@);
                    }
                    return Some(i);
                }
            },
            None => {},
        }
        i = i + 1;
    }
    assert(cur@.take(cur@.len() as int) =~= cur@);
    None
}

impl OperatorLedger {
    /// The committed history and the sequence counters.
    pub open spec fn model(&self) -> (Seq<CommittedTransaction>, u64, u64) {
        (self.transactions@, self.last_transaction, self.last_response)
    }

    pub fn new(project: String) -> (r: Self)
        ensures
            r.project == project,
            r.transactions@.len() == 0,
            r.last_transaction == 0,
            r.last_response == 0,
            ledger_wf(r),
    {
        OperatorLedger { project, transactions: Vec::new(), last_transaction: 0, last_response: 0 }
    }

    /// Checks the committed transactions of a stored history and puts them in
    /// commit order.
    pub fn load(
        project: String,
        transactions: Vec<CommittedTransaction>,
        last_transaction: u64,
        last_response: u64,
    ) -> (r: Result<OperatorLedger, KnowledgeError>)
        ensures
            r is Ok <==> forall|i: int| 0 <= i < transactions@.len() ==> load_fits(#[trigger] transactions@[i], project@, last_transaction),
            r matches Ok(l) ==> l.project == project && l.last_transaction == last_transaction
                && l.last_response == last_response && ledger_wf(l)
                && crate::order::sorted_of(l.transactions@, transactions@),
            r matches Err(e) ==> e is Corrupt || e is InvalidOperatorResponse,
    {
        let mut i: usize = 0;
        while i < transactions.len()
            invariant
                i <= transactions@.len(),
                forall|j: int| 0 <= j < i ==> load_fits(#[trigger] transactions@[j], project@, last_transaction),
            decreases transactions@.len() - i,
        {
            let t = &transactions[i];
            let sequence = parse_sequence(t.transaction_id.as_str())?;
            if !t.commit_transaction.same(&t.transaction_id) || !str_eq(t.project.as_str(), project.as_str())
                || sequence != t.sequence {
                return Err(corrupt(&t.transaction_id, "operator transaction manifest and commit do not match"));
            }
            if t.sequence > last_transaction {
                return Err(corrupt(&t.transaction_id, "operator sequence state is behind committed history"));
            }
            i = i + 1;
        }
        let ghost all = transactions@;
        let sorted = crate::order::sort_stable(transactions);
        proof {
            assert forall|k: int| 0 <= k < sorted@.len() implies (#[trigger] sorted@[k]).sequence <= last_transaction by {
                assert(all.contains(sorted@[k]));
            }
        }
        Ok(OperatorLedger { project, transactions: sorted, last_transaction, last_response })
    }

    /// Applies the transaction at `k` to the current responses.
    fn apply(&self, cur: &mut Vec<usize>, k: usize) -> (r: Result<(), KnowledgeError>)
        requires
            k < self.transactions@.len(),
            refs_fit(self.transactions@, old(cur)@, k as int, self.project@),
        ensures
            r is Ok <==> replay_step(self.transactions@, old(cur)@, k as int, self.project@) is Some,
            r is Ok ==> replay_step(self.transactions@, old(cur)@, k as int, self.project@) == Some(final(cur)@)
                && refs_fit(self.transactions@, final(cur)@, k + 1, self.project@),
    {
        let ghost txs = self.transactions@;
        let ghost p = self.project@;
        let t = &self.transactions[k];
        let pos = find_position(&self.transactions, cur, t.mutation.response_id());
        proof {
            lemma_find_found(txs, cur@, mutation_id(t.mutation)@);
        }
        let expected_ok = match pos {
            Some(q) => match &t.expected_transaction {
                Some(e) => self.transactions[cur[q]].transaction_id.same(e),
                None => false,
            },
            None => t.expected_transaction.is_none(),
        };
        if !expected_ok {
            return Err(corrupt(&t.transaction_id, "operator transaction expected state does not match history"));
        }
        match &t.mutation {
            TransactionMutation::Put { response_id } => {
                let revision = match &t.revision {
                    Some(r) => r,
                    None => {
                        return Err(corrupt(&t.transaction_id, "operator response revision is missing"));
                    },
                };
                revision.validate()?;
                let revision_tx_ok = match &t.revision_transaction {
                    Some(x) => x.same(&t.transaction_id),
                    None => false,
                };
                if !revision.id.same(response_id) || !str_eq(revision.project.as_str(), self.project.as_str())
                    || !revision_tx_ok || !revision.audit.transaction_id.same(&t.transaction_id) {
                    return Err(corrupt(&t.transaction_id, "operator response revision does not match transaction"));
                }
                match pos {
                    Some(q) => {
                        let ghost before = cur@;
                        cur.set(q, k);
                        proof {
                            assert forall|i: int| 0 <= i < cur@.len() implies (#[trigger] cur@[i]) < k + 1
                                && revision_fits(txs[cur@[i] as int], p) by {
                                if i != q {
                                    assert(cur@[i] == before[i]);
                                }
                            }
                        }
                    },
                    None => {
                        let ghost before = cur@;
                        cur.push(k);
                        proof {
                            assert forall|i: int| 0 <= i < cur@.len() implies (#[trigger] cur@[i]) < k + 1
                                && revision_fits(txs[cur@[i] as int], p) by {
                                if i < before.len() {
                                    assert(cur@[i] == before[i]);
                                }
                            }
                        }
                    },
                }
            },
            TransactionMutation::DeleteDraft { response_id: _ } => {
                match pos {
                    Some(q) => {
                        let ghost before = cur@;
                        cur.remove(q);
                        proof {
                            assert forall|i: int| 0 <= i < cur@.len() implies (#[trigger] cur@[i]) < k + 1
                                && revision_fits(txs[cur@[i] as int], p) by {
                                if i < q {
                                    assert(cur@[i] == before[i]);
                                } else {
                                    assert(cur@[i] == before[i + 1]);
                                }
                            }
                        }
                    },
                    None => {},
                }
            },
        }
        Ok(())
    }

    /// Replays the committed transactions, in order, into the current
    /// responses: for each, the index of the transaction that wrote it. A
    /// transaction that does not fit the history is corruption.
    pub fn replay(&self) -> (r: Result<Vec<usize>, KnowledgeError>)
        ensures
            r is Ok <==> replay_spec(self.transactions@, self.project@) is Some,
            r matches Ok(c) ==> replay_spec(self.transactions@, self.project@) == Some(c@)
                && refs_fit(self.transactions@, c@, self.transactions@.len() as int, self.project@),
    {
        let ghost txs = self.transactions@;
        let ghost p = self.project@;
        let mut cur: Vec<usize> = Vec::new();
        let mut k: usize = 0;
        while k < self.transactions.len()
            invariant
                k <= txs.len(),
                txs == self.transactions@,
                p == self.project@,
                replay_prefix(txs, k as nat, p) == Some(cur@),
                refs_fit(txs, cur@, k as int, p),
            decreases txs.len() - k,
        {
            match self.apply(&mut cur, k) {
                Ok(()) => {},
                Err(e) => {
                    proof {
                        lemma_replay_none_extends(txs, (k + 1) as nat, p);
                    }
                    return Err(e);
                },
            }
            k = k + 1;
        }
        Ok(cur)
    }

    /// The response at a position of the current responses.
    fn current_response(&self, cur: &Vec<usize>, q: usize) -> (r: &OperatorResponse)
        requires
            q < cur@.len(),
            refs_fit(self.transactions@, cur@, self.transactions@.len() as int, self.project@),
        ensures
            *r == current_at(self.transactions@, cur@, q as int),
            r.valid(),
    {
        match &self.transactions[cur[q]].revision {
            Some(r) => r,
            None => unreached(),
        }
    }

    /// Appends the next transaction; its sequence number is the one just
    /// allocated.
    fn append(&mut self, t: CommittedTransaction)
        requires
            ledger_wf(*old(self)),
            t.sequence == old(self).last_transaction,
            forall|i: int| 0 <= i < old(self).transactions@.len() ==> (#[trigger] old(self).transactions@[i]).sequence < t.sequence,
        ensures
            ledger_wf(*final(self)),
            final(self).transactions@ == old(self).transactions@.push(t),
            final(self).project == old(self).project,
            final(self).last_transaction == old(self).last_transaction,
            final(self).last_response == old(self).last_response,
    {
        let ghost before = self.transactions@;
        self.transactions.push(t);
        proof {
            assert forall|i: int, j: int| 0 <= i < j < self.transactions@.len() implies !crate::order::key_lt(
                #[trigger] self.transactions@[j].sort_key(),
                #[trigger] self.transactions@[i].sort_key(),
            ) by {
                if j == before.len() {
                    lemma_transaction_order(before[i], t);
                } else {
                    assert(self.transactions@[i] == before[i] && self.transactions@[j] == before[j]);
                }
            }
        }
    }

    /// Deletes a draft response: a transaction that removes it from the
    /// current responses and keeps its history.
    pub fn delete_draft(&mut self, id: &OperatorResponseId) -> (r: Result<(), KnowledgeError>)
        requires
            ledger_wf(*old(self)),
        ensures
            ledger_wf(*final(self)),
            final(self).project == old(self).project,
            delete_outcome(old(self).model(), final(self).model(), old(self).project@, id@, r),
    {
        let cur = self.replay()?;
        let q = match find_position(&self.transactions, &cur, id) {
            Some(q) => q,
            None => {
                return Err(KnowledgeError::OperatorResponseNotFound(owned(id.as_str())));
            },
        };
        let previous = self.current_response(&cur, q);
        if previous.lifecycle != ResponseLifecycle::Draft {
            return Err(KnowledgeError::InvalidResponseTransition(owned("only draft responses are deletable")));
        }
        let expected = self.transactions[cur[q]].transaction_id.duplicate();
        let (transaction_id, _) = self.allocate(false)?;
        let t = CommittedTransaction {
            transaction_id: transaction_id.duplicate(),
            commit_transaction: transaction_id,
            project: self.project.clone(),
            sequence: self.last_transaction,
            operation: OperatorHistoryOperation::DeleteDraft,
            mutation: TransactionMutation::DeleteDraft { response_id: id.duplicate() },
            expected_transaction: Some(expected),
            revision_transaction: None,
            revision: None,
        };
        let ghost t0 = t;
        self.append(t);
        proof {
            assert(self.transactions@.drop_last() =~= old(self).transactions@);
            assert(self.transactions@.last() == t0);
            assert(extends_by_one(old(self).model(), self.model()));
            assert(delete_of(t0, old(self).project@, id@, old(self).transactions@[cur@[q as int] as int].transaction_id@));
        }
        Ok(())
    }

    /// Whether some current response supersedes `id`.
    fn is_superseded(&self, cur: &Vec<usize>, id: &OperatorResponseId) -> (r: bool)
        requires
            refs_fit(self.transactions@, cur@, self.transactions@.len() as int, self.project@),
        ensures
            r == superseded_at(self.transactions@, cur@, id@),
    {
        let ghost rs = responses_at(self.transactions@, cur@);
        let mut i: usize = 0;
        while i < cur.len()
            invariant
                i <= cur@.len(),
                rs == responses_at(self.transactions@, cur@),
                refs_fit(self.transactions@, cur@, self.transactions@.len() as int, self.project@),
                forall|j: int| 0 <= j < i ==> opt_id_view((#[trigger] rs[j]).supersedes) != Some(id@),
            decreases cur@.len() - i,
        {
            let r = self.current_response(cur, i);
            assert(rs[i as int] == *r);
            match &r.supersedes {
                Some(s) => {
                    if s.same(id) {
                        return true;
                    }
                },
                None => {},
            }
            i = i + 1;
        }
        false
    }

    /// The current responses a governing response is checked against.
    fn candidates_of<'a>(&'a self, cur: &Vec<usize>, skip: &Option<OperatorResponseId>) -> (r: Vec<&'a OperatorResponse>)
        requires
            refs_fit(self.transactions@, cur@, self.transactions@.len() as int, self.project@),
        ensures
            deref_all(r@) == candidates(self.transactions@, cur@, cur@, opt_id_view(*skip)),
    {
        let ghost txs = self.transactions@;
        let mut out: Vec<&'a OperatorResponse> = Vec::new();
        let mut i: usize = 0;
        assert(cur@.take(0) =~= Seq::<usize>::empty());
        assert(deref_all(out@) =~= Seq::<OperatorResponse>::empty());
        while i < cur.len()
            invariant
                i <= cur@.len(),
                txs == self.transactions@,
                refs_fit(txs, cur@, txs.len() as int, self.project@),
                deref_all(out@) == candidates(txs, cur@.take(i as int), cur@, opt_id_view(*skip)),
            decreases cur@.len() - i,
        {
            let r = self.current_response(cur, i);
            let superseded = self.is_superseded(cur, &r.id);
            let skipped = match skip {
                Some(x) => x.same(&r.id),
                None => false,
            };
            proof {
                let t = cur@.take(i + 1);
                assert(t.drop_last() =~= cur@.take(i as int));
                assert(t.last() == cur@[i as int]);
            }
            if !superseded && !skipped {
                let ghost before = out@;
                out.push(r);
                assert(deref_all(out@) =~= deref_all(before).push(*r));
            }
            i = i + 1;
        }
        assert(cur@.take(cur@.len() as int) =~= cur@);
        out
    }

    /// Commits a put of `response` as the transaction just allocated.
    fn commit_put(
        &mut self,
        transaction_id: &OperatorTransactionId,
        operation: OperatorHistoryOperation,
        response: &OperatorResponse,
        expected: Option<OperatorTransactionId>,
    )
        requires
            ledger_wf(*old(self)),
            transaction_id@ == TRANSACTION_ID_PREFIX@ + padded6(old(self).last_transaction as nat),
            forall|i: int| 0 <= i < old(self).transactions@.len() ==> (#[trigger] old(self).transactions@[i]).sequence < old(self).last_transaction,
        ensures
            ledger_wf(*final(self)),
            final(self).project == old(self).project,
            final(self).last_transaction == old(self).last_transaction,
            final(self).last_response == old(self).last_response,
            final(self).transactions@.drop_last() == old(self).transactions@,
            final(self).transactions@.len() == old(self).transactions@.len() + 1,
            final(self).transactions@.last().transaction_id@ == transaction_id@,
            final(self).transactions@.last().commit_transaction@ == transaction_id@,
            final(self).transactions@.last().sequence == old(self).last_transaction,
            put_of(final(self).transactions@.last(), old(self).project@, operation, *response, opt_tx_view(expected)),
    {
        let t = CommittedTransaction {
            transaction_id: transaction_id.duplicate(),
            commit_transaction: transaction_id.duplicate(),
            project: self.project.clone(),
            sequence: self.last_transaction,
            operation,
            mutation: TransactionMutation::Put { response_id: response.id.duplicate() },
            expected_transaction: expected,
            revision_transaction: Some(transaction_id.duplicate()),
            revision: Some(response.duplicate()),
        };
        let ghost t0 = t;
        self.append(t);
        assert(self.transactions@.drop_last() =~= old(self).transactions@);
        assert(self.transactions@.last() == t0);
    }

    /// Retires or withdraws an effective active response: a new response, in
    /// the given lifecycle, supersedes it.
    fn transition_active_response(
        &mut self,
        id: &OperatorResponseId,
        lifecycle: ResponseLifecycle,
        operation: OperatorHistoryOperation,
        created_at: String,
    ) -> (r: Result<OperatorResponse, KnowledgeError>)
        requires
            ledger_wf(*old(self)),
        ensures
            ledger_wf(*final(self)),
            final(self).project == old(self).project,
            transition_outcome(old(self).model(), final(self).model(), old(self).project@, id@, lifecycle, operation, created_at@, r),
    {
        let cur = self.replay()?;
        let q = match find_position(&self.transactions, &cur, id) {
            Some(q) => q,
            None => {
                return Err(KnowledgeError::OperatorResponseNotFound(owned(id.as_str())));
            },
        };
        let previous = self.current_response(&cur, q);
        if previous.lifecycle != ResponseLifecycle::Active || self.is_superseded(&cur, id) {
            return Err(KnowledgeError::InvalidResponseTransition(owned("only an effective active response may transition")));
        }
        let mut response = previous.duplicate();
        let ghost prev = *previous;
        let (transaction_id, response_id) = self.allocate(true)?;
        let response_id = match response_id {
            Some(x) => x,
            None => unreached(),
        };
        response.id = response_id;
        response.lifecycle = lifecycle;
        response.supersedes = Some(id.duplicate());
        response.audit = ResponseAuditMetadata { transaction_id: transaction_id.duplicate(), created_at };
        response.validate()?;
        self.commit_put(&transaction_id, operation, &response, None);
        Ok(response)
    }

    /// Records a new response under the next identifiers; governing responses
    /// must be the only active one of their key or supersede it explicitly.
    fn create(&mut self, request: NewOperatorResponse, created_at: String) -> (r: Result<OperatorResponse, KnowledgeError>)
        requires
            ledger_wf(*old(self)),
            request.project@ == old(self).project@,
        ensures
            ledger_wf(*final(self)),
            final(self).project == old(self).project,
            create_outcome(old(self).model(), final(self).model(), request, created_at@, r),
    {
        request.target.validate()?;
        request.payload.validate()?;
        if request.payload.is_governing() && request.target.classification != OperatorTargetClassification::Derived {
            return Err(KnowledgeError::ObservedTargetGovernance);
        }
        let cur = self.replay()?;
        let candidates = self.candidates_of(&cur, &None);
        validate_governing_response(&candidates, &request.target, &request.payload, &request.supersedes)?;
        let (transaction_id, response_id) = self.allocate(true)?;
        let response_id = match response_id {
            Some(x) => x,
            None => unreached(),
        };
        let lifecycle = request.payload.initial_lifecycle();
        let response = OperatorResponse {
            schema_version: OPERATOR_RESPONSE_SCHEMA_VERSION,
            id: response_id,
            project: request.project,
            target: request.target,
            operator: request.operator,
            lifecycle,
            payload: request.payload,
            supersedes: request.supersedes,
            audit: ResponseAuditMetadata { transaction_id: transaction_id.duplicate(), created_at },
        };
        response.validate()?;
        self.commit_put(&transaction_id, OperatorHistoryOperation::Create, &response, None);
        Ok(response)
    }

    /// Replaces the payload of a draft.
    fn edit_draft(&mut self, id: &OperatorResponseId, payload: OperatorResponsePayload, created_at: String) -> (r: Result<OperatorResponse, KnowledgeError>)
        requires
            ledger_wf(*old(self)),
        ensures
            ledger_wf(*final(self)),
            final(self).project == old(self).project,
            edit_outcome(old(self).model(), final(self).model(), old(self).project@, id@, payload, created_at@, r),
    {
        payload.validate()?;
        if payload.initial_lifecycle() != ResponseLifecycle::Draft {
            return Err(KnowledgeError::InvalidResponseTransition(owned("a draft cannot be edited into an immediate-active response")));
        }
        let cur = self.replay()?;
        let q = match find_position(&self.transactions, &cur, id) {
            Some(q) => q,
            None => {
                return Err(KnowledgeError::OperatorResponseNotFound(owned(id.as_str())));
            },
        };
        let previous = self.current_response(&cur, q);
        if previous.lifecycle != ResponseLifecycle::Draft {
            return Err(KnowledgeError::InvalidResponseTransition(owned("only draft responses are editable")));
        }
        let mut response = previous.duplicate();
        let expected = self.transactions[cur[q]].transaction_id.duplicate();
        let (transaction_id, _) = self.allocate(false)?;
        response.payload = payload;
        response.audit = ResponseAuditMetadata { transaction_id: transaction_id.duplicate(), created_at };
        response.validate()?;
        self.commit_put(&transaction_id, OperatorHistoryOperation::EditDraft, &response, Some(expected));
        Ok(response)
    }

    /// Makes a draft active, checked against the current binding of its target.
    fn activate(
        &mut self,
        id: &OperatorResponseId,
        current_target: &OperatorTargetBinding,
        supersedes: Option<OperatorResponseId>,
        created_at: String,
    ) -> (r: Result<OperatorResponse, KnowledgeError>)
        requires
            ledger_wf(*old(self)),
        ensures
            ledger_wf(*final(self)),
            final(self).project == old(self).project,
            activate_outcome(old(self).model(), final(self).model(), old(self).project@, id@, *current_target, supersedes, created_at@, r),
    {
        current_target.validate()?;
        let cur = self.replay()?;
        let q = match find_position(&self.transactions, &cur, id) {
            Some(q) => q,
            None => {
                return Err(KnowledgeError::OperatorResponseNotFound(owned(id.as_str())));
            },
        };
        let previous = self.current_response(&cur, q);
        if previous.lifecycle != ResponseLifecycle::Draft {
            return Err(KnowledgeError::InvalidResponseTransition(owned("only draft responses can be activated")));
        }
        if !previous.target.exact_match(current_target) {
            return Err(KnowledgeError::OperatorTargetChanged);
        }
        let skip = Some(id.duplicate());
        let candidates = self.candidates_of(&cur, &skip);
        validate_governing_response(&candidates, current_target, &previous.payload, &supersedes)?;
        let mut response = previous.duplicate();
        let expected = self.transactions[cur[q]].transaction_id.duplicate();
        let (transaction_id, _) = self.allocate(false)?;
        response.lifecycle = ResponseLifecycle::Active;
        response.supersedes = supersedes;
        response.audit = ResponseAuditMetadata { transaction_id: transaction_id.duplicate(), created_at };
        response.validate()?;
        self.commit_put(&transaction_id, OperatorHistoryOperation::Activate, &response, Some(expected));
        Ok(response)
    }

    /// Rebinds a response to the current target: a new active response that
    /// supersedes it.
    fn reaffirm(&mut self, id: &OperatorResponseId, current_target: OperatorTargetBinding, created_at: String) -> (r: Result<OperatorResponse, KnowledgeError>)
        requires
            ledger_wf(*old(self)),
        ensures
            ledger_wf(*final(self)),
            final(self).project == old(self).project,
            reaffirm_outcome(old(self).model(), final(self).model(), old(self).project@, id@, current_target, created_at@, r),
    {
        current_target.validate()?;
        let cur = self.replay()?;
        let q = match find_position(&self.transactions, &cur, id) {
            Some(q) => q,
            None => {
                return Err(KnowledgeError::OperatorResponseNotFound(owned(id.as_str())));
            },
        };
        let previous = self.current_response(&cur, q);
        if previous.lifecycle == ResponseLifecycle::Draft {
            return Err(KnowledgeError::InvalidResponseTransition(owned("draft responses must be activated, not reaffirmed")));
        }
        if self.is_superseded(&cur, id) {
            return Err(KnowledgeError::InvalidResponseTransition(owned("a superseded response cannot be reaffirmed")));
        }
        if previous.payload.is_governing() {
            let candidates = self.candidates_of(&cur, &None);
            let supersedes = Some(previous.id.duplicate());
            validate_governing_response(&candidates, &current_target, &previous.payload, &supersedes)?;
        }
        let mut response = previous.duplicate();
        let (transaction_id, response_id) = self.allocate(true)?;
        let response_id = match response_id {
            Some(x) => x,
            None => unreached(),
        };
        response.id = response_id;
        response.target = current_target;
        response.lifecycle = ResponseLifecycle::Active;
        response.supersedes = Some(id.duplicate());
        response.audit = ResponseAuditMetadata { transaction_id: transaction_id.duplicate(), created_at };
        response.validate()?;
        self.commit_put(&transaction_id, OperatorHistoryOperation::Reaffirm, &response, None);
        Ok(response)
    }

    /// The current responses, superseded active ones shown as superseded,
    /// by identifier.
    fn list(&self) -> (r: Result<Vec<OperatorResponse>, KnowledgeError>)
        requires
            ledger_wf(*self),
        ensures
            r is Ok <==> replay_spec(self.transactions@, self.project@) is Some,
            r matches Ok(v) ==> listing(v@, self.transactions@, replay_spec(self.transactions@, self.project@)->0),
    {
        let ghost txs = self.transactions@;
        let cur = self.replay()?;
        let mut out: Vec<OperatorResponse> = Vec::new();
        let mut i: usize = 0;
        while i < cur.len()
            invariant
                i <= cur@.len(),
                txs == self.transactions@,
                refs_fit(txs, cur@, txs.len() as int, self.project@),
                out@.len() == i,
                forall|k: int| 0 <= k < i ==> listed_as(#[trigger] out@[k], current_at(txs, cur@, k), txs, cur@),
            decreases cur@.len() - i,
        {
            let r = self.current_response(&cur, i);
            let mut x = r.duplicate();
            if x.lifecycle == ResponseLifecycle::Active && self.is_superseded(&cur, &r.id) {
                x.lifecycle = ResponseLifecycle::Superseded;
            }
            out.push(x);
            i = i + 1;
        }
        let ghost all = out@;
        let sorted = crate::order::sort_stable(out);
        proof {
            assert forall|k: int| 0 <= k < sorted@.len() implies lists_current(#[trigger] sorted@[k], txs, cur@) by {
                assert(all.contains(sorted@[k]));
                let j = choose|j: int| 0 <= j < all.len() && all[j] == sorted@[k];
                assert(listed_as(all[j], current_at(txs, cur@, j), txs, cur@));
            }
            assert forall|j: int| 0 <= j < cur@.len() implies #[trigger] listed_in(sorted@, j, txs, cur@) by {
                assert(listed_as(all[j], current_at(txs, cur@, j), txs, cur@));
                assert(sorted@.contains(all[j]));
            }
        }
        proof {
            assert(listed_from(all, txs, cur@));
        }
        Ok(sorted)
    }

    /// Every committed transaction with the response it stored.
    fn history(&self) -> (r: Result<Vec<OperatorResponseHistoryEntry>, KnowledgeError>)
        ensures
            r is Ok <==> forall|i: int| 0 <= i < self.transactions@.len()
                ==> ((#[trigger] self.transactions@[i]).mutation is Put ==> self.transactions@[i].revision is Some),
            r matches Ok(v) ==> v@.len() == self.transactions@.len()
                && forall|i: int| 0 <= i < v@.len() ==> entry_of(#[trigger] v@[i], self.transactions@[i]),
    {
        let mut out: Vec<OperatorResponseHistoryEntry> = Vec::new();
        let mut i: usize = 0;
        while i < self.transactions.len()
            invariant
                i <= self.transactions@.len(),
                out@.len() == i,
                forall|k: int| 0 <= k < i ==> ((#[trigger] self.transactions@[k]).mutation is Put ==> self.transactions@[k].revision is Some),
                forall|k: int| 0 <= k < i ==> entry_of(#[trigger] out@[k], self.transactions@[k]),
            decreases self.transactions@.len() - i,
        {
            let t = &self.transactions[i];
            let response = match &t.mutation {
                TransactionMutation::Put { .. } => match &t.revision {
                    Some(rev) => Some(rev.duplicate()),
                    None => {
                        return Err(corrupt(&t.transaction_id, "operator response revision is missing"));
                    },
                },
                TransactionMutation::DeleteDraft { .. } => None,
            };
            out.push(OperatorResponseHistoryEntry {
                transaction_id: t.transaction_id.duplicate(),
                operation: t.operation,
                response,
            });
            i = i + 1;
        }
        Ok(out)
    }

    /// Allocates the next transaction identifier and, when asked, the next
    /// response identifier.
    fn allocate(&mut self, allocate_response: bool) -> (r: Result<(OperatorTransactionId, Option<OperatorResponseId>), KnowledgeError>)
        ensures
            r is Ok <==> old(self).last_transaction < u64::MAX && (allocate_response ==> old(self).last_response < u64::MAX),
            r is Err ==> final(self).last_transaction == old(self).last_transaction
                && final(self).last_response == old(self).last_response,
            final(self).transactions@ == old(self).transactions@,
            final(self).project == old(self).project,
            r matches Ok((t, rid)) ==> {
                &&& final(self).last_transaction == old(self).last_transaction + 1
                &&& t@ == TRANSACTION_ID_PREFIX@ + padded6(final(self).last_transaction as nat)
                &&& if allocate_response {
                    &&& final(self).last_response == old(self).last_response + 1
                    &&& rid matches Some(id) && id@ == RESPONSE_ID_PREFIX@ + padded6(final(self).last_response as nat)
                } else {
                    &&& final(self).last_response == old(self).last_response
                    &&& rid is None
                }
            },
    {
        if self.last_transaction == u64::MAX {
            return Err(KnowledgeError::InvalidOperatorResponse(owned("operator transaction sequence exhausted")));
        }
        if allocate_response && self.last_response == u64::MAX {
            return Err(KnowledgeError::InvalidOperatorResponse(owned("operator response sequence exhausted")));
        }
        self.last_transaction = self.last_transaction + 1;
        let rid = if allocate_response {
            self.last_response = self.last_response + 1;
            Some(OperatorResponseId::from_sequence(self.last_response))
        } else {
            None
        };
        Ok((OperatorTransactionId::from_sequence(self.last_transaction), rid))
    }
}

/// The identifier of the next transaction.
pub open spec fn next_transaction_id(m: (Seq<CommittedTransaction>, u64, u64)) -> Seq<char> {
    TRANSACTION_ID_PREFIX@ + padded6((m.1 + 1) as nat)
}

/// The identifier of the next response.
pub open spec fn next_response_id(m: (Seq<CommittedTransaction>, u64, u64)) -> Seq<char> {
    RESPONSE_ID_PREFIX@ + padded6((m.2 + 1) as nat)
}

/// `new` is `old` with one more committed transaction, the next one.
pub open spec fn extends_by_one(old: (Seq<CommittedTransaction>, u64, u64), new: (Seq<CommittedTransaction>, u64, u64)) -> bool {
    &&& new.0.len() == old.0.len() + 1
    &&& new.0.drop_last() == old.0
    &&& new.1 == old.1 + 1
    &&& new.0.last().transaction_id@ == next_transaction_id(old)
    &&& new.0.last().commit_transaction@ == next_transaction_id(old)
    &&& new.0.last().sequence == old.1 + 1
}

/// A put of `response` by the project's operation.
pub open spec fn put_of(
    t: CommittedTransaction,
    project: Seq<char>,
    operation: OperatorHistoryOperation,
    response: OperatorResponse,
    expected: Option<Seq<char>>,
) -> bool {
    &&& t.project@ == project
    &&& t.operation == operation
    &&& t.mutation matches TransactionMutation::Put { response_id } && response_id@ == response.id@
    &&& opt_tx_view(t.expected_transaction) == expected
    &&& opt_tx_view(t.revision_transaction) == Some(t.transaction_id@)
    &&& t.revision matches Some(rev) && same_response(rev, response)
}

/// The deletion of a draft.
pub open spec fn delete_of(t: CommittedTransaction, project: Seq<char>, id: Seq<char>, expected: Seq<char>) -> bool {
    &&& t.project@ == project
    &&& t.operation == OperatorHistoryOperation::DeleteDraft
    &&& t.mutation matches TransactionMutation::DeleteDraft { response_id } && response_id@ == id
    &&& opt_tx_view(t.expected_transaction) == Some(expected)
    &&& t.revision_transaction is None
    &&& t.revision is None
}

/// The current response at a position.
pub open spec fn current_at(txs: Seq<CommittedTransaction>, cur: Seq<usize>, q: int) -> OperatorResponse {
    txs[cur[q] as int].revision->0
}

/// What deleting a draft does to a project's ledger, and what it answers.
pub open spec fn delete_outcome(
    old: (Seq<CommittedTransaction>, u64, u64),
    new: (Seq<CommittedTransaction>, u64, u64),
    project: Seq<char>,
    id: Seq<char>,
    r: Result<(), KnowledgeError>,
) -> bool {
    match replay_spec(old.0, project) {
        None => r is Err && new == old,
        Some(c) => match find_current(old.0, c, id) {
            None => r matches Err(e) && e matches KnowledgeError::OperatorResponseNotFound(m) && m@ == id && new == old,
            Some(q) => if current_at(old.0, c, q).lifecycle != ResponseLifecycle::Draft {
                &&& r matches Err(e) && e matches KnowledgeError::InvalidResponseTransition(m)
                    && m@ == "only draft responses are deletable"@
                &&& new == old
            } else if old.1 == u64::MAX {
                r is Err && new == old
            } else {
                &&& r is Ok
                &&& extends_by_one(old, new)
                &&& new.2 == old.2
                &&& delete_of(new.0.last(), project, id, old.0[c[q] as int].transaction_id@)
            },
        },
    }
}

/// The outcome without its value.
pub open spec fn unit_of(r: Result<OperatorResponse, KnowledgeError>) -> Result<(), KnowledgeError> {
    match r {
        Ok(_) => Ok(()),
        Err(e) => Err(e),
    }
}

/// Whether some current response supersedes `id`.
pub open spec fn superseded_at(txs: Seq<CommittedTransaction>, cur: Seq<usize>, id: Seq<char>) -> bool {
    superseded_in(responses_at(txs, cur), id)
}

/// The current responses a governing response is checked against: those no
/// current response supersedes, apart from `skip`, in order.
pub open spec fn candidates(
    txs: Seq<CommittedTransaction>,
    cur: Seq<usize>,
    all: Seq<usize>,
    skip: Option<Seq<char>>,
) -> Seq<OperatorResponse>
    decreases cur.len(),
{
    if cur.len() == 0 {
        Seq::empty()
    } else {
        let rest = candidates(txs, cur.drop_last(), all, skip);
        let r = txs[cur.last() as int].revision->0;
        if superseded_at(txs, all, r.id@) || skip == Some(r.id@) {
            rest
        } else {
            rest.push(r)
        }
    }
}

/// Whether a response with these parts passes `OperatorResponse::validate`.
pub open spec fn response_valid_with(
    schema_version: u32,
    id: Seq<char>,
    transaction_id: Seq<char>,
    project: Seq<char>,
    target: OperatorTargetBinding,
    payload: OperatorResponsePayload,
    supersedes: Option<Seq<char>>,
    operator: OperatorIdentity,
    created_at: Seq<char>,
) -> bool {
    &&& schema_version == OPERATOR_RESPONSE_SCHEMA_VERSION
    &&& sequence_id_valid(id, RESPONSE_ID_PREFIX@)
    &&& sequence_id_valid(transaction_id, TRANSACTION_ID_PREFIX@)
    &&& identifier_valid(project)
    &&& target_ok(target)
    &&& payload.valid()
    &&& (!(payload is Annotation) ==> target.classification == OperatorTargetClassification::Derived)
    &&& supersedes != Some(id)
    &&& identity_valid(operator)
    &&& identifier_valid(created_at)
}

/// Whether a binding passes `OperatorTargetBinding::validate`.
pub open spec fn target_ok(target: OperatorTargetBinding) -> bool {
    &&& binding_inputs_valid(
        target.target_id@,
        opt_view(target.rule_id),
        target.statement@,
        target.evidence_references@,
        target.related_entities@,
    )
    &&& fingerprint_consistent(target)
}

/// `a` keeps `b`'s schema, project and operator.
pub open spec fn keeps_identity(a: OperatorResponse, b: OperatorResponse) -> bool {
    &&& a.schema_version == b.schema_version
    &&& a.project == b.project
    &&& a.operator == b.operator
}

/// `a` keeps `b`'s target binding.
pub open spec fn keeps_target(a: OperatorResponse, b: OperatorResponse) -> bool {
    &&& a.target.same_binding(&b.target)
    &&& a.target.rule_id == b.target.rule_id
    &&& a.target.evidence_references@ == b.target.evidence_references@
    &&& a.target.related_entities@ == b.target.related_entities@
}

/// The audit record of the next transaction.
pub open spec fn audited(a: OperatorResponse, old: (Seq<CommittedTransaction>, u64, u64), created_at: Seq<char>) -> bool {
    a.audit.transaction_id@ == next_transaction_id(old) && a.audit.created_at@ == created_at
}

/// The history after a response was put, and nothing else.
pub open spec fn put_committed(
    old: (Seq<CommittedTransaction>, u64, u64),
    new: (Seq<CommittedTransaction>, u64, u64),
    project: Seq<char>,
    operation: OperatorHistoryOperation,
    response: OperatorResponse,
    expected: Option<Seq<char>>,
    allocates_response: bool,
) -> bool {
    &&& extends_by_one(old, new)
    &&& new.2 == (if allocates_response { old.2 + 1 } else { old.2 as int })
    &&& put_of(new.0.last(), project, operation, response, expected)
}

/// Allocation happened, then validation refused the response: the counters
/// advanced and the history is unchanged.
pub open spec fn allocated_only(
    old: (Seq<CommittedTransaction>, u64, u64),
    new: (Seq<CommittedTransaction>, u64, u64),
    allocates_response: bool,
) -> bool {
    &&& new.0 == old.0
    &&& new.1 == old.1 + 1
    &&& new.2 == (if allocates_response { old.2 + 1 } else { old.2 as int })
}

/// What creating a response does to its project's ledger, and what it
/// answers; the project name was checked before.
pub open spec fn create_outcome(
    old: (Seq<CommittedTransaction>, u64, u64),
    new: (Seq<CommittedTransaction>, u64, u64),
    request: NewOperatorResponse,
    created_at: Seq<char>,
    r: Result<OperatorResponse, KnowledgeError>,
) -> bool {
    let p = request.project@;
    if !target_ok(request.target) {
        r matches Err(e) && e is InvalidOperatorResponse && new == old
    } else if !request.payload.valid() {
        r is Err && new == old
    } else if !(request.payload is Annotation) && request.target.classification != OperatorTargetClassification::Derived {
        r matches Err(e) && e is ObservedTargetGovernance && new == old
    } else {
        match replay_spec(old.0, p) {
            None => r is Err && new == old,
            Some(c) => {
                let cands = candidates(old.0, c, c, None);
                if !governance_check(cands, request.target, request.payload, request.supersedes, Ok(())) {
                    r is Err && governance_check(cands, request.target, request.payload, request.supersedes, unit_of(r)) && new == old
                } else if old.1 == u64::MAX || old.2 == u64::MAX {
                    r is Err && new == old
                } else if !response_valid_with(
                    OPERATOR_RESPONSE_SCHEMA_VERSION,
                    next_response_id(old),
                    next_transaction_id(old),
                    p,
                    request.target,
                    request.payload,
                    opt_id_view(request.supersedes),
                    request.operator,
                    created_at,
                ) {
                    r is Err && allocated_only(old, new, true)
                } else {
                    &&& r matches Ok(resp) && {
                        &&& resp.schema_version == OPERATOR_RESPONSE_SCHEMA_VERSION
                        &&& resp.id@ == next_response_id(old)
                        &&& resp.project == request.project
                        &&& resp.target == request.target
                        &&& resp.operator == request.operator
                        &&& resp.lifecycle == request.payload.initial_lifecycle_spec()
                        &&& resp.payload == request.payload
                        &&& resp.supersedes == request.supersedes
                        &&& audited(resp, old, created_at)
                        &&& put_committed(old, new, p, OperatorHistoryOperation::Create, resp, None, true)
                    }
                }
            },
        }
    }
}

/// What replacing the payload of a draft does, and what it answers.
pub open spec fn edit_outcome(
    old: (Seq<CommittedTransaction>, u64, u64),
    new: (Seq<CommittedTransaction>, u64, u64),
    project: Seq<char>,
    id: Seq<char>,
    payload: OperatorResponsePayload,
    created_at: Seq<char>,
    r: Result<OperatorResponse, KnowledgeError>,
) -> bool {
    if !payload.valid() {
        r is Err && new == old
    } else if payload.initial_lifecycle_spec() != ResponseLifecycle::Draft {
        &&& r matches Err(e) && e matches KnowledgeError::InvalidResponseTransition(m)
            && m@ == "a draft cannot be edited into an immediate-active response"@
        &&& new == old
    } else {
        match replay_spec(old.0, project) {
            None => r is Err && new == old,
            Some(c) => match find_current(old.0, c, id) {
                None => r matches Err(e) && e matches KnowledgeError::OperatorResponseNotFound(m) && m@ == id && new == old,
                Some(q) => {
                    let prev = current_at(old.0, c, q);
                    if prev.lifecycle != ResponseLifecycle::Draft {
                        &&& r matches Err(e) && e matches KnowledgeError::InvalidResponseTransition(m)
                            && m@ == "only draft responses are editable"@
                        &&& new == old
                    } else if old.1 == u64::MAX {
                        r is Err && new == old
                    } else if !response_valid_with(
                        prev.schema_version,
                        prev.id@,
                        next_transaction_id(old),
                        prev.project@,
                        prev.target,
                        payload,
                        opt_id_view(prev.supersedes),
                        prev.operator,
                        created_at,
                    ) {
                        r is Err && allocated_only(old, new, false)
                    } else {
                        r matches Ok(resp) && {
                            &&& keeps_identity(resp, prev)
                            &&& keeps_target(resp, prev)
                            &&& resp.id == prev.id
                            &&& resp.lifecycle == prev.lifecycle
                            &&& resp.payload == payload
                            &&& resp.supersedes == prev.supersedes
                            &&& audited(resp, old, created_at)
                            &&& put_committed(old, new, project, OperatorHistoryOperation::EditDraft, resp,
                                Some(old.0[c[q] as int].transaction_id@), false)
                        }
                    }
                },
            },
        }
    }
}

/// What activating a draft does, and what it answers.
pub open spec fn activate_outcome(
    old: (Seq<CommittedTransaction>, u64, u64),
    new: (Seq<CommittedTransaction>, u64, u64),
    project: Seq<char>,
    id: Seq<char>,
    current_target: OperatorTargetBinding,
    supersedes: Option<OperatorResponseId>,
    created_at: Seq<char>,
    r: Result<OperatorResponse, KnowledgeError>,
) -> bool {
    if !target_ok(current_target) {
        r matches Err(e) && e is InvalidOperatorResponse && new == old
    } else {
        match replay_spec(old.0, project) {
            None => r is Err && new == old,
            Some(c) => match find_current(old.0, c, id) {
                None => r matches Err(e) && e matches KnowledgeError::OperatorResponseNotFound(m) && m@ == id && new == old,
                Some(q) => {
                    let prev = current_at(old.0, c, q);
                    let cands = candidates(old.0, c, c, Some(id));
                    if prev.lifecycle != ResponseLifecycle::Draft {
                        &&& r matches Err(e) && e matches KnowledgeError::InvalidResponseTransition(m)
                            && m@ == "only draft responses can be activated"@
                        &&& new == old
                    } else if !prev.target.same_binding(&current_target) {
                        r matches Err(e) && e is OperatorTargetChanged && new == old
                    } else if !governance_check(cands, current_target, prev.payload, supersedes, Ok(())) {
                        r is Err && governance_check(cands, current_target, prev.payload, supersedes, unit_of(r)) && new == old
                    } else if old.1 == u64::MAX {
                        r is Err && new == old
                    } else if !response_valid_with(
                        prev.schema_version,
                        prev.id@,
                        next_transaction_id(old),
                        prev.project@,
                        prev.target,
                        prev.payload,
                        opt_id_view(supersedes),
                        prev.operator,
                        created_at,
                    ) {
                        r is Err && allocated_only(old, new, false)
                    } else {
                        r matches Ok(resp) && {
                            &&& keeps_identity(resp, prev)
                            &&& keeps_target(resp, prev)
                            &&& resp.id == prev.id
                            &&& resp.lifecycle == ResponseLifecycle::Active
                            &&& resp.payload == prev.payload
                            &&& resp.supersedes == supersedes
                            &&& audited(resp, old, created_at)
                            &&& put_committed(old, new, project, OperatorHistoryOperation::Activate, resp,
                                Some(old.0[c[q] as int].transaction_id@), false)
                        }
                    }
                },
            },
        }
    }
}

/// What retiring or withdrawing an effective active response does: a new
/// response that supersedes it, in the given lifecycle.
pub open spec fn transition_outcome(
    old: (Seq<CommittedTransaction>, u64, u64),
    new: (Seq<CommittedTransaction>, u64, u64),
    project: Seq<char>,
    id: Seq<char>,
    lifecycle: ResponseLifecycle,
    operation: OperatorHistoryOperation,
    created_at: Seq<char>,
    r: Result<OperatorResponse, KnowledgeError>,
) -> bool {
    match replay_spec(old.0, project) {
        None => r is Err && new == old,
        Some(c) => match find_current(old.0, c, id) {
            None => r matches Err(e) && e matches KnowledgeError::OperatorResponseNotFound(m) && m@ == id && new == old,
            Some(q) => {
                let prev = current_at(old.0, c, q);
                if prev.lifecycle != ResponseLifecycle::Active || superseded_at(old.0, c, id) {
                    &&& r matches Err(e) && e matches KnowledgeError::InvalidResponseTransition(m)
                        && m@ == "only an effective active response may transition"@
                    &&& new == old
                } else if old.1 == u64::MAX || old.2 == u64::MAX {
                    r is Err && new == old
                } else if !response_valid_with(
                    prev.schema_version,
                    next_response_id(old),
                    next_transaction_id(old),
                    prev.project@,
                    prev.target,
                    prev.payload,
                    Some(id),
                    prev.operator,
                    created_at,
                ) {
                    r is Err && allocated_only(old, new, true)
                } else {
                    r matches Ok(resp) && {
                        &&& keeps_identity(resp, prev)
                        &&& keeps_target(resp, prev)
                        &&& resp.id@ == next_response_id(old)
                        &&& resp.lifecycle == lifecycle
                        &&& resp.payload == prev.payload
                        &&& opt_id_view(resp.supersedes) == Some(id)
                        &&& audited(resp, old, created_at)
                        &&& put_committed(old, new, project, operation, resp, None, true)
                    }
                }
            },
        },
    }
}

/// What reaffirming a response against the current target does: a new active
/// response bound to it that supersedes the old one.
pub open spec fn reaffirm_outcome(
    old: (Seq<CommittedTransaction>, u64, u64),
    new: (Seq<CommittedTransaction>, u64, u64),
    project: Seq<char>,
    id: Seq<char>,
    current_target: OperatorTargetBinding,
    created_at: Seq<char>,
    r: Result<OperatorResponse, KnowledgeError>,
) -> bool {
    if !target_ok(current_target) {
        r matches Err(e) && e is InvalidOperatorResponse && new == old
    } else {
        match replay_spec(old.0, project) {
            None => r is Err && new == old,
            Some(c) => match find_current(old.0, c, id) {
                None => r matches Err(e) && e matches KnowledgeError::OperatorResponseNotFound(m) && m@ == id && new == old,
                Some(q) => {
                    let prev = current_at(old.0, c, q);
                    let cands = candidates(old.0, c, c, None);
                    let supersedes = Some(prev.id);
                    if prev.lifecycle == ResponseLifecycle::Draft {
                        &&& r matches Err(e) && e matches KnowledgeError::InvalidResponseTransition(m)
                            && m@ == "draft responses must be activated, not reaffirmed"@
                        &&& new == old
                    } else if superseded_at(old.0, c, id) {
                        &&& r matches Err(e) && e matches KnowledgeError::InvalidResponseTransition(m)
                            && m@ == "a superseded response cannot be reaffirmed"@
                        &&& new == old
                    } else if !(prev.payload is Annotation) && !governance_check(cands, current_target, prev.payload, supersedes, Ok(())) {
                        r is Err && governance_check(cands, current_target, prev.payload, supersedes, unit_of(r)) && new == old
                    } else if old.1 == u64::MAX || old.2 == u64::MAX {
                        r is Err && new == old
                    } else if !response_valid_with(
                        prev.schema_version,
                        next_response_id(old),
                        next_transaction_id(old),
                        prev.project@,
                        current_target,
                        prev.payload,
                        Some(id),
                        prev.operator,
                        created_at,
                    ) {
                        r is Err && allocated_only(old, new, true)
                    } else {
                        r matches Ok(resp) && {
                            &&& keeps_identity(resp, prev)
                            &&& resp.target == current_target
                            &&& resp.id@ == next_response_id(old)
                            &&& resp.lifecycle == ResponseLifecycle::Active
                            &&& resp.payload == prev.payload
                            &&& opt_id_view(resp.supersedes) == Some(id)
                            &&& audited(resp, old, created_at)
                            &&& put_committed(old, new, project, OperatorHistoryOperation::Reaffirm, resp, None, true)
                        }
                    }
                },
            },
        }
    }
}

/// Responses are listed by identifier.
impl crate::order::SortKey for OperatorResponse {
    open spec fn sort_key(&self) -> Seq<u32> {
        self.id.sort_key()
    }

    fn key(&self) -> (k: Vec<u32>) {
        self.id.key()
    }
}

/// How a current response is listed: as superseded when it is active and a
/// current response supersedes it, otherwise as it is.
pub open spec fn listed_as(x: OperatorResponse, resp: OperatorResponse, txs: Seq<CommittedTransaction>, cur: Seq<usize>) -> bool {
    &&& x.schema_version == resp.schema_version
    &&& x.id == resp.id
    &&& x.project == resp.project
    &&& keeps_target(x, resp)
    &&& x.operator == resp.operator
    &&& x.payload == resp.payload
    &&& x.supersedes == resp.supersedes
    &&& x.audit == resp.audit
    &&& x.lifecycle == (if resp.lifecycle == ResponseLifecycle::Active && superseded_at(txs, cur, resp.id@) {
        ResponseLifecycle::Superseded
    } else {
        resp.lifecycle
    })
}

/// `x` lists one of the current responses.
pub open spec fn lists_current(x: OperatorResponse, txs: Seq<CommittedTransaction>, cur: Seq<usize>) -> bool {
    exists|j: int| 0 <= j < cur.len() && listed_as(x, #[trigger] current_at(txs, cur, j), txs, cur)
}

/// The current response at `j` is listed in `v`.
pub open spec fn listed_in(v: Seq<OperatorResponse>, j: int, txs: Seq<CommittedTransaction>, cur: Seq<usize>) -> bool {
    exists|k: int| 0 <= k < v.len() && listed_as(#[trigger] v[k], current_at(txs, cur, j), txs, cur)
}

/// `all` lists the current responses in replay order, one for each.
pub open spec fn listed_from(all: Seq<OperatorResponse>, txs: Seq<CommittedTransaction>, cur: Seq<usize>) -> bool {
    &&& all.len() == cur.len()
    &&& forall|k: int| 0 <= k < all.len() ==> listed_as(#[trigger] all[k], current_at(txs, cur, k), txs, cur)
}

/// `v` lists the current responses, each once, by identifier.
pub open spec fn listing(v: Seq<OperatorResponse>, txs: Seq<CommittedTransaction>, cur: Seq<usize>) -> bool {
    &&& v.len() == cur.len()
    &&& exists|all: Seq<OperatorResponse>| #[trigger] listed_from(all, txs, cur) && v.to_multiset() == all.to_multiset()
    &&& crate::order::keys_sorted(v)
    &&& forall|k: int| 0 <= k < v.len() ==> lists_current(#[trigger] v[k], txs, cur)
    &&& forall|j: int| 0 <= j < cur.len() ==> #[trigger] listed_in(v, j, txs, cur)
}

/// The listing names each current response once, in strictly increasing
/// order of identifiers.
pub proof fn law_listing_ids_ascending(txs: Seq<CommittedTransaction>, cur: Seq<usize>, v: Seq<OperatorResponse>)
    requires
        listing(v, txs, cur),
        current_ids_distinct(txs, cur),
    ensures
        crate::order::keys_strictly_sorted(v),
        forall|a: int, b: int| 0 <= a < b < v.len() ==> (#[trigger] v[a]).id@ != (#[trigger] v[b]).id@,
{
    let all = choose|all: Seq<OperatorResponse>| #[trigger] listed_from(all, txs, cur) && v.to_multiset() == all.to_multiset();
    assert(all.no_duplicates()) by {
        assert forall|a: int, b: int| 0 <= a < all.len() && 0 <= b < all.len() && a != b implies all[a] != all[b] by {
            assert(listed_as(all[a], current_at(txs, cur, a), txs, cur));
            assert(listed_as(all[b], current_at(txs, cur, b), txs, cur));
            if a < b {
                assert(current_at(txs, cur, a).id@ != current_at(txs, cur, b).id@);
            } else {
                assert(current_at(txs, cur, b).id@ != current_at(txs, cur, a).id@);
            }
        }
    }
    crate::order::lemma_reorder_no_duplicates(all, v);
    v.to_multiset_ensures();
    all.to_multiset_ensures();
    assert forall|a: int, b: int| 0 <= a < b < v.len() implies (#[trigger] v[a]).id@ != (#[trigger] v[b]).id@ by {
        assert(v.contains(v[a]) && v.contains(v[b]));
        assert(v.to_multiset().count(v[a]) > 0 && v.to_multiset().count(v[b]) > 0);
        assert(all.contains(v[a]) && all.contains(v[b]));
        let x = choose|x: int| 0 <= x < all.len() && all[x] == v[a];
        let y = choose|y: int| 0 <= y < all.len() && all[y] == v[b];
        assert(listed_as(all[x], current_at(txs, cur, x), txs, cur));
        assert(listed_as(all[y], current_at(txs, cur, y), txs, cur));
        if x < y {
            assert(current_at(txs, cur, x).id@ != current_at(txs, cur, y).id@);
        } else if y < x {
            assert(current_at(txs, cur, y).id@ != current_at(txs, cur, x).id@);
        }
    }
    assert forall|a: int, b: int| 0 <= a < b < v.len() implies crate::order::key_lt(
        #[trigger] v[a].sort_key(),
        #[trigger] v[b].sort_key(),
    ) by {
        crate::order::lemma_key_lt_total(v[a].sort_key(), v[b].sort_key());
        if v[a].sort_key() == v[b].sort_key() {
            crate::order::lemma_str_key_injective(v[a].id@, v[b].id@);
        }
    }
}

/// Some listed response supersedes the identifier exactly where some current
/// response does.
proof fn lemma_superseded_listing(v: Seq<OperatorResponse>, txs: Seq<CommittedTransaction>, cur: Seq<usize>, id: Seq<char>)
    requires
        listing(v, txs, cur),
    ensures
        superseded_in(v, id) <==> superseded_at(txs, cur, id),
{
    let rs = responses_at(txs, cur);
    if superseded_in(v, id) {
        let m = choose|m: int| 0 <= m < v.len() && opt_id_view((#[trigger] v[m]).supersedes) == Some(id);
        assert(lists_current(v[m], txs, cur));
        let j = choose|j: int| 0 <= j < cur.len() && listed_as(v[m], #[trigger] current_at(txs, cur, j), txs, cur);
        assert(rs[j] == current_at(txs, cur, j));
    }
    if superseded_at(txs, cur, id) {
        let i = choose|i: int| 0 <= i < rs.len() && opt_id_view((#[trigger] rs[i]).supersedes) == Some(id);
        assert(rs[i] == current_at(txs, cur, i));
        assert(listed_in(v, i, txs, cur));
        let m = choose|m: int| 0 <= m < v.len() && listed_as(#[trigger] v[m], current_at(txs, cur, i), txs, cur);
        assert(opt_id_view(v[m].supersedes) == Some(id));
    }
}

/// How a listed response shows the lifecycle stored for it: an active one
/// as superseded exactly where some listed response supersedes it, any other
/// as stored.
pub open spec fn shown_lifecycle(x: OperatorResponse, stored: ResponseLifecycle, v: Seq<OperatorResponse>) -> bool {
    if stored == ResponseLifecycle::Active {
        x.lifecycle == (if superseded_in(v, x.id@) {
            ResponseLifecycle::Superseded
        } else {
            ResponseLifecycle::Active
        })
    } else {
        x.lifecycle == stored
    }
}

/// Each listed response is a current one, shown with its stored lifecycle
/// or, where active and superseded by a listed response, as superseded.
pub proof fn law_listing_marks_superseded(txs: Seq<CommittedTransaction>, cur: Seq<usize>, v: Seq<OperatorResponse>)
    requires
        listing(v, txs, cur),
    ensures
        forall|k: int|
            0 <= k < v.len() ==> exists|j: int|
                0 <= j < cur.len() && (#[trigger] current_at(txs, cur, j)).id == (#[trigger] v[k]).id && shown_lifecycle(
                    v[k],
                    current_at(txs, cur, j).lifecycle,
                    v,
                ),
{
    assert forall|k: int| 0 <= k < v.len() implies exists|j: int|
        0 <= j < cur.len() && (#[trigger] current_at(txs, cur, j)).id == (#[trigger] v[k]).id && shown_lifecycle(
            v[k],
            current_at(txs, cur, j).lifecycle,
            v,
        ) by {
        assert(lists_current(v[k], txs, cur));
        let j = choose|j: int| 0 <= j < cur.len() && listed_as(v[k], #[trigger] current_at(txs, cur, j), txs, cur);
        lemma_superseded_listing(v, txs, cur, v[k].id@);
        assert(shown_lifecycle(v[k], current_at(txs, cur, j).lifecycle, v));
    }
}

/// What a search of the listing for the identifier finds: the first listed
/// response with it, or none.
pub open spec fn found_in(v: Seq<OperatorResponse>, id: Seq<char>, o: Option<OperatorResponse>) -> bool {
    match o {
        Some(x) => exists|k: int|
            0 <= k < v.len() && #[trigger] v[k] == x && x.id@ == id && forall|j: int| 0 <= j < k ==> (#[trigger] v[j]).id@ != id,
        None => forall|k: int| 0 <= k < v.len() ==> (#[trigger] v[k]).id@ != id,
    }
}

/// Both list the same current response.
pub open spec fn same_current(x: OperatorResponse, y: OperatorResponse, txs: Seq<CommittedTransaction>, cur: Seq<usize>) -> bool {
    exists|j: int|
        0 <= j < cur.len() && listed_as(x, #[trigger] current_at(txs, cur, j), txs, cur) && listed_as(
            y,
            current_at(txs, cur, j),
            txs,
            cur,
        )
}

/// Two listings of one history agree response for response: the listing is
/// determined by the committed history, so asking twice without a write in
/// between gives the same responses.
pub proof fn law_listing_determined(
    txs: Seq<CommittedTransaction>,
    cur: Seq<usize>,
    v: Seq<OperatorResponse>,
    w: Seq<OperatorResponse>,
)
    requires
        listing(v, txs, cur),
        listing(w, txs, cur),
        current_ids_distinct(txs, cur),
    ensures
        v.len() == w.len(),
        forall|i: int| 0 <= i < v.len() ==> same_current(#[trigger] v[i], w[i], txs, cur),
{
    law_listing_ids_ascending(txs, cur, v);
    law_listing_ids_ascending(txs, cur, w);
    assert forall|k: Seq<u32>| crate::order::has_key(v, k) <==> crate::order::has_key(w, k) by {
        if crate::order::has_key(v, k) {
            lemma_listing_key(txs, cur, v, w, k);
        }
        if crate::order::has_key(w, k) {
            lemma_listing_key(txs, cur, w, v, k);
        }
    }
    crate::order::lemma_sorted_same_keys(v, w);
    assert forall|i: int| 0 <= i < v.len() implies same_current(#[trigger] v[i], w[i], txs, cur) by {
        assert(v[i].sort_key() == w[i].sort_key());
        crate::order::lemma_str_key_injective(v[i].id@, w[i].id@);
        assert(lists_current(v[i], txs, cur));
        assert(lists_current(w[i], txs, cur));
        let a = choose|a: int| 0 <= a < cur.len() && listed_as(v[i], #[trigger] current_at(txs, cur, a), txs, cur);
        let b = choose|b: int| 0 <= b < cur.len() && listed_as(w[i], #[trigger] current_at(txs, cur, b), txs, cur);
        if a < b {
            assert(current_at(txs, cur, a).id@ != current_at(txs, cur, b).id@);
        } else if b < a {
            assert(current_at(txs, cur, b).id@ != current_at(txs, cur, a).id@);
        }
        assert(listed_as(w[i], current_at(txs, cur, a), txs, cur));
    }
}

proof fn lemma_listing_key(
    txs: Seq<CommittedTransaction>,
    cur: Seq<usize>,
    v: Seq<OperatorResponse>,
    w: Seq<OperatorResponse>,
    k: Seq<u32>,
)
    requires
        listing(v, txs, cur),
        listing(w, txs, cur),
        crate::order::has_key(v, k),
    ensures
        crate::order::has_key(w, k),
{
    let i = choose|i: int| 0 <= i < v.len() && #[trigger] v[i].sort_key() == k;
    assert(lists_current(v[i], txs, cur));
    let j = choose|j: int| 0 <= j < cur.len() && listed_as(v[i], #[trigger] current_at(txs, cur, j), txs, cur);
    assert(listed_in(w, j, txs, cur));
    let m = choose|m: int| 0 <= m < w.len() && listed_as(#[trigger] w[m], current_at(txs, cur, j), txs, cur);
    assert(w[m].sort_key() == k);
}

/// The history entry of a transaction.
pub open spec fn entry_of(e: OperatorResponseHistoryEntry, t: CommittedTransaction) -> bool {
    &&& e.transaction_id@ == t.transaction_id@
    &&& e.operation == t.operation
    &&& t.mutation is Put ==> (e.response matches Some(x) && same_response(x, t.revision->0))
    &&& t.mutation is DeleteDraft ==> e.response is None
}

/// A committed put is what a replay then holds for its response: it replaces
/// the current revision it expected, or is added where it expected none.
pub proof fn law_put_becomes_current(
    old: (Seq<CommittedTransaction>, u64, u64),
    new: (Seq<CommittedTransaction>, u64, u64),
    project: Seq<char>,
    operation: OperatorHistoryOperation,
    response: OperatorResponse,
    expected: Option<Seq<char>>,
    allocates_response: bool,
)
    requires
        put_committed(old, new, project, operation, response, expected, allocates_response),
        new.0.len() <= usize::MAX,
        response.valid(),
        response.project@ == project,
        response.audit.transaction_id@ == next_transaction_id(old),
        replay_spec(old.0, project) is Some,
        expected == (match find_current(old.0, replay_spec(old.0, project)->0, response.id@) {
            Some(q) => Some(old.0[replay_spec(old.0, project)->0[q] as int].transaction_id@),
            None => None,
        }),
    ensures
        ({
            let c = replay_spec(old.0, project)->0;
            let n = old.0.len() as usize;
            replay_spec(new.0, project) == Some(match find_current(old.0, c, response.id@) {
                Some(q) => c.update(q, n),
                None => c.push(n),
            })
        }),
        same_response(new.0[old.0.len() as int].revision->0, response),
{
    let n = old.0.len();
    let c = replay_spec(old.0, project)->0;
    assert forall|j: int| 0 <= j < n implies old.0[j] == new.0[j] by {
        assert(new.0.drop_last()[j] == new.0[j]);
    }
    lemma_replay_prefix_stable(old.0, new.0, n, project);
    lemma_replay_refs(old.0, n, project);
    assert forall|i: int| 0 <= i < c.len() implies old.0[#[trigger] c[i] as int] == new.0[c[i] as int] by {
        assert(c[i] < n);
    }
    let t = new.0[n as int];
    assert(t == new.0.last());
    lemma_find_stable(old.0, new.0, c, response.id@);
    lemma_find_found(old.0, c, response.id@);
    if let Some(q) = find_current(old.0, c, response.id@) {
        assert(old.0[c[q] as int] == new.0[c[q] as int]);
    }
    assert(mutation_id(t.mutation)@ == response.id@);
    assert(revision_fits(t, project));
    assert(replay_spec(new.0, project) == replay_step(new.0, c, n as int, project));
}

/// Deleting a draft takes it out of the current responses and nothing else.
pub proof fn law_deleted_draft_leaves_current(
    old: (Seq<CommittedTransaction>, u64, u64),
    new: (Seq<CommittedTransaction>, u64, u64),
    project: Seq<char>,
    id: Seq<char>,
    r: Result<(), KnowledgeError>,
)
    requires
        delete_outcome(old, new, project, id, r),
        r is Ok,
        new.0.len() <= usize::MAX,
    ensures
        replay_spec(old.0, project) matches Some(c) && find_current(old.0, c, id) matches Some(q)
            && replay_spec(new.0, project) == Some(c.remove(q)),
{
    let n = old.0.len();
    let c = replay_spec(old.0, project)->0;
    assert forall|j: int| 0 <= j < n implies old.0[j] == new.0[j] by {
        assert(new.0.drop_last()[j] == new.0[j]);
    }
    lemma_replay_prefix_stable(old.0, new.0, n, project);
    lemma_replay_refs(old.0, n, project);
    assert forall|i: int| 0 <= i < c.len() implies old.0[#[trigger] c[i] as int] == new.0[c[i] as int] by {
        assert(c[i] < n);
    }
    lemma_find_stable(old.0, new.0, c, id);
    lemma_find_found(old.0, c, id);
    let q = find_current(old.0, c, id)->0;
    assert(old.0[c[q] as int] == new.0[c[q] as int]);
    assert(new.0[n as int] == new.0.last());
    assert(replay_spec(new.0, project) == replay_step(new.0, c, n as int, project));
}

/// A created response, under an identifier not already current, is then
/// current: replay holds it after the responses that were current before.
pub proof fn law_created_response_is_current(
    old: (Seq<CommittedTransaction>, u64, u64),
    new: (Seq<CommittedTransaction>, u64, u64),
    request: NewOperatorResponse,
    created_at: Seq<char>,
    r: Result<OperatorResponse, KnowledgeError>,
)
    requires
        create_outcome(old, new, request, created_at, r),
        r is Ok,
        new.0.len() <= usize::MAX,
        replay_spec(old.0, request.project@) matches Some(c) && find_current(old.0, c, next_response_id(old)) is None,
    ensures
        replay_spec(new.0, request.project@) == Some(replay_spec(old.0, request.project@)->0.push(old.0.len() as usize)),
        same_response(
            current_at(new.0, replay_spec(new.0, request.project@)->0, replay_spec(old.0, request.project@)->0.len() as int),
            r->Ok_0,
        ),
{
    let resp = r->Ok_0;
    assert(resp.valid());
    law_put_becomes_current(old, new, request.project@, OperatorHistoryOperation::Create, resp, None, true);
}

/// Retiring or withdrawing keeps the old response current and superseded by
/// the new one, which is current too where its identifier is new.
pub proof fn law_transition_supersedes_and_keeps(
    old: (Seq<CommittedTransaction>, u64, u64),
    new: (Seq<CommittedTransaction>, u64, u64),
    project: Seq<char>,
    id: Seq<char>,
    lifecycle: ResponseLifecycle,
    operation: OperatorHistoryOperation,
    created_at: Seq<char>,
    r: Result<OperatorResponse, KnowledgeError>,
)
    requires
        transition_outcome(old, new, project, id, lifecycle, operation, created_at, r),
        r is Ok,
        new.0.len() <= usize::MAX,
        replay_spec(old.0, project) matches Some(c) && find_current(old.0, c, next_response_id(old)) is None,
    ensures
        replay_spec(new.0, project) matches Some(c2) && {
            &&& find_current(new.0, c2, id) == find_current(old.0, replay_spec(old.0, project)->0, id)
            &&& find_current(new.0, c2, id) is Some
            &&& superseded_at(new.0, c2, id)
        },
{
    let resp = r->Ok_0;
    let c = replay_spec(old.0, project)->0;
    let n = old.0.len();
    assert(resp.valid());
    lemma_replay_refs(old.0, n, project);
    lemma_find_found(old.0, c, id);
    law_put_becomes_current(old, new, project, operation, resp, None, true);
    let c2 = c.push(n as usize);
    assert forall|i: int| 0 <= i < c.len() implies old.0[#[trigger] c[i] as int] == new.0[c[i] as int] by {
        assert(c[i] < n);
        assert(new.0.drop_last()[c[i] as int] == new.0[c[i] as int]);
    }
    lemma_find_stable(old.0, new.0, c, id);
    assert(c2.drop_last() =~= c);
    let rs = responses_at(new.0, c2);
    assert(rs[c.len() as int] == new.0[n as int].revision->0);
    assert(new.0[n as int] == new.0.last());
    assert(opt_id_view(rs[c.len() as int].supersedes) == Some(id));
}

/// Reaffirming keeps the old response current and superseded by the new one,
/// which is current too where its identifier is new.
pub proof fn law_reaffirmation_supersedes_and_keeps(
    old: (Seq<CommittedTransaction>, u64, u64),
    new: (Seq<CommittedTransaction>, u64, u64),
    project: Seq<char>,
    id: Seq<char>,
    current_target: OperatorTargetBinding,
    created_at: Seq<char>,
    r: Result<OperatorResponse, KnowledgeError>,
)
    requires
        reaffirm_outcome(old, new, project, id, current_target, created_at, r),
        r is Ok,
        new.0.len() <= usize::MAX,
        replay_spec(old.0, project) matches Some(c) && find_current(old.0, c, next_response_id(old)) is None,
    ensures
        replay_spec(new.0, project) matches Some(c2) && {
            &&& find_current(new.0, c2, id) == find_current(old.0, replay_spec(old.0, project)->0, id)
            &&& find_current(new.0, c2, id) is Some
            &&& superseded_at(new.0, c2, id)
        },
{
    let resp = r->Ok_0;
    let c = replay_spec(old.0, project)->0;
    let n = old.0.len();
    assert(resp.valid());
    lemma_replay_refs(old.0, n, project);
    lemma_find_found(old.0, c, id);
    law_put_becomes_current(old, new, project, OperatorHistoryOperation::Reaffirm, resp, None, true);
    let c2 = c.push(n as usize);
    assert forall|i: int| 0 <= i < c.len() implies old.0[#[trigger] c[i] as int] == new.0[c[i] as int] by {
        assert(c[i] < n);
        assert(new.0.drop_last()[c[i] as int] == new.0[c[i] as int]);
    }
    lemma_find_stable(old.0, new.0, c, id);
    assert(c2.drop_last() =~= c);
    let rs = responses_at(new.0, c2);
    assert(rs[c.len() as int] == new.0[n as int].revision->0);
    assert(new.0[n as int] == new.0.last());
    assert(opt_id_view(rs[c.len() as int].supersedes) == Some(id));
}

/// The namespace a relationship or claim belongs to: `None` for the global one.
pub open spec fn namespace_view(n: KnowledgeNamespace) -> Option<Seq<char>> {
    match n {
        KnowledgeNamespace::Global => None,
        KnowledgeNamespace::Project(p) => Some(p@),
    }
}

fn same_namespace(a: &KnowledgeNamespace, b: &KnowledgeNamespace) -> (r: bool)
    ensures
        r == (namespace_view(*a) == namespace_view(*b)),
{
    match (a, b) {
        (KnowledgeNamespace::Global, KnowledgeNamespace::Global) => true,
        (KnowledgeNamespace::Project(x), KnowledgeNamespace::Project(y)) => str_eq(x.as_str(), y.as_str()),
        _ => false,
    }
}

pub open spec fn relationship_tag(t: RelationshipType) -> u32 {
    match t {
        RelationshipType::CreatedBy => 0,
        RelationshipType::Supports => 1,
        RelationshipType::DependsOn => 2,
        RelationshipType::VerifiedBy => 3,
        RelationshipType::InvalidatedBy => 4,
        RelationshipType::RelatedTo => 5,
        RelationshipType::DerivedFrom => 6,
    }
}

/// Relationships are listed by source, type, then target.
impl crate::order::SortKey for KnowledgeRelationship {
    open spec fn sort_key(&self) -> Seq<u32> {
        crate::order::str_key(self.from@) + seq![relationship_tag(self.relationship)] + crate::order::str_key(self.to@)
    }

    fn key(&self) -> (k: Vec<u32>) {
        let mut k = Vec::new();
        crate::order::push_str_key(&mut k, self.from.as_str());
        k.push(match self.relationship {
            RelationshipType::CreatedBy => 0,
            RelationshipType::Supports => 1,
            RelationshipType::DependsOn => 2,
            RelationshipType::VerifiedBy => 3,
            RelationshipType::InvalidatedBy => 4,
            RelationshipType::RelatedTo => 5,
            RelationshipType::DerivedFrom => 6,
        });
        crate::order::push_str_key(&mut k, self.to.as_str());
        assert(k@ =~= self.sort_key());
        k
    }
}

/// The default store directory under a home directory.
pub open spec fn default_root(home: Seq<char>) -> Seq<char> {
    home + "/.astra/knowledge"@
}

/// Calls `dirs::home_dir`. Trusted for nothing: the home directory depends on
/// the environment, and may be absent.
#[verifier::external_body]
fn home_dir() -> (r: Option<String>) {
    dirs::home_dir().map(|p| p.to_string_lossy().into_owned())
}

/// A character of an RFC 3339 timestamp as chrono writes it: a digit, a sign,
/// the date and time separators, or the fraction's point.
pub open spec fn timestamp_char(c: char) -> bool {
    ('0' <= c && c <= '9') || c == '-' || c == '+' || c == 'T' || c == ':' || c == '.'
}

/// A short, non-empty text of timestamp characters.
pub open spec fn timestamp_text(s: Seq<char>) -> bool {
    &&& 0 < s.len() <= 64
    &&& forall|i: int| 0 <= i < s.len() ==> timestamp_char(#[trigger] s[i])
}

/// Calls `chrono::Utc::now` and formats it with `to_rfc3339`. Trusted: the
/// text is what chrono's RFC 3339 writer produces, the year (signed only
/// outside 0..=9999), `-`, month, `-`, day, `T`, hours, `:`, minutes, `:`,
/// seconds, an optional `.` and fraction, and the offset `+00:00`; so at most
/// 64 characters, each a digit, `-`, `+`, `T`, `:` or `.`. Which time it
/// gives is the clock's and is not stated.
#[verifier::external_body]
pub(crate) fn now_rfc3339() -> (r: String)
    ensures
        timestamp_text(r@),
{
    chrono::Utc::now().to_rfc3339()
}

/// A timestamp text is a valid identifier: not blank, short, without control
/// characters or paths.
pub proof fn lemma_timestamp_valid(s: Seq<char>)
    requires
        timestamp_text(s),
    ensures
        identifier_valid(s),
{
    assert(vstd::utf8::is_ascii_chars(s)) by {
        assert forall|i: int| 0 <= i < s.len() implies '\0' <= #[trigger] s[i] <= '\u{7f}' by {
            assert(timestamp_char(s[i]));
        }
    }
    vstd::utf8::is_ascii_chars_encode_utf8(s);
    let b = vstd::utf8::encode_utf8(s);
    assert(timestamp_char(s[0]));
    assert(!crate::text::is_blank(s));
    assert(!crate::text::has_control(s)) by {
        assert forall|i: int| 0 <= i < s.len() implies !crate::text::is_control(#[trigger] s[i]) by {
            assert(timestamp_char(s[i]));
        }
    }
    assert(!crate::text::contains(s, " /"@)) by {
        reveal_strlit(" /");
        if crate::text::contains(s, " /"@) {
            let at = choose|at: int| crate::text::occurs_at(s, " /"@, at);
            assert(" /"@.len() == 2);
            assert(s.subrange(at, at + 2) == " /"@);
            assert(s.subrange(at, at + 2)[0] == " /"@[0]);
            assert(" /"@[0] == ' ');
            assert(s[at] == ' ');
            assert(timestamp_char(s[at]));
        }
    }
    assert(!crate::knowledge::operator::has_drive_path(b)) by {
        if crate::knowledge::operator::has_drive_path(b) {
            let i = choose|i: int| 0 <= i && i + 2 < b.len() && crate::knowledge::operator::is_ascii_alpha_byte(#[trigger] b[i]) && b[i + 1] == 58 && b[i + 2] == 92;
            assert(s[i + 2] as u8 == b[i + 2]);
            assert(timestamp_char(s[i + 2]));
        }
    }
}

/// The namespace can hold knowledge: the global one, or a project whose name
/// is one safe path component.
pub open spec fn namespace_ok(ns: KnowledgeNamespace) -> bool {
    match ns {
        KnowledgeNamespace::Global => true,
        KnowledgeNamespace::Project(p) => project_name_ok(p@),
    }
}

/// Checks a namespace; a project name that is not safe is refused.
pub fn validate_namespace(ns: &KnowledgeNamespace) -> (r: Result<(), KnowledgeError>)
    ensures
        r is Ok <==> namespace_ok(*ns),
        r matches Err(e) ==> ns matches KnowledgeNamespace::Project(p) && e matches KnowledgeError::InvalidProjectName(m)
            && m@ == p@,
{
    match ns {
        KnowledgeNamespace::Global => Ok(()),
        KnowledgeNamespace::Project(p) => validate_project_name(p.as_str()),
    }
}

fn copy_namespace(ns: &KnowledgeNamespace) -> (r: KnowledgeNamespace)
    ensures
        r == *ns,
{
    match ns {
        KnowledgeNamespace::Global => KnowledgeNamespace::Global,
        KnowledgeNamespace::Project(p) => KnowledgeNamespace::Project(p.clone()),
    }
}

/// A stored claim is the one of this namespace, category and identifier.
pub open spec fn claim_key_is(
    e: (KnowledgeNamespace, KnowledgeClaim),
    ns: Option<Seq<char>>,
    category: KnowledgeCategory,
    id: Seq<char>,
) -> bool {
    namespace_view(e.0) == ns && e.1.category == category && e.1.id@ == id
}

/// The claim stored under a namespace, category and identifier.
pub closed spec fn claim_at_of(
    claims: Seq<(KnowledgeNamespace, KnowledgeClaim)>,
    ns: Option<Seq<char>>,
    category: KnowledgeCategory,
    id: Seq<char>,
) -> Option<KnowledgeClaim> {
    if exists|i: int| 0 <= i < claims.len() && claim_key_is(#[trigger] claims[i], ns, category, id) {
        Some(claims[choose|i: int| 0 <= i < claims.len() && claim_key_is(#[trigger] claims[i], ns, category, id)].1)
    } else {
        None
    }
}

/// No two stored claims share a namespace, category and identifier.
#[verifier::opaque]
pub closed spec fn claims_unique(claims: Seq<(KnowledgeNamespace, KnowledgeClaim)>) -> bool {
    forall|i: int, j: int|
        0 <= i < j < claims.len() ==> !claim_key_is(
            #[trigger] claims[i],
            namespace_view(#[trigger] claims[j].0),
            claims[j].1.category,
            claims[j].1.id@,
        )
}

proof fn lemma_claim_at_of_index(claims: Seq<(KnowledgeNamespace, KnowledgeClaim)>, i: int)
    requires
        claims_unique(claims),
        0 <= i < claims.len(),
    ensures
        claim_at_of(claims, namespace_view(claims[i].0), claims[i].1.category, claims[i].1.id@) == Some(claims[i].1),
{
    reveal(claims_unique);
    let ns = namespace_view(claims[i].0);
    let cat = claims[i].1.category;
    let id = claims[i].1.id@;
    assert(claim_key_is(claims[i], ns, cat, id));
    let k = choose|k: int| 0 <= k < claims.len() && claim_key_is(#[trigger] claims[k], ns, cat, id);
    if k < i {
        assert(!claim_key_is(claims[k], namespace_view(claims[i].0), claims[i].1.category, claims[i].1.id@));
    } else if k > i {
        assert(!claim_key_is(claims[i], namespace_view(claims[k].0), claims[k].1.category, claims[k].1.id@));
    }
}

/// The claim is selected by the category filter.
pub open spec fn category_selected(filter: Option<KnowledgeCategory>, k: KnowledgeCategory) -> bool {
    match filter {
        Some(c) => k == c,
        None => true,
    }
}

/// A stored claim of the namespace, selected by the filter, of which `c` is a copy.
pub open spec fn stored_as(
    e: (KnowledgeNamespace, KnowledgeClaim),
    ns: Option<Seq<char>>,
    filter: Option<KnowledgeCategory>,
    c: KnowledgeClaim,
) -> bool {
    namespace_view(e.0) == ns && category_selected(filter, e.1.category) && same_claim(e.1, c)
}

/// One of the stored claims is one `c` copies.
pub open spec fn holds_copy(
    claims: Seq<(KnowledgeNamespace, KnowledgeClaim)>,
    ns: Option<Seq<char>>,
    filter: Option<KnowledgeCategory>,
    c: KnowledgeClaim,
) -> bool {
    exists|j: int| 0 <= j < claims.len() && #[trigger] stored_as(claims[j], ns, filter, c)
}

/// Claims with the same sort key have the same category and identifier.
proof fn lemma_claim_key_injective(a: KnowledgeClaim, b: KnowledgeClaim)
    requires
        a.sort_key() == b.sort_key(),
    ensures
        a.category == b.category,
        a.id@ == b.id@,
{
    assert(a.sort_key()[0] == category_tag(a.category));
    assert(b.sort_key()[0] == category_tag(b.category));
    assert(a.sort_key().skip(1) =~= crate::order::str_key(a.id@));
    assert(b.sort_key().skip(1) =~= crate::order::str_key(b.id@));
    crate::order::lemma_str_key_injective(a.id@, b.id@);
}

/// The text of the error a claim issue becomes.
pub open spec fn issue_message(i: ClaimIssue) -> Seq<char> {
    match i {
        ClaimIssue::Sensitive(p) => "knowledge claim contains a sensitive field: "@ + p,
        ClaimIssue::Invalid(m) => "invalid knowledge claim: "@ + m,
    }
}

proof fn lemma_issue_message(e: KnowledgeError)
    requires
        issue_of(e) is Some,
    ensures
        e.message_spec() == issue_message(issue_of(e)->0),
{
}

/// The categories in the order a claim is looked up by identifier.
pub open spec fn category_at(i: int) -> KnowledgeCategory {
    if i == 0 {
        KnowledgeCategory::Fact
    } else if i == 1 {
        KnowledgeCategory::Decision
    } else if i == 2 {
        KnowledgeCategory::Verification
    } else {
        KnowledgeCategory::Goal
    }
}

fn category_of_index(i: usize) -> (r: KnowledgeCategory)
    ensures
        r == category_at(i as int),
{
    if i == 0 {
        KnowledgeCategory::Fact
    } else if i == 1 {
        KnowledgeCategory::Decision
    } else if i == 2 {
        KnowledgeCategory::Verification
    } else {
        KnowledgeCategory::Goal
    }
}

pub open spec fn category_tag(c: KnowledgeCategory) -> u32 {
    match c {
        KnowledgeCategory::Fact => 0,
        KnowledgeCategory::Decision => 1,
        KnowledgeCategory::Verification => 2,
        KnowledgeCategory::Goal => 3,
    }
}

/// Claims are listed by category, then identifier.
impl SortKey for KnowledgeClaim {
    open spec fn sort_key(&self) -> Seq<u32> {
        seq![category_tag(self.category)] + crate::order::str_key(self.id@)
    }

    fn key(&self) -> (k: Vec<u32>) {
        let mut k: Vec<u32> = Vec::new();
        k.push(
            match self.category {
                KnowledgeCategory::Fact => 0,
                KnowledgeCategory::Decision => 1,
                KnowledgeCategory::Verification => 2,
                KnowledgeCategory::Goal => 3,
            },
        );
        crate::order::push_str_key(&mut k, self.id.as_str());
        assert(k@ =~= self.sort_key());
        k
    }
}

proof fn lemma_has_text_push(v: Seq<String>, x: String)
    ensures
        forall|p: Seq<char>| crate::text::has_text(v, p) ==> #[trigger] crate::text::has_text(v.push(x), p),
        crate::text::has_text(v.push(x), x@),
{
    assert forall|p: Seq<char>| crate::text::has_text(v, p) implies #[trigger] crate::text::has_text(v.push(x), p) by {
        let k = choose|k: int| 0 <= k < v.len() && #[trigger] v[k]@ == p;
        assert(v.push(x)[k] == v[k]);
    }
    assert(v.push(x)[v.len() as int] == x);
}

/// The knowledge store of one root: the claims and the relationships of each
/// namespace, and the operator ledger of each project.
pub struct KnowledgeStore {
    root: String,
    claims: Vec<(KnowledgeNamespace, KnowledgeClaim)>,
    relationships: Vec<(KnowledgeNamespace, KnowledgeRelationship)>,
    ledgers: Vec<OperatorLedger>,
}

/// A relationship of the namespace, as stored.
pub open spec fn relationship_in(
    rels: Seq<(KnowledgeNamespace, KnowledgeRelationship)>,
    ns: Option<Seq<char>>,
    r: KnowledgeRelationship,
) -> bool {
    exists|i: int| 0 <= i < rels.len() && namespace_view((#[trigger] rels[i]).0) == ns && same_relationship(rels[i].1, r)
}

/// Two relationships with the same endpoints and type.
pub open spec fn same_relationship(a: KnowledgeRelationship, b: KnowledgeRelationship) -> bool {
    a.from@ == b.from@ && a.relationship == b.relationship && a.to@ == b.to@
}

/// The store after adding the relationship: unchanged where the namespace
/// already held it, holding it in any case, with the same claims.
pub open spec fn relationship_added(
    a: KnowledgeStore,
    b: KnowledgeStore,
    ns: Option<Seq<char>>,
    rel: KnowledgeRelationship,
) -> bool {
    &&& (relationship_in(a.relationships_spec(), ns, rel) ==> b == a)
    &&& relationship_in(b.relationships_spec(), ns, rel)
    &&& b.claims_spec() == a.claims_spec()
}

/// A listing of a namespace's relationships: sorted, each one the store
/// holds there, every one it holds there, none twice.
#[verifier::opaque]
pub open spec fn relationship_listing(s: KnowledgeStore, ns: Option<Seq<char>>, v: Seq<KnowledgeRelationship>) -> bool {
    &&& crate::order::keys_sorted(v)
    &&& forall|i: int| 0 <= i < v.len() ==> relationship_in(s.relationships_spec(), ns, #[trigger] v[i])
    &&& forall|j: int|
        0 <= j < s.relationships_spec().len() && namespace_view((#[trigger] s.relationships_spec()[j]).0) == ns
            ==> exists|i: int| 0 <= i < v.len() && same_relationship(#[trigger] v[i], s.relationships_spec()[j].1)
    &&& forall|a: int, b: int| 0 <= a < b < v.len() ==> !same_relationship(#[trigger] v[a], #[trigger] v[b])
}

/// Adding a relationship twice is adding it once: its endpoints are still
/// stored for the second addition, which leaves the store as the first left it.
pub proof fn law_add_relationship_idempotent(
    a: KnowledgeStore,
    b: KnowledgeStore,
    c: KnowledgeStore,
    ns: Option<Seq<char>>,
    rel: KnowledgeRelationship,
)
    requires
        relationship_added(a, b, ns, rel),
        relationship_added(b, c, ns, rel),
        a.claim_known(ns, rel.from@),
        a.claim_known(ns, rel.to@),
    ensures
        b.claim_known(ns, rel.from@),
        b.claim_known(ns, rel.to@),
        c == b,
{
    assert(b.claims@ == a.claims@);
}

/// Relationships with one key are the same relationship.
proof fn lemma_relationship_key(a: KnowledgeRelationship, b: KnowledgeRelationship)
    requires
        a.sort_key() == b.sort_key(),
    ensures
        same_relationship(a, b),
{
    let ra = seq![relationship_tag(a.relationship)] + crate::order::str_key(a.to@);
    let rb = seq![relationship_tag(b.relationship)] + crate::order::str_key(b.to@);
    assert(a.sort_key() =~= crate::order::str_key(a.from@) + ra);
    assert(b.sort_key() =~= crate::order::str_key(b.from@) + rb);
    crate::order::lemma_str_key_split(a.from@, b.from@, ra, rb);
    assert(ra[0] == rb[0]);
    assert(ra.skip(1) =~= crate::order::str_key(a.to@));
    assert(rb.skip(1) =~= crate::order::str_key(b.to@));
    crate::order::lemma_str_key_injective(a.to@, b.to@);
}

/// Two listings of one namespace of one store agree relationship for
/// relationship: the listing is determined by the store.
pub proof fn law_relationship_listing_determined(
    s: KnowledgeStore,
    ns: Option<Seq<char>>,
    v: Seq<KnowledgeRelationship>,
    w: Seq<KnowledgeRelationship>,
)
    requires
        relationship_listing(s, ns, v),
        relationship_listing(s, ns, w),
    ensures
        v.len() == w.len(),
        forall|i: int| 0 <= i < v.len() ==> same_relationship(#[trigger] v[i], w[i]),
{
    lemma_listing_strict(s, ns, v);
    lemma_listing_strict(s, ns, w);
    assert forall|k: Seq<u32>| crate::order::has_key(v, k) <==> crate::order::has_key(w, k) by {
        if crate::order::has_key(v, k) {
            lemma_listing_key_in(s, ns, v, w, k);
        }
        if crate::order::has_key(w, k) {
            lemma_listing_key_in(s, ns, w, v, k);
        }
    }
    crate::order::lemma_sorted_same_keys(v, w);
    assert forall|i: int| 0 <= i < v.len() implies same_relationship(#[trigger] v[i], w[i]) by {
        lemma_relationship_key(v[i], w[i]);
    }
}

proof fn lemma_listing_strict(s: KnowledgeStore, ns: Option<Seq<char>>, v: Seq<KnowledgeRelationship>)
    requires
        relationship_listing(s, ns, v),
    ensures
        crate::order::keys_strictly_sorted(v),
{
    reveal(relationship_listing);
    assert forall|i: int, j: int| 0 <= i < j < v.len() implies crate::order::key_lt(
        #[trigger] v[i].sort_key(),
        #[trigger] v[j].sort_key(),
    ) by {
        crate::order::lemma_key_lt_total(v[i].sort_key(), v[j].sort_key());
        if v[i].sort_key() == v[j].sort_key() {
            lemma_relationship_key(v[i], v[j]);
        }
    }
}

proof fn lemma_listing_intro(s: KnowledgeStore, ns: Option<Seq<char>>, v: Seq<KnowledgeRelationship>)
    requires
        crate::order::keys_sorted(v),
        forall|i: int| 0 <= i < v.len() ==> relationship_in(s.relationships_spec(), ns, #[trigger] v[i]),
        forall|j: int|
            0 <= j < s.relationships_spec().len() && namespace_view((#[trigger] s.relationships_spec()[j]).0) == ns
                ==> exists|i: int| 0 <= i < v.len() && same_relationship(#[trigger] v[i], s.relationships_spec()[j].1),
        forall|a: int, b: int| 0 <= a < b < v.len() ==> !same_relationship(#[trigger] v[a], #[trigger] v[b]),
    ensures
        relationship_listing(s, ns, v),
{
    reveal(relationship_listing);
}

proof fn lemma_same_key(a: KnowledgeRelationship, b: KnowledgeRelationship)
    requires
        same_relationship(a, b),
    ensures
        a.sort_key() == b.sort_key(),
{
}

proof fn lemma_listing_key_in(
    s: KnowledgeStore,
    ns: Option<Seq<char>>,
    v: Seq<KnowledgeRelationship>,
    w: Seq<KnowledgeRelationship>,
    k: Seq<u32>,
)
    requires
        relationship_listing(s, ns, v),
        relationship_listing(s, ns, w),
        crate::order::has_key(v, k),
    ensures
        crate::order::has_key(w, k),
{
    reveal(relationship_listing);
    let rels = s.relationships_spec();
    let i = choose|i: int| 0 <= i < v.len() && #[trigger] v[i].sort_key() == k;
    assert(relationship_in(rels, ns, v[i]));
    let j = choose|j: int| 0 <= j < rels.len() && namespace_view((#[trigger] rels[j]).0) == ns && same_relationship(rels[j].1, v[i]);
    assert(exists|m: int| 0 <= m < w.len() && same_relationship(#[trigger] w[m], rels[j].1));
    let m = choose|m: int| 0 <= m < w.len() && same_relationship(#[trigger] w[m], rels[j].1);
    lemma_same_key(w[m], v[i]);
    assert(w[m].sort_key() == k);
}

/// No relationship is held twice in one namespace.
pub open spec fn relationships_unique(rels: Seq<(KnowledgeNamespace, KnowledgeRelationship)>) -> bool {
    forall|i: int, j: int|
        0 <= i < j < rels.len() ==> !(namespace_view((#[trigger] rels[i]).0) == namespace_view((#[trigger] rels[j]).0)
            && same_relationship(rels[i].1, rels[j].1))
}

impl KnowledgeStore {
    pub closed spec fn root_spec(&self) -> Seq<char> {
        self.root@
    }

    /// The claim stored under a namespace, category and identifier.
    pub closed spec fn claim_at(&self, ns: Option<Seq<char>>, category: KnowledgeCategory, id: Seq<char>) -> Option<
        KnowledgeClaim,
    > {
        claim_at_of(self.claims@, ns, category, id)
    }

    /// The claim an identifier finds in a namespace: the first category that
    /// holds it, in the order facts, decisions, verifications, goals.
    pub open spec fn first_claim(&self, ns: Option<Seq<char>>, id: Seq<char>) -> Option<KnowledgeClaim> {
        if self.claim_at(ns, KnowledgeCategory::Fact, id) is Some {
            self.claim_at(ns, KnowledgeCategory::Fact, id)
        } else if self.claim_at(ns, KnowledgeCategory::Decision, id) is Some {
            self.claim_at(ns, KnowledgeCategory::Decision, id)
        } else if self.claim_at(ns, KnowledgeCategory::Verification, id) is Some {
            self.claim_at(ns, KnowledgeCategory::Verification, id)
        } else {
            self.claim_at(ns, KnowledgeCategory::Goal, id)
        }
    }

    pub open spec fn claim_known(&self, ns: Option<Seq<char>>, id: Seq<char>) -> bool {
        self.first_claim(ns, id) is Some
    }

    /// Each claim is stored once per namespace, category and identifier, in a
    /// namespace that can hold it.
    pub closed spec fn claims_wf(&self) -> bool {
        &&& claims_unique(self.claims@)
        &&& forall|i: int| 0 <= i < self.claims@.len() ==> namespace_ok(#[trigger] self.claims@[i].0)
    }

    pub closed spec fn claims_spec(&self) -> Seq<(KnowledgeNamespace, KnowledgeClaim)> {
        self.claims@
    }

    pub closed spec fn relationships_spec(&self) -> Seq<(KnowledgeNamespace, KnowledgeRelationship)> {
        self.relationships@
    }

    /// One ledger per project, each in commit order; each claim once.
    pub closed spec fn wf(&self) -> bool {
        &&& self.claims_wf()
        &&& relationships_unique(self.relationships@)
        &&& forall|i: int| 0 <= i < self.ledgers@.len() ==> ledger_wf(#[trigger] self.ledgers@[i])
        &&& forall|i: int, j: int| 0 <= i < j < self.ledgers@.len()
            ==> (#[trigger] self.ledgers@[i]).project@ != (#[trigger] self.ledgers@[j]).project@
    }

    /// The ledger kept for a project.
    pub closed spec fn ledger_of(&self, project: Seq<char>) -> Option<OperatorLedger> {
        if exists|i: int| 0 <= i < self.ledgers@.len() && (#[trigger] self.ledgers@[i]).project@ == project {
            Some(self.ledgers@[choose|i: int| 0 <= i < self.ledgers@.len() && (#[trigger] self.ledgers@[i]).project@ == project])
        } else {
            None
        }
    }

    /// A project's committed history and sequence counters; a project with no
    /// ledger has none.
    pub open spec fn model_of(&self, project: Seq<char>) -> (Seq<CommittedTransaction>, u64, u64) {
        match self.ledger_of(project) {
            Some(l) => l.model(),
            None => (Seq::empty(), 0, 0),
        }
    }

    /// The project's current responses: for each, the index in its history of
    /// the transaction that wrote it.
    pub open spec fn current_of(&self, project: Seq<char>) -> Option<Seq<usize>> {
        replay_spec(self.model_of(project).0, project)
    }

    /// Everything but the named project's ledger is as in `other`.
    pub closed spec fn same_except(&self, other: &Self, project: Seq<char>) -> bool {
        &&& self.root == other.root
        &&& self.claims@ == other.claims@
        &&& self.relationships@ == other.relationships@
        &&& forall|q: Seq<char>| q != project ==> #[trigger] self.ledger_of(q) == other.ledger_of(q)
    }

    /// Removes the project's ledger, or makes an empty one.
    fn take_ledger(&mut self, project: &str) -> (l: OperatorLedger)
        requires
            old(self).wf(),
        ensures
            final(self).wf(),
            l.project@ == project@,
            ledger_wf(l),
            l.model() == old(self).model_of(project@),
            final(self).ledger_of(project@) is None,
            final(self).same_except(old(self), project@),
    {
        let ghost before = self.ledgers@;
        let mut i: usize = 0;
        while i < self.ledgers.len()
            invariant
                i <= self.ledgers@.len(),
                *self == *old(self),
                self.ledgers@ == before,
                old(self).wf(),
                forall|j: int| 0 <= j < i ==> (#[trigger] self.ledgers@[j]).project@ != project@,
            decreases self.ledgers@.len() - i,
        {
            if str_eq(self.ledgers[i].project.as_str(), project) {
                let l = self.ledgers.remove(i);
                proof {
                    assert(old(self).ledger_of(project@) == Some(l)) by {
                        let k = choose|k: int| 0 <= k < before.len() && (#[trigger] before[k]).project@ == project@;
                        if k != i {
                            if k < i {
                                assert(before[k].project@ != project@);
                            } else {
                                assert(before[i as int].project@ == project@);
                                assert(before[i as int].project@ != before[k].project@);
                            }
                        }
                    }
                    assert forall|a: int| 0 <= a < self.ledgers@.len() implies #[trigger] self.ledgers@[a]
                        == (if a < i { before[a] } else { before[a + 1] }) by {}
                    assert forall|q: Seq<char>| q != project@ implies #[trigger] self.ledger_of(q) == old(self).ledger_of(q) by {
                        if exists|a: int| 0 <= a < before.len() && (#[trigger] before[a]).project@ == q {
                            let k = choose|k: int| 0 <= k < before.len() && (#[trigger] before[k]).project@ == q;
                            assert(k != i);
                            let k2 = if k < i { k } else { k - 1 };
                            assert(self.ledgers@[k2] == before[k]);
                            let m = choose|m: int| 0 <= m < self.ledgers@.len() && (#[trigger] self.ledgers@[m]).project@ == q;
                            let m2 = if m < i { m } else { m + 1 };
                            assert(self.ledgers@[m] == before[m2]);
                            if m2 != k {
                                assert(before[m2].project@ == before[k].project@);
                            }
                        } else {
                            assert forall|m: int| 0 <= m < self.ledgers@.len() implies (#[trigger] self.ledgers@[m]).project@ != q by {
                                let m2 = if m < i { m } else { m + 1 };
                                assert(self.ledgers@[m] == before[m2]);
                            }
                        }
                    }
                    assert forall|a: int, b: int| 0 <= a < b < self.ledgers@.len()
                        implies (#[trigger] self.ledgers@[a]).project@ != (#[trigger] self.ledgers@[b]).project@ by {
                        let a2 = if a < i { a } else { a + 1 };
                        let b2 = if b < i { b } else { b + 1 };
                        assert(self.ledgers@[a] == before[a2] && self.ledgers@[b] == before[b2]);
                    }
                }
                return l;
            }
            i = i + 1;
        }
        proof {
            assert(old(self).ledger_of(project@) is None);
        }
        OperatorLedger::new(owned(project))
    }

    /// Keeps a ledger for a project that has none.
    fn put_ledger(&mut self, l: OperatorLedger)
        requires
            old(self).wf(),
            ledger_wf(l),
            old(self).ledger_of(l.project@) is None,
        ensures
            final(self).wf(),
            final(self).ledger_of(l.project@) == Some(l),
            final(self).same_except(old(self), l.project@),
    {
        let ghost before = self.ledgers@;
        let ghost lp = l.project@;
        self.ledgers.push(l);
        proof {
            assert(self.ledgers@[before.len() as int] == l);
            assert forall|k: int| 0 <= k < before.len() implies (#[trigger] before[k]).project@ != lp by {
                if before[k].project@ == lp {
                    assert(old(self).ledger_of(lp) is Some);
                }
            }
            assert forall|q: Seq<char>| q != lp implies #[trigger] self.ledger_of(q) == old(self).ledger_of(q) by {
                if exists|a: int| 0 <= a < before.len() && (#[trigger] before[a]).project@ == q {
                    let k = choose|k: int| 0 <= k < before.len() && (#[trigger] before[k]).project@ == q;
                    assert(self.ledgers@[k] == before[k]);
                    let m = choose|m: int| 0 <= m < self.ledgers@.len() && (#[trigger] self.ledgers@[m]).project@ == q;
                    assert(m < before.len());
                    assert(self.ledgers@[m] == before[m]);
                } else {
                    assert forall|m: int| 0 <= m < self.ledgers@.len() implies (#[trigger] self.ledgers@[m]).project@ != q by {
                        if m < before.len() {
                            assert(self.ledgers@[m] == before[m]);
                        }
                    }
                }
            }
            let m = choose|m: int| 0 <= m < self.ledgers@.len() && (#[trigger] self.ledgers@[m]).project@ == lp;
            assert(m == before.len());
        }
    }

    /// The project's ledger, if it has one.
    fn ledger_ref(&self, project: &str) -> (r: Option<&OperatorLedger>)
        requires
            self.wf(),
        ensures
            r is Some <==> self.ledger_of(project@) is Some,
            r matches Some(l) ==> self.ledger_of(project@) == Some(*l) && ledger_wf(*l) && l.project@ == project@,
    {
        let mut i: usize = 0;
        while i < self.ledgers.len()
            invariant
                i <= self.ledgers@.len(),
                self.wf(),
                forall|j: int| 0 <= j < i ==> (#[trigger] self.ledgers@[j]).project@ != project@,
            decreases self.ledgers@.len() - i,
        {
            if str_eq(self.ledgers[i].project.as_str(), project) {
                proof {
                    let k = choose|k: int| 0 <= k < self.ledgers@.len() && (#[trigger] self.ledgers@[k]).project@ == project@;
                    if k != i {
                        if k < i {
                            assert(self.ledgers@[k].project@ != project@);
                        } else {
                            assert(self.ledgers@[i as int].project@ == project@);
                            assert(self.ledgers@[i as int].project@ != self.ledgers@[k].project@);
                        }
                    }
                }
                return Some(&self.ledgers[i]);
            }
            i = i + 1;
        }
        None
    }

    /// Records a new operator response with the given creation time.
    pub fn create_operator_response_at(&mut self, request: NewOperatorResponse, created_at: String) -> (r: Result<OperatorResponse, KnowledgeError>)
        requires
            old(self).wf(),
        ensures
            final(self).wf(),
            !project_name_ok(request.project@) ==> (r matches Err(e) && e matches KnowledgeError::InvalidProjectName(m)
                && m@ == request.project@ && *final(self) == *old(self)),
            project_name_ok(request.project@) ==> create_outcome(
                old(self).model_of(request.project@),
                final(self).model_of(request.project@),
                request,
                created_at@,
                r,
            ),
            final(self).same_except(old(self), request.project@),
    {
        validate_project_name(request.project.as_str())?;
        let mut ledger = self.take_ledger(request.project.as_str());
        let r = ledger.create(request, created_at);
        self.put_ledger(ledger);
        r
    }

    /// Records a new operator response, created now.
    pub fn create_operator_response(&mut self, request: NewOperatorResponse) -> (r: Result<OperatorResponse, KnowledgeError>)
        requires
            old(self).wf(),
        ensures
            final(self).wf(),
            !project_name_ok(request.project@) ==> (r matches Err(e) && e matches KnowledgeError::InvalidProjectName(m)
                && m@ == request.project@ && *final(self) == *old(self)),
            project_name_ok(request.project@) ==> exists|created_at: Seq<char>| timestamp_text(created_at) && identifier_valid(created_at) && #[trigger] create_outcome(
                old(self).model_of(request.project@),
                final(self).model_of(request.project@),
                request,
                created_at,
                r,
            ),
            final(self).same_except(old(self), request.project@),
    {
        let created_at = now_rfc3339();
        proof {
            lemma_timestamp_valid(created_at@);
        }
        self.create_operator_response_at(request, created_at)
    }

    /// Replaces the payload of a draft, with the given edit time.
    pub fn edit_operator_response_draft_at(
        &mut self,
        project: &str,
        id: &OperatorResponseId,
        payload: OperatorResponsePayload,
        created_at: String,
    ) -> (r: Result<OperatorResponse, KnowledgeError>)
        requires
            old(self).wf(),
        ensures
            final(self).wf(),
            !project_name_ok(project@) ==> (r matches Err(e) && e matches KnowledgeError::InvalidProjectName(m)
                && m@ == project@ && *final(self) == *old(self)),
            project_name_ok(project@) ==> edit_outcome(old(self).model_of(project@), final(self).model_of(project@), project@, id@, payload, created_at@, r),
            final(self).same_except(old(self), project@),
    {
        validate_project_name(project)?;
        let mut ledger = self.take_ledger(project);
        let r = ledger.edit_draft(id, payload, created_at);
        self.put_ledger(ledger);
        r
    }

    /// Replaces the payload of a draft, now.
    pub fn edit_operator_response_draft(
        &mut self,
        project: &str,
        id: &OperatorResponseId,
        payload: OperatorResponsePayload,
    ) -> (r: Result<OperatorResponse, KnowledgeError>)
        requires
            old(self).wf(),
        ensures
            final(self).wf(),
            !project_name_ok(project@) ==> (r matches Err(e) && e matches KnowledgeError::InvalidProjectName(m)
                && m@ == project@ && *final(self) == *old(self)),
            project_name_ok(project@) ==> exists|created_at: Seq<char>| timestamp_text(created_at) && identifier_valid(created_at) && #[trigger] edit_outcome(
                old(self).model_of(project@), final(self).model_of(project@), project@, id@, payload, created_at, r),
            final(self).same_except(old(self), project@),
    {
        let created_at = now_rfc3339();
        proof {
            lemma_timestamp_valid(created_at@);
        }
        self.edit_operator_response_draft_at(project, id, payload, created_at)
    }

    /// Activates a draft whose target still matches, with the given time.
    pub fn activate_operator_response_at(
        &mut self,
        project: &str,
        id: &OperatorResponseId,
        current_target: &OperatorTargetBinding,
        supersedes: Option<OperatorResponseId>,
        created_at: String,
    ) -> (r: Result<OperatorResponse, KnowledgeError>)
        requires
            old(self).wf(),
        ensures
            final(self).wf(),
            !project_name_ok(project@) ==> (r matches Err(e) && e matches KnowledgeError::InvalidProjectName(m)
                && m@ == project@ && *final(self) == *old(self)),
            project_name_ok(project@) ==> activate_outcome(old(self).model_of(project@), final(self).model_of(project@), project@, id@,
                *current_target, supersedes, created_at@, r),
            final(self).same_except(old(self), project@),
    {
        validate_project_name(project)?;
        let mut ledger = self.take_ledger(project);
        let r = ledger.activate(id, current_target, supersedes, created_at);
        self.put_ledger(ledger);
        r
    }

    /// Activates a draft whose target still matches, now.
    pub fn activate_operator_response(
        &mut self,
        project: &str,
        id: &OperatorResponseId,
        current_target: &OperatorTargetBinding,
        supersedes: Option<OperatorResponseId>,
    ) -> (r: Result<OperatorResponse, KnowledgeError>)
        requires
            old(self).wf(),
        ensures
            final(self).wf(),
            !project_name_ok(project@) ==> (r matches Err(e) && e matches KnowledgeError::InvalidProjectName(m)
                && m@ == project@ && *final(self) == *old(self)),
            project_name_ok(project@) ==> exists|created_at: Seq<char>| timestamp_text(created_at) && identifier_valid(created_at) && #[trigger] activate_outcome(
                old(self).model_of(project@), final(self).model_of(project@), project@, id@, *current_target, supersedes, created_at, r),
            final(self).same_except(old(self), project@),
    {
        let created_at = now_rfc3339();
        proof {
            lemma_timestamp_valid(created_at@);
        }
        self.activate_operator_response_at(project, id, current_target, supersedes, created_at)
    }

    /// Retires an effective active response, with the given time.
    pub fn retire_operator_response_at(&mut self, project: &str, id: &OperatorResponseId, created_at: String) -> (r: Result<OperatorResponse, KnowledgeError>)
        requires
            old(self).wf(),
        ensures
            final(self).wf(),
            !project_name_ok(project@) ==> (r matches Err(e) && e matches KnowledgeError::InvalidProjectName(m)
                && m@ == project@ && *final(self) == *old(self)),
            project_name_ok(project@) ==> transition_outcome(old(self).model_of(project@), final(self).model_of(project@), project@, id@,
                ResponseLifecycle::Retired, OperatorHistoryOperation::Retire, created_at@, r),
            final(self).same_except(old(self), project@),
    {
        validate_project_name(project)?;
        let mut ledger = self.take_ledger(project);
        let r = ledger.transition_active_response(id, ResponseLifecycle::Retired, OperatorHistoryOperation::Retire, created_at);
        self.put_ledger(ledger);
        r
    }

    /// Retires an effective active response, now.
    pub fn retire_operator_response(&mut self, project: &str, id: &OperatorResponseId) -> (r: Result<OperatorResponse, KnowledgeError>)
        requires
            old(self).wf(),
        ensures
            final(self).wf(),
            !project_name_ok(project@) ==> (r matches Err(e) && e matches KnowledgeError::InvalidProjectName(m)
                && m@ == project@ && *final(self) == *old(self)),
            project_name_ok(project@) ==> exists|created_at: Seq<char>| timestamp_text(created_at) && identifier_valid(created_at) && #[trigger] transition_outcome(
                old(self).model_of(project@), final(self).model_of(project@), project@, id@,
                ResponseLifecycle::Retired, OperatorHistoryOperation::Retire, created_at, r),
            final(self).same_except(old(self), project@),
    {
        let created_at = now_rfc3339();
        proof {
            lemma_timestamp_valid(created_at@);
        }
        self.retire_operator_response_at(project, id, created_at)
    }

    /// Withdraws an effective active response, with the given time.
    pub fn withdraw_operator_response_at(&mut self, project: &str, id: &OperatorResponseId, created_at: String) -> (r: Result<OperatorResponse, KnowledgeError>)
        requires
            old(self).wf(),
        ensures
            final(self).wf(),
            !project_name_ok(project@) ==> (r matches Err(e) && e matches KnowledgeError::InvalidProjectName(m)
                && m@ == project@ && *final(self) == *old(self)),
            project_name_ok(project@) ==> transition_outcome(old(self).model_of(project@), final(self).model_of(project@), project@, id@,
                ResponseLifecycle::Withdrawn, OperatorHistoryOperation::Withdraw, created_at@, r),
            final(self).same_except(old(self), project@),
    {
        validate_project_name(project)?;
        let mut ledger = self.take_ledger(project);
        let r = ledger.transition_active_response(id, ResponseLifecycle::Withdrawn, OperatorHistoryOperation::Withdraw, created_at);
        self.put_ledger(ledger);
        r
    }

    /// Withdraws an effective active response, now.
    pub fn withdraw_operator_response(&mut self, project: &str, id: &OperatorResponseId) -> (r: Result<OperatorResponse, KnowledgeError>)
        requires
            old(self).wf(),
        ensures
            final(self).wf(),
            !project_name_ok(project@) ==> (r matches Err(e) && e matches KnowledgeError::InvalidProjectName(m)
                && m@ == project@ && *final(self) == *old(self)),
            project_name_ok(project@) ==> exists|created_at: Seq<char>| timestamp_text(created_at) && identifier_valid(created_at) && #[trigger] transition_outcome(
                old(self).model_of(project@), final(self).model_of(project@), project@, id@,
                ResponseLifecycle::Withdrawn, OperatorHistoryOperation::Withdraw, created_at, r),
            final(self).same_except(old(self), project@),
    {
        let created_at = now_rfc3339();
        proof {
            lemma_timestamp_valid(created_at@);
        }
        self.withdraw_operator_response_at(project, id, created_at)
    }

    /// Rebinds a response to the current target, with the given time.
    pub fn reaffirm_operator_response_at(
        &mut self,
        project: &str,
        id: &OperatorResponseId,
        current_target: OperatorTargetBinding,
        created_at: String,
    ) -> (r: Result<OperatorResponse, KnowledgeError>)
        requires
            old(self).wf(),
        ensures
            final(self).wf(),
            !project_name_ok(project@) ==> (r matches Err(e) && e matches KnowledgeError::InvalidProjectName(m)
                && m@ == project@ && *final(self) == *old(self)),
            project_name_ok(project@) ==> reaffirm_outcome(old(self).model_of(project@), final(self).model_of(project@), project@, id@,
                current_target, created_at@, r),
            final(self).same_except(old(self), project@),
    {
        validate_project_name(project)?;
        let mut ledger = self.take_ledger(project);
        let r = ledger.reaffirm(id, current_target, created_at);
        self.put_ledger(ledger);
        r
    }

    /// Rebinds a response to the current target, now.
    pub fn reaffirm_operator_response(
        &mut self,
        project: &str,
        id: &OperatorResponseId,
        current_target: OperatorTargetBinding,
    ) -> (r: Result<OperatorResponse, KnowledgeError>)
        requires
            old(self).wf(),
        ensures
            final(self).wf(),
            !project_name_ok(project@) ==> (r matches Err(e) && e matches KnowledgeError::InvalidProjectName(m)
                && m@ == project@ && *final(self) == *old(self)),
            project_name_ok(project@) ==> exists|created_at: Seq<char>| timestamp_text(created_at) && identifier_valid(created_at) && #[trigger] reaffirm_outcome(
                old(self).model_of(project@), final(self).model_of(project@), project@, id@, current_target, created_at, r),
            final(self).same_except(old(self), project@),
    {
        let created_at = now_rfc3339();
        proof {
            lemma_timestamp_valid(created_at@);
        }
        self.reaffirm_operator_response_at(project, id, current_target, created_at)
    }

    /// The project's current responses, superseded active ones shown as
    /// superseded, by identifier.
    pub fn list_operator_responses(&self, project: &str) -> (r: Result<Vec<OperatorResponse>, KnowledgeError>)
        requires
            self.wf(),
        ensures
            !project_name_ok(project@) ==> (r matches Err(e) && e matches KnowledgeError::InvalidProjectName(m) && m@ == project@),
            project_name_ok(project@) ==> (r is Ok <==> self.current_of(project@) is Some),
            r matches Ok(v) ==> listing(v@, self.model_of(project@).0, self.current_of(project@)->0),
            r is Ok ==> current_ids_distinct(self.model_of(project@).0, self.current_of(project@)->0),
    {
        validate_project_name(project)?;
        match self.ledger_ref(project) {
            Some(l) => {
                let n = l.transactions.len();
                proof {
                    if replay_spec(l.transactions@, l.project@) is Some {
                        lemma_replay_ids_distinct(l.transactions@, n as nat, l.project@);
                    }
                }
                l.list()
            },
            None => {
                let v: Vec<OperatorResponse> = Vec::new();
                proof {
                    let e = Seq::<OperatorResponse>::empty();
                    assert(listed_from(e, self.model_of(project@).0, self.current_of(project@)->0));
                    assert(v@.to_multiset() =~= e.to_multiset());
                }
                Ok(v)
            },
        }
    }

    /// One of the project's current responses, as listed.
    pub fn get_operator_response(&self, project: &str, id: &OperatorResponseId) -> (r: Result<Option<OperatorResponse>, KnowledgeError>)
        requires
            self.wf(),
        ensures
            !project_name_ok(project@) ==> (r matches Err(e) && e matches KnowledgeError::InvalidProjectName(m) && m@ == project@),
            project_name_ok(project@) ==> (r is Ok <==> self.current_of(project@) is Some),
            r matches Ok(Some(x)) ==> x.id@ == id@ && lists_current(x, self.model_of(project@).0, self.current_of(project@)->0),
            r matches Ok(None) ==> find_current(self.model_of(project@).0, self.current_of(project@)->0, id@) is None,
            r matches Ok(o) ==> exists|v: Seq<OperatorResponse>|
                #[trigger] listing(v, self.model_of(project@).0, self.current_of(project@)->0) && found_in(v, id@, o),
    {
        let listed = self.list_operator_responses(project)?;
        let ghost txs = self.model_of(project@).0;
        let ghost cur = self.current_of(project@)->0;
        let mut i: usize = 0;
        while i < listed.len()
            invariant
                i <= listed@.len(),
                project_name_ok(project@),
                txs == self.model_of(project@).0,
                self.current_of(project@) == Some(cur),
                listing(listed@, txs, cur),
                forall|k: int| 0 <= k < i ==> (#[trigger] listed@[k]).id@ != id@,
            decreases listed@.len() - i,
        {
            if listed[i].id.same(id) {
                let ghost whole = listed@;
                let mut listed = listed;
                let x = listed.remove(i);
                proof {
                    assert(whole[i as int] == x);
                    assert(found_in(whole, id@, Some(x)));
                    assert(listing(whole, txs, cur));
                }
                return Ok(Some(x));
            }
            i = i + 1;
        }
        proof {
            lemma_find_found(txs, cur, id@);
            if let Some(q) = find_current(txs, cur, id@) {
                assert(listed_in(listed@, q, txs, cur));
                let k = choose|k: int| 0 <= k < listed@.len() && listed_as(#[trigger] listed@[k], current_at(txs, cur, q), txs, cur);
                assert(listed@[k].id@ != id@);
            }
            assert(found_in(listed@, id@, None));
        }
        Ok(None)
    }

    /// Every committed transaction of the project, in commit order, with the
    /// response it stored.
    pub fn operator_response_history(&self, project: &str) -> (r: Result<Vec<OperatorResponseHistoryEntry>, KnowledgeError>)
        requires
            self.wf(),
        ensures
            !project_name_ok(project@) ==> (r matches Err(e) && e matches KnowledgeError::InvalidProjectName(m) && m@ == project@),
            project_name_ok(project@) ==> (r is Ok <==> forall|i: int| 0 <= i < self.model_of(project@).0.len()
                ==> ((#[trigger] self.model_of(project@).0[i]).mutation is Put ==> self.model_of(project@).0[i].revision is Some)),
            r matches Ok(v) ==> v@.len() == self.model_of(project@).0.len()
                && forall|i: int| 0 <= i < v@.len() ==> entry_of(#[trigger] v@[i], self.model_of(project@).0[i]),
    {
        validate_project_name(project)?;
        match self.ledger_ref(project) {
            Some(l) => l.history(),
            None => Ok(Vec::new()),
        }
    }

    /// Keeps a project's stored operator history, checked and put in commit
    /// order, in place of the ledger it had.
    pub fn load_operator_ledger(
        &mut self,
        project: String,
        transactions: Vec<CommittedTransaction>,
        last_transaction: u64,
        last_response: u64,
    ) -> (r: Result<(), KnowledgeError>)
        requires
            old(self).wf(),
        ensures
            final(self).wf(),
            !project_name_ok(project@) ==> (r matches Err(e) && e matches KnowledgeError::InvalidProjectName(m)
                && m@ == project@ && *final(self) == *old(self)),
            project_name_ok(project@) ==> (r is Ok <==> forall|i: int| 0 <= i < transactions@.len()
                ==> load_fits(#[trigger] transactions@[i], project@, last_transaction)),
            r is Ok ==> crate::order::sorted_of(final(self).model_of(project@).0, transactions@)
                && final(self).model_of(project@).1 == last_transaction
                && final(self).model_of(project@).2 == last_response,
            r is Err ==> final(self).model_of(project@) == old(self).model_of(project@),
            final(self).same_except(old(self), project@),
    {
        validate_project_name(project.as_str())?;
        let previous = self.take_ledger(project.as_str());
        match OperatorLedger::load(project, transactions, last_transaction, last_response) {
            Ok(l) => {
                self.put_ledger(l);
                Ok(())
            },
            Err(e) => {
                self.put_ledger(previous);
                Err(e)
            },
        }
    }

    /// The ledger kept for a project, to be written back to storage.
    pub fn operator_ledger(&self, project: &str) -> (r: Option<&OperatorLedger>)
        requires
            self.wf(),
        ensures
            r is Some <==> self.ledger_of(project@) is Some,
            r matches Some(l) ==> self.ledger_of(project@) == Some(*l),
    {
        self.ledger_ref(project)
    }

    /// Every ledger kept, one per project.
    pub fn operator_ledgers(&self) -> (r: &Vec<OperatorLedger>)
        ensures
            forall|i: int| 0 <= i < r@.len() ==> self.ledger_of((#[trigger] r@[i]).project@) is Some,
    {
        proof {
            assert forall|i: int| 0 <= i < self.ledgers@.len() implies self.ledger_of((#[trigger] self.ledgers@[i]).project@) is Some by {
                assert(self.ledgers@[i].project@ == self.ledgers@[i].project@);
            }
        }
        &self.ledgers
    }

    /// Deletes a draft operator response of a project.
    pub fn delete_operator_response_draft(&mut self, project: &str, id: &OperatorResponseId) -> (r: Result<(), KnowledgeError>)
        requires
            old(self).wf(),
        ensures
            final(self).wf(),
            !project_name_ok(project@) ==> (r matches Err(e) && e matches KnowledgeError::InvalidProjectName(m)
                && m@ == project@ && *final(self) == *old(self)),
            project_name_ok(project@) ==> delete_outcome(old(self).model_of(project@), final(self).model_of(project@), project@, id@, r),
            final(self).same_except(old(self), project@),
    {
        validate_project_name(project)?;
        let mut ledger = self.take_ledger(project);
        let r = ledger.delete_draft(id);
        self.put_ledger(ledger);
        r
    }

    /// A store rooted at the given directory, holding nothing yet.
    pub fn open(root: String) -> (r: Self)
        ensures
            r.wf(),
            r.root_spec() == root@,
            forall|p: Seq<char>| #[trigger] r.model_of(p) == (Seq::<CommittedTransaction>::empty(), 0u64, 0u64),
            r.relationships_spec().len() == 0,
    {
        proof {
            reveal(claims_unique);
        }
        KnowledgeStore { root, claims: Vec::new(), relationships: Vec::new(), ledgers: Vec::new() }
    }

    /// The configured directory if one is given, else `.astra/knowledge` under
    /// the home directory.
    pub fn open_default(knowledge_dir: Option<String>) -> (r: Result<Self, KnowledgeError>)
        ensures
            knowledge_dir matches Some(d) ==> (r matches Ok(s) && s.root_spec() == d@),
            knowledge_dir is None ==> (r matches Ok(s) ==> exists|home: Seq<char>| #[trigger] default_root(home)
                == s.root_spec()),
            r matches Ok(s) ==> s.wf() && forall|p: Seq<char>| #[trigger] s.model_of(p) == (Seq::<CommittedTransaction>::empty(), 0u64, 0u64),
            r matches Err(e) ==> e is DefaultLocationUnavailable && knowledge_dir is None,
    {
        match knowledge_dir {
            Some(d) => Ok(KnowledgeStore::open(d)),
            None => match home_dir() {
                Some(h) => {
                    let ghost home = h@;
                    let mut root = h;
                    push_str(&mut root, "/.astra/knowledge");
                    assert(default_root(home) == root@);
                    Ok(KnowledgeStore::open(root))
                },
                None => Err(KnowledgeError::DefaultLocationUnavailable),
            },
        }
    }

    pub fn root(&self) -> (r: &str)
        ensures
            r@ == self.root_spec(),
    {
        self.root.as_str()
    }

    /// The index of the claim stored under the key, if any.
    fn find_claim(&self, ns: &KnowledgeNamespace, category: KnowledgeCategory, id: &str) -> (r: Option<usize>)
        requires
            self.claims_wf(),
        ensures
            r matches Some(i) ==> i < self.claims@.len() && claim_key_is(self.claims@[i as int], namespace_view(*ns), category, id@)
                && self.claim_at(namespace_view(*ns), category, id@) == Some(self.claims@[i as int].1),
            r is None ==> self.claim_at(namespace_view(*ns), category, id@) is None,
    {
        let mut i: usize = 0;
        while i < self.claims.len()
            invariant
                i <= self.claims@.len(),
                self.claims_wf(),
                forall|j: int| 0 <= j < i ==> !claim_key_is(#[trigger] self.claims@[j], namespace_view(*ns), category, id@),
            decreases self.claims@.len() - i,
        {
            if same_namespace(&self.claims[i].0, ns) && self.claims[i].1.category == category && str_eq(
                self.claims[i].1.id.as_str(),
                id,
            ) {
                proof {
                    lemma_claim_at_of_index(self.claims@, i as int);
                }
                return Some(i);
            }
            i = i + 1;
        }
        None
    }

    /// The index of the claim an identifier finds, category by category.
    fn find_first(&self, ns: &KnowledgeNamespace, id: &str) -> (r: Option<usize>)
        requires
            self.claims_wf(),
        ensures
            r matches Some(i) ==> i < self.claims@.len() && self.first_claim(namespace_view(*ns), id@) == Some(
                self.claims@[i as int].1,
            ) && claim_key_is(self.claims@[i as int], namespace_view(*ns), self.claims@[i as int].1.category, id@),
            r is None ==> self.first_claim(namespace_view(*ns), id@) is None,
    {
        match self.find_claim(ns, KnowledgeCategory::Fact, id) {
            Some(i) => {
                return Some(i);
            },
            None => {},
        }
        match self.find_claim(ns, KnowledgeCategory::Decision, id) {
            Some(i) => {
                return Some(i);
            },
            None => {},
        }
        match self.find_claim(ns, KnowledgeCategory::Verification, id) {
            Some(i) => {
                return Some(i);
            },
            None => {},
        }
        self.find_claim(ns, KnowledgeCategory::Goal, id)
    }

    /// Everything but the claims is as in `other`.
    pub closed spec fn same_but_claims(&self, other: &Self) -> bool {
        &&& self.root == other.root
        &&& self.relationships@ == other.relationships@
        &&& self.ledgers@ == other.ledgers@
    }

    /// Everything but the claims is as in `other`: same root, relationships
    /// and project histories.
    pub proof fn lemma_same_but_claims(&self, other: &Self)
        requires
            self.same_but_claims(other),
        ensures
            self.root_spec() == other.root_spec(),
            self.relationships_spec() == other.relationships_spec(),
            forall|p: Seq<char>| #[trigger] self.model_of(p) == other.model_of(p),
    {
        assert forall|p: Seq<char>| #[trigger] self.model_of(p) == other.model_of(p) by {
            assert(self.ledger_of(p) == other.ledger_of(p));
        }
    }

    /// Stores a claim in place of any claim stored under its key.
    fn put_claim(&mut self, entry: (KnowledgeNamespace, KnowledgeClaim))
        requires
            old(self).wf(),
            namespace_ok(entry.0),
        ensures
            final(self).wf(),
            final(self).claim_at(namespace_view(entry.0), entry.1.category, entry.1.id@) == Some(entry.1),
            forall|n: Option<Seq<char>>, k: KnowledgeCategory, x: Seq<char>|
                !(n == namespace_view(entry.0) && k == entry.1.category && x == entry.1.id@) ==> #[trigger] final(self).claim_at(n, k, x)
                    == old(self).claim_at(n, k, x),
            final(self).same_but_claims(old(self)),
    {
        let ghost before = self.claims@;
        match self.find_claim(&entry.0, entry.1.category, entry.1.id.as_str()) {
            Some(i) => {
                self.claims.set(i, entry);
                proof {
                    assert(self.claims@ == before.update(i as int, entry));
                    self.lemma_claims_update(before, i as int, entry);
                }
            },
            None => {
                proof {
                    assert forall|j: int| 0 <= j < before.len() implies !claim_key_is(#[trigger] before[j], namespace_view(entry.0), entry.1.category, entry.1.id@) by {
                        if claim_key_is(before[j], namespace_view(entry.0), entry.1.category, entry.1.id@) {
                            assert(exists|i: int| 0 <= i < before.len() && claim_key_is(#[trigger] before[i], namespace_view(entry.0), entry.1.category, entry.1.id@));
                        }
                    }
                }
                self.claims.push(entry);
                proof {
                    assert(self.claims@ == before.push(entry));
                    self.lemma_claims_push(before, entry);
                }
            },
        }
        proof {
            assert forall|i: int| 0 <= i < self.ledgers@.len() implies ledger_wf(#[trigger] self.ledgers@[i]) by {}
        }
    }

    /// Stores a claim under its namespace, category and identifier, in place
    /// of any claim stored there; refused where the claim does not hold
    /// together or the namespace cannot hold it.
    pub fn add_claim(&mut self, namespace: &KnowledgeNamespace, claim: &KnowledgeClaim) -> (r: Result<KnowledgeId, KnowledgeError>)
        requires
            old(self).wf(),
        ensures
            final(self).wf(),
            r is Ok <==> identity_issue(*claim) is None && namespace_ok(*namespace),
            r matches Err(e) ==> if identity_issue(*claim) is Some {
                issue_of(e) == identity_issue(*claim)
            } else {
                e is InvalidProjectName
            },
            r is Err ==> *final(self) == *old(self),
            r matches Ok(id) ==> id@ == claim.id@,
            r is Ok ==> (final(self).claim_at(namespace_view(*namespace), claim.category, claim.id@) matches Some(c)
                && same_claim(*claim, c)),
            r is Ok ==> forall|n: Option<Seq<char>>, k: KnowledgeCategory, x: Seq<char>|
                !(n == namespace_view(*namespace) && k == claim.category && x == claim.id@) ==> #[trigger] final(self).claim_at(n, k, x)
                    == old(self).claim_at(n, k, x),
            final(self).same_but_claims(old(self)),
    {
        claim.validate_identity()?;
        validate_namespace(namespace)?;
        let entry = (copy_namespace(namespace), claim.duplicate());
        self.put_claim(entry);
        Ok(claim.id.duplicate())
    }

    proof fn lemma_claims_update(&self, before: Seq<(KnowledgeNamespace, KnowledgeClaim)>, i: int, entry: (KnowledgeNamespace, KnowledgeClaim))
        requires
            0 <= i < before.len(),
            self.claims@ == before.update(i, entry),
            namespace_ok(entry.0),
            claim_key_is(before[i], namespace_view(entry.0), entry.1.category, entry.1.id@),
            claims_unique(before),
            forall|a: int| 0 <= a < before.len() ==> namespace_ok(#[trigger] before[a].0),
        ensures
            self.claims_wf(),
            self.claim_at(namespace_view(entry.0), entry.1.category, entry.1.id@) == Some(entry.1),
            forall|n: Option<Seq<char>>, k: KnowledgeCategory, x: Seq<char>|
                !(n == namespace_view(entry.0) && k == entry.1.category && x == entry.1.id@) ==> #[trigger] self.claim_at(n, k, x)
                    == claim_at_of(before, n, k, x),
    {
        reveal(claims_unique);
        let c = self.claims@;
        assert forall|a: int, b: int| 0 <= a < b < c.len() implies !claim_key_is(
            #[trigger] c[a],
            namespace_view(#[trigger] c[b].0),
            c[b].1.category,
            c[b].1.id@,
        ) by {
            reveal(claims_unique);
            assert(!claim_key_is(before[a], namespace_view(before[b].0), before[b].1.category, before[b].1.id@));
        }
        assert(self.claims_wf());
        lemma_claim_at_of_index(self.claims@, i);
        assert forall|n: Option<Seq<char>>, k: KnowledgeCategory, x: Seq<char>|
            !(n == namespace_view(entry.0) && k == entry.1.category && x == entry.1.id@) implies #[trigger] self.claim_at(n, k, x)
                == claim_at_of(before, n, k, x) by {
            if exists|j: int| 0 <= j < before.len() && claim_key_is(#[trigger] before[j], n, k, x) {
                let j = choose|j: int| 0 <= j < before.len() && claim_key_is(#[trigger] before[j], n, k, x);
                assert(j != i);
                assert(c[j] == before[j]);
                lemma_claim_at_of_index(self.claims@, j);
                lemma_claim_at_of_index(before, j);
            } else {
                assert forall|j: int| 0 <= j < c.len() implies !claim_key_is(#[trigger] c[j], n, k, x) by {
                    if j != i {
                        assert(c[j] == before[j]);
                    }
                }
            }
        }
    }

    proof fn lemma_claims_push(&self, before: Seq<(KnowledgeNamespace, KnowledgeClaim)>, entry: (KnowledgeNamespace, KnowledgeClaim))
        requires
            self.claims@ == before.push(entry),
            namespace_ok(entry.0),
            forall|j: int| 0 <= j < before.len() ==> !claim_key_is(#[trigger] before[j], namespace_view(entry.0), entry.1.category, entry.1.id@),
            claims_unique(before),
            forall|a: int| 0 <= a < before.len() ==> namespace_ok(#[trigger] before[a].0),
        ensures
            self.claims_wf(),
            self.claim_at(namespace_view(entry.0), entry.1.category, entry.1.id@) == Some(entry.1),
            forall|n: Option<Seq<char>>, k: KnowledgeCategory, x: Seq<char>|
                !(n == namespace_view(entry.0) && k == entry.1.category && x == entry.1.id@) ==> #[trigger] self.claim_at(n, k, x)
                    == claim_at_of(before, n, k, x),
    {
        reveal(claims_unique);
        let c = self.claims@;
        let last = before.len() as int;
        assert forall|a: int, b: int| 0 <= a < b < c.len() implies !claim_key_is(
            #[trigger] c[a],
            namespace_view(#[trigger] c[b].0),
            c[b].1.category,
            c[b].1.id@,
        ) by {
            reveal(claims_unique);
            if b == last {
                assert(c[b] == entry);
                assert(c[a] == before[a]);
            } else {
                assert(!claim_key_is(before[a], namespace_view(before[b].0), before[b].1.category, before[b].1.id@));
            }
        }
        assert forall|a: int| 0 <= a < c.len() implies namespace_ok(#[trigger] c[a].0) by {
            if a < last {
                assert(c[a] == before[a]);
            }
        }
        assert(self.claims_wf());
        assert(c[last] == entry);
        lemma_claim_at_of_index(self.claims@, last);
        assert forall|n: Option<Seq<char>>, k: KnowledgeCategory, x: Seq<char>|
            !(n == namespace_view(entry.0) && k == entry.1.category && x == entry.1.id@) implies #[trigger] self.claim_at(n, k, x)
                == claim_at_of(before, n, k, x) by {
            if exists|j: int| 0 <= j < before.len() && claim_key_is(#[trigger] before[j], n, k, x) {
                let j = choose|j: int| 0 <= j < before.len() && claim_key_is(#[trigger] before[j], n, k, x);
                assert(c[j] == before[j]);
                lemma_claim_at_of_index(self.claims@, j);
                lemma_claim_at_of_index(before, j);
            } else {
                assert forall|j: int| 0 <= j < c.len() implies !claim_key_is(#[trigger] c[j], n, k, x) by {
                    if j < last {
                        assert(c[j] == before[j]);
                    }
                }
            }
        }
    }

    /// The claim an identifier finds in a namespace, category by category
    /// (facts, decisions, verifications, goals); refused where the namespace
    /// cannot hold knowledge.
    pub fn get_claim(&self, namespace: &KnowledgeNamespace, id: &KnowledgeId) -> (r: Result<Option<KnowledgeClaim>, KnowledgeError>)
        requires
            self.wf(),
        ensures
            r is Ok <==> namespace_ok(*namespace),
            r matches Err(e) ==> e is InvalidProjectName,
            r matches Ok(o) ==> (o is Some <==> self.claim_known(namespace_view(*namespace), id@)),
            r matches Ok(Some(c)) ==> same_claim(self.first_claim(namespace_view(*namespace), id@)->0, c),
    {
        validate_namespace(namespace)?;
        match self.find_first(namespace, id.as_str()) {
            Some(i) => Ok(Some(self.claims[i].1.duplicate())),
            None => Ok(None),
        }
    }

    /// The claims of a namespace, of one category or of all, ordered by
    /// category and identifier; refused where the namespace cannot hold
    /// knowledge.
    pub fn query_claims(&self, namespace: &KnowledgeNamespace, category: Option<KnowledgeCategory>) -> (r: Result<
        Vec<KnowledgeClaim>,
        KnowledgeError,
    >)
        requires
            self.wf(),
        ensures
            r is Ok <==> namespace_ok(*namespace),
            r matches Err(e) ==> e is InvalidProjectName,
            r matches Ok(v) ==> crate::order::keys_strictly_sorted(v@),
            r matches Ok(v) ==> forall|i: int|
                0 <= i < v@.len() ==> category_selected(category, (#[trigger] v@[i]).category) && (self.claim_at(
                    namespace_view(*namespace),
                    v@[i].category,
                    v@[i].id@,
                ) matches Some(c) && same_claim(c, v@[i])),
            r matches Ok(v) ==> forall|k: KnowledgeCategory, x: Seq<char>|
                category_selected(category, k) && #[trigger] self.claim_at(namespace_view(*namespace), k, x) is Some
                    ==> exists|i: int| 0 <= i < v@.len() && (#[trigger] v@[i]).category == k && v@[i].id@ == x,
    {
        validate_namespace(namespace)?;
        let mut all: Vec<KnowledgeClaim> = Vec::new();
        let mut i: usize = 0;
        while i < self.claims.len()
            invariant
                i <= self.claims@.len(),
                self.wf(),
                forall|m: int| 0 <= m < all@.len() ==> #[trigger] holds_copy(self.claims@.take(i as int), namespace_view(*namespace), category, all@[m]),
                forall|j: int| 0 <= j < i && namespace_view((#[trigger] self.claims@[j]).0) == namespace_view(*namespace)
                    && category_selected(category, self.claims@[j].1.category) ==> exists|m: int| 0 <= m < all@.len()
                    && #[trigger] all@[m].sort_key() == self.claims@[j].1.sort_key(),
            decreases self.claims@.len() - i,
        {
            let selected = match category {
                Some(c) => self.claims[i].1.category == c,
                None => true,
            };
            if same_namespace(&self.claims[i].0, namespace) && selected {
                let ghost before = all@;
                all.push(self.claims[i].1.duplicate());
                proof {
                    let m = before.len() as int;
                    let next = self.claims@.take(i + 1);
                    assert(next[i as int] == self.claims@[i as int]);
                    assert(stored_as(next[i as int], namespace_view(*namespace), category, all@[m]));
                    assert forall|mm: int| 0 <= mm < all@.len() implies #[trigger] holds_copy(next, namespace_view(*namespace), category, all@[mm]) by {
                        if mm < m {
                            assert(all@[mm] == before[mm]);
                            assert(holds_copy(self.claims@.take(i as int), namespace_view(*namespace), category, before[mm]));
                            let j = choose|j: int| 0 <= j < i && #[trigger] stored_as(self.claims@.take(i as int)[j], namespace_view(*namespace), category, before[mm]);
                            assert(next[j] == self.claims@.take(i as int)[j]);
                        }
                    }
                    assert forall|j: int| 0 <= j < i + 1 && namespace_view((#[trigger] self.claims@[j]).0) == namespace_view(*namespace)
                        && category_selected(category, self.claims@[j].1.category) implies exists|mm: int| 0 <= mm < all@.len()
                        && #[trigger] all@[mm].sort_key() == self.claims@[j].1.sort_key() by {
                        if j < i {
                            let mm = choose|mm: int| 0 <= mm < before.len() && #[trigger] before[mm].sort_key() == self.claims@[j].1.sort_key();
                            assert(all@[mm] == before[mm]);
                        } else {
                            assert(all@[m].sort_key() == self.claims@[j].1.sort_key());
                        }
                    }
                }
            } else {
                proof {
                    let next = self.claims@.take(i + 1);
                    assert forall|mm: int| 0 <= mm < all@.len() implies #[trigger] holds_copy(next, namespace_view(*namespace), category, all@[mm]) by {
                        assert(holds_copy(self.claims@.take(i as int), namespace_view(*namespace), category, all@[mm]));
                        let j = choose|j: int| 0 <= j < i && #[trigger] stored_as(self.claims@.take(i as int)[j], namespace_view(*namespace), category, all@[mm]);
                        assert(next[j] == self.claims@.take(i as int)[j]);
                    }
                }
            }
            i = i + 1;
        }
        assert(self.claims@.take(self.claims@.len() as int) =~= self.claims@);
        let ghost unsorted = all@;
        let sorted = crate::order::sort_unique(all);
        proof {
            self.lemma_query_result(namespace_view(*namespace), category, unsorted, sorted@);
        }
        Ok(sorted)
    }

    proof fn lemma_query_result(&self, ns: Option<Seq<char>>, category: Option<KnowledgeCategory>, all: Seq<KnowledgeClaim>, sorted: Seq<KnowledgeClaim>)
        requires
            self.wf(),
            crate::order::sorted_unique_of(sorted, all),
            forall|m: int| 0 <= m < all.len() ==> #[trigger] holds_copy(self.claims@, ns, category, all[m]),
            forall|j: int| 0 <= j < self.claims@.len() && namespace_view((#[trigger] self.claims@[j]).0) == ns
                && category_selected(category, self.claims@[j].1.category) ==> exists|m: int| 0 <= m < all.len()
                && #[trigger] all[m].sort_key() == self.claims@[j].1.sort_key(),
        ensures
            forall|i: int|
                0 <= i < sorted.len() ==> category_selected(category, (#[trigger] sorted[i]).category) && (self.claim_at(
                    ns,
                    sorted[i].category,
                    sorted[i].id@,
                ) matches Some(c) && same_claim(c, sorted[i])),
            forall|k: KnowledgeCategory, x: Seq<char>|
                category_selected(category, k) && #[trigger] self.claim_at(ns, k, x) is Some
                    ==> exists|i: int| 0 <= i < sorted.len() && (#[trigger] sorted[i]).category == k && sorted[i].id@ == x,
    {
        assert forall|i: int| 0 <= i < sorted.len() implies category_selected(category, (#[trigger] sorted[i]).category) && (self.claim_at(
            ns,
            sorted[i].category,
            sorted[i].id@,
        ) matches Some(c) && same_claim(c, sorted[i])) by {
            assert(all.contains(sorted[i]));
            let m = choose|m: int| 0 <= m < all.len() && all[m] == sorted[i];
            assert(holds_copy(self.claims@, ns, category, all[m]));
            let j = choose|j: int| 0 <= j < self.claims@.len() && #[trigger] stored_as(self.claims@[j], ns, category, all[m]);
            lemma_claim_at_of_index(self.claims@, j);
        }
        assert forall|k: KnowledgeCategory, x: Seq<char>|
            category_selected(category, k) && #[trigger] self.claim_at(ns, k, x) is Some implies exists|i: int|
                0 <= i < sorted.len() && (#[trigger] sorted[i]).category == k && sorted[i].id@ == x by {
            let j = choose|j: int| 0 <= j < self.claims@.len() && claim_key_is(#[trigger] self.claims@[j], ns, k, x);
            let m = choose|m: int| 0 <= m < all.len() && #[trigger] all[m].sort_key() == self.claims@[j].1.sort_key();
            assert(crate::order::has_key(sorted, all[m].sort_key()));
            let i = choose|i: int| 0 <= i < sorted.len() && #[trigger] sorted[i].sort_key() == all[m].sort_key();
            lemma_claim_key_injective(sorted[i], self.claims@[j].1);
        }
    }

    /// The claims of a project, ordered by category and identifier.
    pub fn list_project_knowledge(&self, project: &str) -> (r: Result<Vec<KnowledgeClaim>, KnowledgeError>)
        requires
            self.wf(),
        ensures
            r is Ok <==> project_name_ok(project@),
            r matches Err(e) ==> e is InvalidProjectName,
            r matches Ok(v) ==> crate::order::keys_strictly_sorted(v@),
            r matches Ok(v) ==> forall|i: int|
                0 <= i < v@.len() ==> (self.claim_at(Some(project@), (#[trigger] v@[i]).category, v@[i].id@) matches Some(c)
                    && same_claim(c, v@[i])),
            r matches Ok(v) ==> forall|k: KnowledgeCategory, x: Seq<char>|
                #[trigger] self.claim_at(Some(project@), k, x) is Some ==> exists|i: int|
                    0 <= i < v@.len() && (#[trigger] v@[i]).category == k && v@[i].id@ == x,
    {
        let ns = KnowledgeNamespace::project(owned(project));
        self.query_claims(&ns, None)
    }

    /// The store holds something for the project: a claim, a relationship or
    /// an operator ledger.
    pub open spec fn holds_project(&self, name: Seq<char>) -> bool {
        ||| exists|i: int|
            0 <= i < self.claims_spec().len() && namespace_view((#[trigger] self.claims_spec()[i]).0) == Some(name)
        ||| exists|i: int|
            0 <= i < self.relationships_spec().len() && namespace_view((#[trigger] self.relationships_spec()[i]).0)
                == Some(name)
        ||| self.ledger_of(name) is Some
    }

    /// The projects the store holds anything for, each once, in name order.
    pub fn list_projects(&self) -> (r: Result<Vec<String>, KnowledgeError>)
        ensures
            r is Ok,
            r matches Ok(v) ==> crate::order::keys_strictly_sorted(v@),
            r matches Ok(v) ==> forall|i: int| 0 <= i < v@.len() ==> self.holds_project((#[trigger] v@[i])@),
            r matches Ok(v) ==> forall|name: Seq<char>|
                #[trigger] self.holds_project(name) ==> exists|i: int| 0 <= i < v@.len() && (#[trigger] v@[i])@ == name,
    {
        let mut names: Vec<String> = Vec::new();
        let mut i: usize = 0;
        while i < self.claims.len()
            invariant
                i <= self.claims@.len(),
                forall|k: int| 0 <= k < names@.len() ==> self.holds_project((#[trigger] names@[k])@),
                forall|j: int|
                    0 <= j < i ==> (namespace_view((#[trigger] self.claims@[j]).0) matches Some(p) ==> crate::text::has_text(names@, p)),
            decreases self.claims@.len() - i,
        {
            match &self.claims[i].0 {
                KnowledgeNamespace::Project(p) => {
                    let ghost before = names@;
                    names.push(owned(p.as_str()));
                    proof {
                        assert(names@[names@.len() - 1]@ == p@);
                        lemma_has_text_push(before, names@[names@.len() - 1]);
                    }
                },
                KnowledgeNamespace::Global => {},
            }
            i = i + 1;
        }
        let mut i: usize = 0;
        while i < self.relationships.len()
            invariant
                i <= self.relationships@.len(),
                forall|k: int| 0 <= k < names@.len() ==> self.holds_project((#[trigger] names@[k])@),
                forall|j: int|
                    0 <= j < self.claims@.len() ==> (namespace_view((#[trigger] self.claims@[j]).0) matches Some(p) ==> crate::text::has_text(names@, p)),
                forall|j: int|
                    0 <= j < i ==> (namespace_view((#[trigger] self.relationships@[j]).0) matches Some(p) ==> crate::text::has_text(names@, p)),
            decreases self.relationships@.len() - i,
        {
            match &self.relationships[i].0 {
                KnowledgeNamespace::Project(p) => {
                    let ghost before = names@;
                    names.push(owned(p.as_str()));
                    proof {
                        assert(names@[names@.len() - 1]@ == p@);
                        lemma_has_text_push(before, names@[names@.len() - 1]);
                    }
                },
                KnowledgeNamespace::Global => {},
            }
            i = i + 1;
        }
        let mut i: usize = 0;
        while i < self.ledgers.len()
            invariant
                i <= self.ledgers@.len(),
                forall|k: int| 0 <= k < names@.len() ==> self.holds_project((#[trigger] names@[k])@),
                forall|j: int|
                    0 <= j < self.claims@.len() ==> (namespace_view((#[trigger] self.claims@[j]).0) matches Some(p) ==> crate::text::has_text(names@, p)),
                forall|j: int|
                    0 <= j < self.relationships@.len() ==> (namespace_view((#[trigger] self.relationships@[j]).0) matches Some(p)
                        ==> crate::text::has_text(names@, p)),
                forall|j: int|
                    0 <= j < i ==> crate::text::has_text(names@, (#[trigger] self.ledgers@[j]).project@),
            decreases self.ledgers@.len() - i,
        {
            let ghost before = names@;
            names.push(owned(self.ledgers[i].project.as_str()));
            proof {
                lemma_has_text_push(before, names@[names@.len() - 1]);
                assert(names@[names@.len() - 1]@ == self.ledgers@[i as int].project@);
                assert(self.ledgers@[i as int].project@ == self.ledgers@[i as int].project@);
                assert(self.ledger_of(self.ledgers@[i as int].project@) is Some);
            }
            i = i + 1;
        }
        let ghost all = names@;
        let r = crate::order::sort_unique(names);
        proof {
            assert forall|i: int| 0 <= i < r@.len() implies self.holds_project((#[trigger] r@[i])@) by {
                assert(all.contains(r@[i]));
            }
            assert forall|name: Seq<char>| #[trigger] self.holds_project(name) implies exists|i: int|
                0 <= i < r@.len() && (#[trigger] r@[i])@ == name by {
                let k: int = if exists|j: int|
                    0 <= j < self.claims@.len() && namespace_view((#[trigger] self.claims@[j]).0) == Some(name) {
                    let j = choose|j: int| 0 <= j < self.claims@.len() && namespace_view((#[trigger] self.claims@[j]).0) == Some(name);
                    choose|k: int| 0 <= k < all.len() && all[k]@ == name
                } else if exists|j: int|
                    0 <= j < self.relationships@.len() && namespace_view((#[trigger] self.relationships@[j]).0) == Some(name) {
                    let j = choose|j: int|
                        0 <= j < self.relationships@.len() && namespace_view((#[trigger] self.relationships@[j]).0) == Some(name);
                    choose|k: int| 0 <= k < all.len() && all[k]@ == name
                } else {
                    let j = choose|j: int| 0 <= j < self.ledgers@.len() && (#[trigger] self.ledgers@[j]).project@ == name;
                    choose|k: int| 0 <= k < all.len() && all[k]@ == name
                };
                assert(0 <= k < all.len() && all[k]@ == name);
                assert(crate::order::has_key(r@, all[k].sort_key()));
                let i = choose|i: int| 0 <= i < r@.len() && #[trigger] r@[i].sort_key() == all[k].sort_key();
                crate::order::lemma_str_key_injective(r@[i]@, all[k]@);
            }
        }
        Ok(r)
    }

    /// Marks the claim an identifier finds invalidated, keeping its
    /// assertion, and returns it; refused where the namespace cannot hold
    /// knowledge or holds no such claim.
    pub fn invalidate_claim(&mut self, namespace: &KnowledgeNamespace, id: &KnowledgeId) -> (r: Result<KnowledgeClaim, KnowledgeError>)
        requires
            old(self).wf(),
        ensures
            final(self).wf(),
            r is Ok <==> namespace_ok(*namespace) && old(self).claim_known(namespace_view(*namespace), id@),
            r matches Err(e) ==> if namespace_ok(*namespace) {
                e matches KnowledgeError::ClaimNotFound(m) && m@ == id@
            } else {
                e is InvalidProjectName
            },
            r is Err ==> *final(self) == *old(self),
            r matches Ok(c) ==> c.validity == Validity::Invalidated && crate::knowledge::claim::same_assertion(
                old(self).first_claim(namespace_view(*namespace), id@)->0,
                c,
            ),
            r matches Ok(c) ==> (final(self).claim_at(namespace_view(*namespace), c.category, id@) matches Some(s)
                && same_claim(s, c)),
            r matches Ok(c) ==> forall|n: Option<Seq<char>>, k: KnowledgeCategory, x: Seq<char>|
                !(n == namespace_view(*namespace) && k == c.category && x == id@) ==> #[trigger] final(self).claim_at(n, k, x)
                    == old(self).claim_at(n, k, x),
            final(self).same_but_claims(old(self)),
    {
        validate_namespace(namespace)?;
        let i = match self.find_first(namespace, id.as_str()) {
            Some(i) => i,
            None => {
                return Err(KnowledgeError::ClaimNotFound(owned(id.as_str())));
            },
        };
        let ghost before = self.claims@;
        let (n, mut c) = self.claims.remove(i);
        c.validity = Validity::Invalidated;
        let out = c.duplicate();
        self.claims.insert(i, (n, c));
        proof {
            assert(self.claims@ =~= before.update(i as int, (n, c)));
            assert(namespace_ok(n)) by {
                assert(before[i as int].0 == n);
            }
            self.lemma_claims_update(before, i as int, (n, c));
            assert forall|j: int| 0 <= j < self.ledgers@.len() implies ledger_wf(#[trigger] self.ledgers@[j]) by {}
        }
        Ok(out)
    }

    /// Takes in a claim read from a file: its namespace must be able to hold
    /// knowledge, its envelope must carry the supported schema version, and
    /// the claim must hold together; it is then stored under its key.
    pub fn load_claim(
        &mut self,
        namespace: KnowledgeNamespace,
        path: String,
        schema_version: Option<u64>,
        claim: KnowledgeClaim,
    ) -> (r: Result<(), KnowledgeError>)
        requires
            old(self).wf(),
        ensures
            final(self).wf(),
            r is Ok <==> namespace_ok(namespace) && schema_version == Some(KNOWLEDGE_SCHEMA_VERSION as u64)
                && identity_issue(claim) is None,
            !namespace_ok(namespace) ==> (r matches Err(e) && e is InvalidProjectName),
            namespace_ok(namespace) && (schema_version is None || schema_version->0 > u32::MAX) ==> (r matches Err(e)
                && e matches KnowledgeError::Corrupt { path: p, message: m } && p@ == path@ && m@
                == "missing or invalid schema_version"@),
            namespace_ok(namespace) && schema_version is Some && schema_version->0 <= u32::MAX && schema_version->0
                != KNOWLEDGE_SCHEMA_VERSION ==> (r matches Err(e) && e matches KnowledgeError::UnsupportedSchema {
                found,
                supported,
            } && found == schema_version->0 && supported == KNOWLEDGE_SCHEMA_VERSION),
            namespace_ok(namespace) && schema_version == Some(KNOWLEDGE_SCHEMA_VERSION as u64) && identity_issue(claim) is Some
                ==> (r matches Err(e) && e matches KnowledgeError::Corrupt { path: p, message: m } && p@ == path@ && m@
                == issue_message(identity_issue(claim)->0)),
            r is Err ==> *final(self) == *old(self),
            r is Ok ==> final(self).claim_at(namespace_view(namespace), claim.category, claim.id@) == Some(claim),
            r is Ok ==> forall|n: Option<Seq<char>>, k: KnowledgeCategory, x: Seq<char>|
                !(n == namespace_view(namespace) && k == claim.category && x == claim.id@) ==> #[trigger] final(self).claim_at(n, k, x)
                    == old(self).claim_at(n, k, x),
            final(self).same_but_claims(old(self)),
    {
        validate_namespace(&namespace)?;
        let version: u32 = match schema_version {
            Some(v) => {
                if v > 4294967295u64 {
                    return Err(KnowledgeError::Corrupt { path, message: owned("missing or invalid schema_version") });
                }
                v as u32
            },
            None => {
                return Err(KnowledgeError::Corrupt { path, message: owned("missing or invalid schema_version") });
            },
        };
        if version != KNOWLEDGE_SCHEMA_VERSION {
            return Err(KnowledgeError::UnsupportedSchema { found: version, supported: KNOWLEDGE_SCHEMA_VERSION });
        }
        match claim.validate_identity() {
            Ok(()) => {},
            Err(e) => {
                let message = e.message();
                proof {
                    lemma_issue_message(e);
                }
                return Err(KnowledgeError::Corrupt { path, message });
            },
        }
        self.put_claim((namespace, claim));
        Ok(())
    }

    /// Relates two known claims of a namespace; a relationship already held is
    /// kept once.
    pub fn add_relationship(&mut self, namespace: &KnowledgeNamespace, relationship: KnowledgeRelationship) -> (r: Result<(), KnowledgeError>)
        requires
            old(self).wf(),
        ensures
            final(self).wf(),
            relationship.from@ == relationship.to@ ==> r == Err::<(), KnowledgeError>(KnowledgeError::SelfRelationship),
            r is Ok <==> relationship.from@ != relationship.to@ && namespace_ok(*namespace) && old(self).claim_known(
                namespace_view(*namespace),
                relationship.from@,
            ) && old(self).claim_known(namespace_view(*namespace), relationship.to@),
            relationship.from@ != relationship.to@ && !namespace_ok(*namespace) ==> (r matches Err(e) && e is InvalidProjectName),
            relationship.from@ != relationship.to@ && namespace_ok(*namespace) && !old(self).claim_known(
                namespace_view(*namespace),
                relationship.from@,
            ) ==> (r matches Err(e) && e matches KnowledgeError::RelationshipEndpointMissing(m) && m@ == relationship.from@),
            relationship.from@ != relationship.to@ && namespace_ok(*namespace) && old(self).claim_known(
                namespace_view(*namespace),
                relationship.from@,
            ) && !old(self).claim_known(namespace_view(*namespace), relationship.to@) ==> (r matches Err(e)
                && e matches KnowledgeError::RelationshipEndpointMissing(m) && m@ == relationship.to@),
            r is Err ==> *final(self) == *old(self),
            final(self).claims_spec() == old(self).claims_spec(),
            final(self).root_spec() == old(self).root_spec(),
            forall|p: Seq<char>| #[trigger] final(self).model_of(p) == old(self).model_of(p),
            r is Ok ==> relationship_in(final(self).relationships_spec(), namespace_view(*namespace), relationship),
            forall|n: Option<Seq<char>>, x: KnowledgeRelationship| relationship_in(old(self).relationships_spec(), n, x)
                ==> relationship_in(final(self).relationships_spec(), n, x),
            relationship_in(old(self).relationships_spec(), namespace_view(*namespace), relationship) ==> *final(self)
                == *old(self),
            r is Ok && !relationship_in(old(self).relationships_spec(), namespace_view(*namespace), relationship)
                ==> final(self).relationships_spec() == old(self).relationships_spec().push((*namespace, relationship)),
            r is Ok ==> relationship_added(*old(self), *final(self), namespace_view(*namespace), relationship),
    {
        if str_eq(relationship.from.as_str(), relationship.to.as_str()) {
            return Err(KnowledgeError::SelfRelationship);
        }
        validate_namespace(namespace)?;
        if self.find_first(namespace, relationship.from.as_str()).is_none() {
            return Err(KnowledgeError::RelationshipEndpointMissing(owned(relationship.from.as_str())));
        }
        if self.find_first(namespace, relationship.to.as_str()).is_none() {
            return Err(KnowledgeError::RelationshipEndpointMissing(owned(relationship.to.as_str())));
        }
        let mut i: usize = 0;
        while i < self.relationships.len()
            invariant
                i <= self.relationships@.len(),
                *self == *old(self),
                old(self).wf(),
                relationship.from@ != relationship.to@,
                namespace_ok(*namespace),
                old(self).claim_known(namespace_view(*namespace), relationship.from@),
                old(self).claim_known(namespace_view(*namespace), relationship.to@),
                forall|j: int|
                    0 <= j < i ==> !(namespace_view((#[trigger] self.relationships@[j]).0) == namespace_view(*namespace)
                        && same_relationship(self.relationships@[j].1, relationship)),
            decreases self.relationships@.len() - i,
        {
            let (ns, existing) = &self.relationships[i];
            if same_namespace(ns, namespace) && existing.relationship == relationship.relationship && str_eq(
                existing.from.as_str(),
                relationship.from.as_str(),
            ) && str_eq(existing.to.as_str(), relationship.to.as_str()) {
                assert(same_relationship(self.relationships@[i as int].1, relationship));
                return Ok(());
            }
            i = i + 1;
        }
        let ghost before = self.relationships@;
        let ns = match namespace {
            KnowledgeNamespace::Global => KnowledgeNamespace::Global,
            KnowledgeNamespace::Project(p) => KnowledgeNamespace::Project(p.clone()),
        };
        self.relationships.push((ns, relationship));
        proof {
            assert(self.relationships@[before.len() as int].1 == relationship);
            assert(ns == *namespace);
            assert forall|a: int, b: int|
                0 <= a < b < self.relationships@.len() implies !(namespace_view((#[trigger] self.relationships@[a]).0)
                    == namespace_view((#[trigger] self.relationships@[b]).0) && same_relationship(
                    self.relationships@[a].1,
                    self.relationships@[b].1,
                )) by {
                assert(self.relationships@[a] == before[a]);
                if b < before.len() {
                    assert(self.relationships@[b] == before[b]);
                }
            }
            assert(relationship_in(self.relationships@, namespace_view(*namespace), relationship));
            assert forall|n: Option<Seq<char>>, x: KnowledgeRelationship| relationship_in(before, n, x)
                implies relationship_in(self.relationships@, n, x) by {
                let j = choose|j: int| 0 <= j < before.len() && namespace_view((#[trigger] before[j]).0) == n
                    && same_relationship(before[j].1, x);
                assert(self.relationships@[j] == before[j]);
            }
            assert(self.ledgers == old(self).ledgers);
            assert forall|p: Seq<char>| #[trigger] self.model_of(p) == old(self).model_of(p) by {
                assert(self.ledger_of(p) == old(self).ledger_of(p));
            }
        }
        Ok(())
    }

    /// The relationships of a namespace, sorted; refused where the namespace
    /// cannot hold knowledge.
    pub fn list_relationships(&self, namespace: &KnowledgeNamespace) -> (r: Result<Vec<KnowledgeRelationship>, KnowledgeError>)
        requires
            self.wf(),
        ensures
            r matches Ok(v) ==> forall|a: int, b: int|
                0 <= a < b < v@.len() ==> !same_relationship(#[trigger] v@[a], #[trigger] v@[b]),
            r matches Ok(v) ==> relationship_listing(*self, namespace_view(*namespace), v@),
            r is Ok <==> namespace_ok(*namespace),
            r matches Err(e) ==> e is InvalidProjectName,
            r matches Ok(v) ==> crate::order::keys_sorted(v@),
            r matches Ok(v) ==> forall|i: int|
                0 <= i < v@.len() ==> relationship_in(self.relationships_spec(), namespace_view(*namespace), #[trigger] v@[i]),
            r matches Ok(v) ==> forall|j: int|
                0 <= j < self.relationships_spec().len() && namespace_view((#[trigger] self.relationships_spec()[j]).0)
                    == namespace_view(*namespace) ==> exists|i: int| 0 <= i < v@.len() && same_relationship(
                    #[trigger] v@[i],
                    self.relationships_spec()[j].1,
                ),
    {
        validate_namespace(namespace)?;
        let mut v: Vec<KnowledgeRelationship> = Vec::new();
        let ghost mut src: Seq<int> = Seq::empty();
        let mut i: usize = 0;
        while i < self.relationships.len()
            invariant
                i <= self.relationships@.len(),
                forall|k: int| 0 <= k < v@.len() ==> relationship_in(self.relationships@, namespace_view(*namespace), #[trigger] v@[k]),
                forall|j: int|
                    0 <= j < i && namespace_view((#[trigger] self.relationships@[j]).0) == namespace_view(*namespace)
                        ==> exists|k: int| 0 <= k < v@.len() && same_relationship(#[trigger] v@[k], self.relationships@[j].1),
                relationships_unique(self.relationships@),
                src.len() == v@.len(),
                forall|k: int|
                    0 <= k < v@.len() ==> 0 <= #[trigger] src[k] < i && namespace_view(self.relationships@[src[k]].0)
                        == namespace_view(*namespace) && same_relationship(v@[k], self.relationships@[src[k]].1),
                forall|a: int, b: int| 0 <= a < b < v@.len() ==> !same_relationship(#[trigger] v@[a], #[trigger] v@[b]),
            decreases self.relationships@.len() - i,
        {
            if same_namespace(&self.relationships[i].0, namespace) {
                let x = &self.relationships[i].1;
                let copy = KnowledgeRelationship {
                    from: x.from.duplicate(),
                    relationship: x.relationship,
                    to: x.to.duplicate(),
                };
                let ghost before = v@;
                let ghost before_src = src;
                v.push(copy);
                proof {
                    src = src.push(i as int);
                    let last = v@.len() - 1;
                    assert(same_relationship(self.relationships@[i as int].1, v@[last]));
                    assert(same_relationship(v@[last], self.relationships@[i as int].1));
                    assert(relationship_in(self.relationships@, namespace_view(*namespace), v@[last]));
                    assert forall|k: int| 0 <= k < v@.len() implies 0 <= #[trigger] src[k] < i + 1 && namespace_view(
                        self.relationships@[src[k]].0,
                    ) == namespace_view(*namespace) && same_relationship(v@[k], self.relationships@[src[k]].1) by {
                        if k < last {
                            assert(v@[k] == before[k]);
                            assert(src[k] == before_src[k]);
                        }
                    }
                    assert forall|a: int, b: int| 0 <= a < b < v@.len() implies !same_relationship(#[trigger] v@[a], #[trigger] v@[b]) by {
                        assert(v@[a] == before[a]);
                        if b == last {
                            let j = before_src[a];
                            assert(src[a] == j);
                            assert(!(namespace_view(self.relationships@[j].0) == namespace_view(self.relationships@[i as int].0)
                                && same_relationship(self.relationships@[j].1, self.relationships@[i as int].1)));
                        } else {
                            assert(v@[b] == before[b]);
                        }
                    }
                    assert forall|j: int|
                        0 <= j < i + 1 && namespace_view((#[trigger] self.relationships@[j]).0) == namespace_view(*namespace)
                            implies exists|k: int| 0 <= k < v@.len() && same_relationship(#[trigger] v@[k], self.relationships@[j].1) by {
                        if j < i {
                            let k = choose|k: int| 0 <= k < before.len() && same_relationship(#[trigger] before[k], self.relationships@[j].1);
                            assert(v@[k] == before[k]);
                        } else {
                            assert(same_relationship(v@[last], self.relationships@[j].1));
                        }
                    }
                }
            }
            i = i + 1;
        }
        let ghost all = v@;
        let sorted = crate::order::sort_stable(v);
        proof {
            assert(all.no_duplicates()) by {
                assert forall|a: int, b: int| 0 <= a < all.len() && 0 <= b < all.len() && a != b implies all[a] != all[b] by {
                    if a < b {
                        assert(!same_relationship(all[a], all[b]));
                    } else {
                        assert(!same_relationship(all[b], all[a]));
                    }
                }
            }
            crate::order::lemma_reorder_no_duplicates(all, sorted@);
            assert forall|a: int, b: int| 0 <= a < b < sorted@.len() implies !same_relationship(#[trigger] sorted@[a], #[trigger] sorted@[b]) by {
                assert(all.contains(sorted@[a]));
                assert(all.contains(sorted@[b]));
                let x = choose|x: int| 0 <= x < all.len() && all[x] == sorted@[a];
                let y = choose|y: int| 0 <= y < all.len() && all[y] == sorted@[b];
                assert(sorted@[a] != sorted@[b]);
                if x < y {
                    assert(!same_relationship(all[x], all[y]));
                } else {
                    assert(!same_relationship(all[y], all[x]));
                }
            }
            assert forall|k: int| 0 <= k < sorted@.len() implies relationship_in(self.relationships@, namespace_view(*namespace), #[trigger] sorted@[k]) by {
                assert(all.contains(sorted@[k]));
            }
            assert forall|j: int|
                0 <= j < self.relationships@.len() && namespace_view((#[trigger] self.relationships@[j]).0) == namespace_view(*namespace)
                    implies exists|k: int| 0 <= k < sorted@.len() && same_relationship(#[trigger] sorted@[k], self.relationships@[j].1) by {
                let m = choose|m: int| 0 <= m < all.len() && same_relationship(#[trigger] all[m], self.relationships@[j].1);
                assert(sorted@.contains(all[m]));
            }
        }
        proof {
            lemma_listing_intro(*self, namespace_view(*namespace), sorted@);
        }
        Ok(sorted)
    }
}

} // verus!
