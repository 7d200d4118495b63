//! The request dispatcher: from inbound requests to ledger operations to
//! outbound responses.

use crate::biz::{settled, Amount, Bill, BillBiz, BillRepo, StorageError, TagRepo};
use vstd::prelude::*;

verus! {

/// Inbound message: record one transaction. The user is taken as given.
#[derive(Debug, Clone, Copy, PartialEq, Eq, Structural)]
pub struct CreateBillReq {
    pub user_id: u64,
    pub book_id: u64,
    pub amount: Amount,
    pub tag_id_lv1: u64,
    pub tag_id_lv2: u64,
}

impl CreateBillReq {
    /// The bill that this request asks for, as drafted at the time `now`.
    #[verifier::inline]
    pub open spec fn draft(self, now: i64) -> Bill {
        Bill::draft(now, self.user_id, self.book_id, self.amount, self.tag_id_lv1, self.tag_id_lv2)
    }
}

/// Outbound message: the bill that was recorded. There is no outbound
/// message for a failure.
#[derive(Debug, Clone, Copy, PartialEq, Eq, Structural)]
pub struct CreateBillResp {
    pub bill: Bill,
}

/// What the dispatcher does about one request once the ledger service has
/// answered. Whoever runs the dispatcher carries it out.
#[derive(Debug, PartialEq, Eq)]
pub enum Action {
    /// Put this response on the outbound channel.
    Emit(CreateBillResp),
    /// Put nothing on the outbound channel: record this failure instead.
    Report(StorageError),
}

impl Action {
    /// The action fits the request: a response that it emits holds the bill
    /// that the request asked for, persisted, with both timestamps at the
    /// one moment of its drafting.
    pub open spec fn answers(self, req: CreateBillReq) -> bool {
        self matches Action::Emit(resp) ==> resp.bill.persisted_from(
            req.draft(resp.bill.create_at_sec),
        )
    }
}

/// The bills that went out on the outbound channel over a run of actions,
/// first action first: one for each `Emit`, none for a `Report`.
pub open spec fn emitted(log: Seq<Action>) -> Seq<Bill>
    decreases log.len(),
{
    if log.len() == 0 {
        Seq::empty()
    } else {
        match log.last() {
            Action::Emit(resp) => emitted(log.drop_last()).push(resp.bill),
            Action::Report(_) => emitted(log.drop_last()),
        }
    }
}

/// The dispatcher's decision: a bill goes out as a response, a failure is
/// reported as it came and nothing goes out.
pub open spec fn decided(result: Result<Bill, StorageError>) -> Action {
    match result {
        Ok(bill) => Action::Emit(CreateBillResp { bill }),
        Err(e) => Action::Report(e),
    }
}

/// Decides what to do about one request from the ledger service's answer.
pub fn respond(result: Result<Bill, StorageError>) -> (action: Action)
    ensures
        action == decided(result),
{
    match result {
        Ok(bill) => Action::Emit(CreateBillResp { bill }),
        Err(e) => Action::Report(e),
    }
}

/// One action emits its own bill or nothing.
pub proof fn lemma_emitted_one(action: Action)
    ensures
        action matches Action::Emit(resp) ==> emitted(seq![action]) == seq![resp.bill],
        action is Report ==> emitted(seq![action]) == Seq::<Bill>::empty(),
{
    let log = seq![action];
    assert(log.drop_last() =~= Seq::<Action>::empty());
    assert(emitted(log.drop_last()) == Seq::<Bill>::empty());
    match action {
        Action::Emit(resp) => {
            assert(emitted(log) =~= seq![resp.bill]);
        },
        Action::Report(_) => {},
    }
}

/// What a run emits is what its parts emit, one after the other.
pub proof fn lemma_emitted_concat(first: Seq<Action>, second: Seq<Action>)
    ensures
        emitted(first + second) == emitted(first) + emitted(second),
    decreases second.len(),
{
    if second.len() == 0 {
        assert(first + second =~= first);
        assert(emitted(first) + emitted(second) =~= emitted(first));
    } else {
        let whole = first + second;
        assert(whole.drop_last() =~= first + second.drop_last());
        assert(whole.last() == second.last());
        lemma_emitted_concat(first, second.drop_last());
        match second.last() {
            Action::Emit(resp) => {
                assert(emitted(whole) =~= emitted(first) + emitted(second));
            },
            Action::Report(_) => {},
        }
    }
}

/// Where storage fails, the ledger service fails with storage's error, the
/// dispatcher reports that error, and no response goes out for the request.
pub proof fn lemma_failure_is_reported_not_answered(bill: Bill, e: StorageError)
    ensures
        settled(bill, Err(e)) == Err::<Bill, StorageError>(e),
        decided(settled(bill, Err(e))) == Action::Report(e),
        emitted(seq![decided(settled(bill, Err(e)))]) == Seq::<Bill>::empty(),
{
    lemma_emitted_one(Action::Report(e));
}

/// Where storage succeeds, the response that goes out holds the very bill
/// that storage handed back.
pub proof fn lemma_success_is_answered(bill: Bill)
    ensures
        decided(settled(bill, Ok(()))) == Action::Emit(CreateBillResp { bill }),
        emitted(seq![decided(settled(bill, Ok(())))]) == seq![bill],
{
    lemma_emitted_one(Action::Emit(CreateBillResp { bill }));
}

/// A run in which every request failed has put nothing on the outbound
/// channel.
pub proof fn lemma_failed_run_emits_nothing(log: Seq<Action>)
    requires
        forall|k: int| 0 <= k < log.len() ==> log[k] is Report,
    ensures
        emitted(log) == Seq::<Bill>::empty(),
    decreases log.len(),
{
    if log.len() > 0 {
        assert forall|k: int| 0 <= k < log.drop_last().len() implies log.drop_last()[k] is Report by {
            assert(log.drop_last()[k] == log[k]);
        }
        lemma_failed_run_emits_nothing(log.drop_last());
    }
}

/// Responses keep the order of arrival: where the requests at `i` and at
/// the later `j` were both answered with a bill, the bill for `i` went out
/// before the bill for `j`, each at the place that the actions before it
/// left free.
pub proof fn lemma_emitted_in_arrival_order(log: Seq<Action>, i: int, j: int)
    requires
        0 <= i < j < log.len(),
        log[i] is Emit,
        log[j] is Emit,
    ensures
        emitted(log.take(i)).len() < emitted(log.take(j)).len() < emitted(log).len(),
        emitted(log)[emitted(log.take(i)).len() as int] == log[i]->Emit_0.bill,
        emitted(log)[emitted(log.take(j)).len() as int] == log[j]->Emit_0.bill,
{
    lemma_emitted_at(log, i);
    lemma_emitted_at(log, j);
    // the actions up to and including `i` are among those before `j`
    let upto_j = log.take(j);
    assert(upto_j.take(i) =~= log.take(i));
    assert(upto_j[i] == log[i]);
    lemma_emitted_at(upto_j, i);
}

/// The bill of an emitting action stands in the output right behind what
/// the actions before it emitted.
pub proof fn lemma_emitted_at(log: Seq<Action>, i: int)
    requires
        0 <= i < log.len(),
        log[i] is Emit,
    ensures
        emitted(log.take(i)).len() < emitted(log).len(),
        emitted(log)[emitted(log.take(i)).len() as int] == log[i]->Emit_0.bill,
{
    let head = log.take(i);
    let tail = log.skip(i + 1);
    let one = seq![log[i]];
    assert(log =~= head + one + tail);
    lemma_emitted_concat(head + one, tail);
    lemma_emitted_concat(head, one);
    lemma_emitted_one(log[i]);
}

/// The dispatcher for "create bill" requests. It holds the ledger service
/// and no state of its own.
#[derive(Debug)]
pub struct BillSvc<B, T> where B: BillRepo, T: TagRepo {
    pub biz: BillBiz<B, T>,
}

impl<B, T> BillSvc<B, T> where B: BillRepo, T: TagRepo {
    pub fn new(biz: BillBiz<B, T>) -> (r: Self)
        ensures
            r.biz == biz,
    {
        BillSvc { biz }
    }

    /// One turn has taken the dispatcher from `self` to `next` and has
    /// answered `req` with `action`. Where the bill repository was bound to
    /// accept the request's draft whatever the time, a response went out,
    /// and where it was bound to refuse, a report. A response holds the
    /// request's bill, persisted as the newest entry of a store that
    /// carries on; a report leaves the dispatcher as it was. The tag
    /// repository is not touched.
    pub open spec fn turn(&self, req: CreateBillReq, action: Action, next: &Self) -> bool {
        &&& (forall|now: i64| #[trigger] self.biz.br.must_accept(req.draft(now))) ==> action is Emit
        &&& (forall|now: i64| #[trigger] self.biz.br.must_refuse(req.draft(now)))
            ==> action is Report
        &&& action.answers(req)
        &&& action matches Action::Emit(resp) ==> {
            &&& next.biz.br.stored() == self.biz.br.stored().push(resp.bill)
            &&& next.biz.br.carries_on(&self.biz.br)
        }
        &&& action is Report ==> *next == *self
        &&& next.biz.tr == self.biz.tr
    }

    /// A run of turns: `states` are the dispatcher before the first
    /// request, between each two, and after the last, and each request was
    /// answered by one turn from the state before it to the state after it.
    pub open spec fn run(states: Seq<Self>, inbox: Seq<CreateBillReq>, log: Seq<Action>) -> bool {
        &&& states.len() == inbox.len() + 1
        &&& log.len() == inbox.len()
        &&& forall|k: int|
            #![trigger log[k]]
            0 <= k < inbox.len() ==> states[k].turn(inbox[k], log[k], &states[k + 1])
    }

    /// In a run, a request that finds the repository bound to accept its
    /// draft is answered with a response, and one that finds it bound to
    /// refuse is reported as failed, whatever became of the requests before
    /// it.
    pub proof fn lemma_run_answers_where_bound(
        states: Seq<Self>,
        inbox: Seq<CreateBillReq>,
        log: Seq<Action>,
        k: int,
    )
        requires
            Self::run(states, inbox, log),
            0 <= k < inbox.len(),
        ensures
            (forall|now: i64| #[trigger] states[k].biz.br.must_accept(inbox[k].draft(now)))
                ==> log[k] is Emit && log[k].answers(inbox[k]),
            (forall|now: i64| #[trigger] states[k].biz.br.must_refuse(inbox[k].draft(now)))
                ==> log[k] is Report && states[k + 1] == states[k],
    {
        assert(states[k].turn(inbox[k], log[k], &states[k + 1]));
    }

    /// Over a run the store grows by exactly the bills that went out, in
    /// the order in which they went out, and the tag repository stays as it
    /// was.
    pub proof fn lemma_run_store(states: Seq<Self>, inbox: Seq<CreateBillReq>, log: Seq<Action>)
        requires
            Self::run(states, inbox, log),
        ensures
            states[inbox.len() as int].biz.br.stored() == states[0].biz.br.stored() + emitted(log),
            states[inbox.len() as int].biz.tr == states[0].biz.tr,
        decreases inbox.len(),
    {
        let n = inbox.len() as int;
        if n == 0 {
            assert(states[0].biz.br.stored() + emitted(log) =~= states[0].biz.br.stored());
        } else {
            let earlier = states.drop_last();
            let asked = inbox.drop_last();
            let done = log.drop_last();
            assert forall|k: int| #![trigger done[k]] 0 <= k < asked.len() implies earlier[k].turn(
                asked[k],
                done[k],
                &earlier[k + 1],
            ) by {
                assert(states[k].turn(inbox[k], log[k], &states[k + 1]));
            }
            Self::lemma_run_store(earlier, asked, done);
            assert(states[n - 1].turn(inbox[n - 1], log[n - 1], &states[n]));
            match log[n - 1] {
                Action::Emit(resp) => {
                    assert((states[0].biz.br.stored() + emitted(done)).push(resp.bill)
                        =~= states[0].biz.br.stored() + emitted(done).push(resp.bill));
                },
                Action::Report(_) => {},
            }
        }
    }

    /// One turn of the dispatcher at the time `now`: hands the request's
    /// fields to the ledger service and decides by `respond`. A bill that
    /// goes out has been persisted as the newest entry of the store; where
    /// none goes out the dispatcher is as it was.
    pub fn handle_at(&mut self, now: i64, req: &CreateBillReq) -> (action: Action)
        ensures
            old(self).biz.br.must_accept(req.draft(now)) ==> action is Emit,
            old(self).biz.br.must_refuse(req.draft(now)) ==> action is Report,
            action matches Action::Emit(resp) ==> resp.bill.persisted_from(req.draft(now)),
            action matches Action::Emit(resp) ==> final(self).biz.br.stored() == old(
                self,
            ).biz.br.stored().push(resp.bill),
            action is Emit ==> final(self).biz.br.carries_on(&old(self).biz.br),
            action is Report ==> *final(self) == *old(self),
            final(self).biz.tr == old(self).biz.tr,
    {
        let result = self.biz.create_bill_at(
            now,
            req.user_id,
            req.book_id,
            req.amount,
            req.tag_id_lv1,
            req.tag_id_lv2,
        );
        respond(result)
    }

    /// One turn of the dispatcher at the current time of the wall clock.
    pub fn handle(&mut self, req: &CreateBillReq) -> (action: Action)
        ensures
            old(self).turn(*req, action, final(self)),
    {
        let result = self.biz.create_bill(
            req.user_id,
            req.book_id,
            req.amount,
            req.tag_id_lv1,
            req.tag_id_lv2,
        );
        respond(result)
    }

    /// The dispatcher loop over the requests that have arrived: takes them
    /// strictly in the order of arrival, finishes each, storage included,
    /// before it looks at the next, and goes on after a failure. It returns
    /// one action for each request, and the whole is a run of turns from
    /// the dispatcher as it was to the dispatcher as it is: each request is
    /// put to the ledger service in the state that the turns before it have
    /// left, and is answered where the repository is then bound to accept.
    /// The store has grown by exactly the bills that went out, in that
    /// order. Against a repository that is bound to refuse whatever it is
    /// asked, every request is reported as failed and nothing goes out.
    pub fn create_bill(&mut self, inbox: &[CreateBillReq]) -> (log: Vec<Action>)
        ensures
            log@.len() == inbox@.len(),
            exists|states: Seq<Self>|
                {
                    &&& #[trigger] Self::run(states, inbox@, log@)
                    &&& states[0] == *old(self)
                    &&& states[inbox@.len() as int] == *final(self)
                },
            forall|k: int| 0 <= k < log@.len() ==> (#[trigger] log@[k]).answers(inbox@[k]),
            final(self).biz.br.stored() == old(self).biz.br.stored() + emitted(log@),
            final(self).biz.tr == old(self).biz.tr,
            (forall|bill: Bill| #[trigger] old(self).biz.br.must_refuse(bill)) ==> {
                &&& forall|k: int| 0 <= k < log@.len() ==> #[trigger] log@[k] is Report
                &&& *final(self) == *old(self)
            },
    {
        let mut log: Vec<Action> = Vec::new();
        let n = inbox.len();
        let mut k: usize = 0;
        let ghost mut states: Seq<Self> = seq![*self];
        proof {
            assert(old(self).biz.br.stored() =~= old(self).biz.br.stored() + emitted(log@));
        }
        while k < n
            invariant
                k <= n,
                n == inbox@.len(),
                log@.len() == k,
                states.len() == k + 1,
                states[0] == *old(self),
                states[k as int] == *self,
                forall|m: int|
                    #![trigger log@[m]]
                    0 <= m < k ==> states[m].turn(inbox@[m], log@[m], &states[m + 1]),
                forall|m: int| 0 <= m < k ==> (#[trigger] log@[m]).answers(inbox@[m]),
                self.biz.br.stored() == old(self).biz.br.stored() + emitted(log@),
                self.biz.tr == old(self).biz.tr,
                (forall|bill: Bill| #[trigger] old(self).biz.br.must_refuse(bill)) ==> {
                    &&& forall|m: int| 0 <= m < k ==> #[trigger] log@[m] is Report
                    &&& *self == *old(self)
                },
            decreases n - k,
        {
            let ghost done = log@;
            let action = self.handle(&inbox[k]);
            proof {
                assert(done.push(action).drop_last() =~= done);
                match action {
                    Action::Emit(resp) => {
                        assert((old(self).biz.br.stored() + emitted(done)).push(resp.bill) =~= old(
                            self,
                        ).biz.br.stored() + emitted(done).push(resp.bill));
                    },
                    Action::Report(_) => {},
                }
            }
            log.push(action);
            proof {
                states = states.push(*self);
            }
            k += 1;
        }
        proof {
            assert(Self::run(states, inbox@, log@));
        }
        log
    }
}

} // verus!
