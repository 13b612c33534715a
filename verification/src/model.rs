//! The ledger as a mathematical value, and what each operation does to it.
//!
//! Every contract of `State` is stated over `StateView`: the operations are
//! total functions here, and the executable ones are proved to follow them.

use crate::asset::{AnimaView, EXPERIENCE_GAIN};
use crate::designation::designation_of;
use crate::error::Error;
use crate::payment::{PaymentRecord, PaymentStatus, PAYMENT_AMOUNT};
use candid::Principal;
use vstd::prelude::*;

verus! {

/// The whole ledger: the ANIMAs by identifier, the identifier the next mint
/// hands out, and the payment records by memo.
pub struct StateView {
    pub animas: Map<u64, AnimaView>,
    pub next_token_id: nat,
    pub payments: Map<u64, PaymentRecord>,
}

impl StateView {
    /// The ledger before anything has happened.
    pub open spec fn empty() -> StateView {
        StateView { animas: Map::empty(), next_token_id: 0, payments: Map::empty() }
    }

    /// `caller` owns the ANIMA `token_id`.
    pub open spec fn owns(self, caller: Principal, token_id: u64) -> bool {
        self.animas.contains_key(token_id) && self.animas[token_id].owner == caller
    }

    /// The payment under `memo` has been claimed.
    pub open spec fn consumed(self, memo: u64) -> bool {
        self.payments.contains_key(memo) && self.payments[memo].status
            == PaymentStatus::Completed
    }

    /// Some ANIMA of `payer` was paid for by `memo`.
    pub open spec fn has_anima_for(self, memo: u64, payer: Principal) -> bool {
        exists|token_id: u64|
            #[trigger] self.animas.contains_key(token_id) && self.animas[token_id].payment_memo
                == memo && self.animas[token_id].owner == payer
    }

    /// What holds of the ANIMA `token_id` in every ledger: its designation
    /// is the one of its identifier, its level is the one its experience
    /// calls for, and the payment it names is on record.
    pub open spec fn anima_wf(self, token_id: u64) -> bool {
        let anima = self.animas[token_id];
        &&& anima.designation == designation_of(token_id)
        &&& anima.level_matches_experience()
        &&& self.payments.contains_key(anima.payment_memo)
    }

    /// What holds of the payment under `memo` in every ledger: it is filed
    /// under its own memo at the fixed price, and if it has been claimed
    /// then the ANIMA it paid for exists and belongs to the payer.
    pub open spec fn payment_wf(self, memo: u64) -> bool {
        let payment = self.payments[memo];
        &&& payment.memo == memo
        &&& payment.amount == PAYMENT_AMOUNT
        &&& payment.status == PaymentStatus::Completed ==> self.has_anima_for(
            memo,
            payment.principal,
        )
    }

    /// The invariant of the ledger. The identifiers in use are exactly those
    /// below `next_token_id`, and every ANIMA and every payment is as
    /// `anima_wf` and `payment_wf` say.
    pub open spec fn wf(self) -> bool {
        &&& self.next_token_id <= u64::MAX
        &&& forall|token_id: u64| #[trigger]
            self.animas.contains_key(token_id) <==> token_id < self.next_token_id
        &&& forall|token_id: u64| #[trigger]
            self.animas.contains_key(token_id) ==> self.anima_wf(token_id)
        &&& forall|memo: u64| #[trigger]
            self.payments.contains_key(memo) ==> self.payment_wf(memo)
    }

    /// Payments and ANIMAs match one to one: every ANIMA names a claimed
    /// payment of its owner, and no two ANIMAs name the same payment.
    ///
    /// This holds of the empty ledger and is kept by every operation but
    /// one: registering a memo whose payment has been claimed files a new
    /// pending record over the claimed one.
    pub open spec fn settled(self) -> bool {
        &&& forall|token_id: u64| #[trigger]
            self.animas.contains_key(token_id) ==> {
                let anima = self.animas[token_id];
                &&& self.consumed(anima.payment_memo)
                &&& self.payments[anima.payment_memo].principal == anima.owner
            }
        &&& forall|a: u64, b: u64|
            #![trigger self.animas.contains_key(a), self.animas.contains_key(b)]
            self.animas.contains_key(a) && self.animas.contains_key(b)
                && self.animas[a].payment_memo == self.animas[b].payment_memo ==> a == b
    }

    /// `holdings` lists what `caller` owns: every entry is an ANIMA of
    /// theirs under its identifier, every ANIMA of theirs has an entry, and
    /// the entries stand in rising order of identifier.
    pub open spec fn lists_holdings_of(
        self,
        caller: Principal,
        holdings: Seq<(u64, AnimaView)>,
    ) -> bool {
        &&& forall|i: int|
            0 <= i < holdings.len() ==> self.owns(caller, (#[trigger] holdings[i]).0)
                && holdings[i].1 == self.animas[holdings[i].0]
        &&& forall|token_id: u64| #[trigger]
            self.owns(caller, token_id) ==> exists|i: int|
                0 <= i < holdings.len() && (#[trigger] holdings[i]).0 == token_id
        &&& forall|i: int, j: int|
            0 <= i < j < holdings.len() ==> (#[trigger] holdings[i]).0 < (#[trigger] holdings[j]).0
    }

    /// The ledger after `caller` registers `memo` at time `now`: a pending
    /// record is filed under `memo`, over whatever was there.
    pub open spec fn registered(self, caller: Principal, memo: u64, now: u64) -> StateView {
        StateView {
            payments: self.payments.insert(memo, PaymentRecord::pending(caller, memo, now)),
            ..self
        }
    }

    /// Why `caller` may not mint on `memo`, or `None` if they may: the
    /// payment must be on record, be theirs, and still be pending, and the
    /// first of these that fails is the answer.
    pub open spec fn claim_error(self, caller: Principal, memo: u64) -> Option<Error> {
        if !self.payments.contains_key(memo) {
            Some(Error::PaymentNotFound)
        } else if self.payments[memo].principal != caller {
            Some(Error::PayerMismatch)
        } else if self.payments[memo].status != PaymentStatus::Pending {
            Some(Error::PaymentAlreadyConsumed)
        } else {
            None
        }
    }

    /// The ledger after `caller` asks to mint on `memo` at time `now`. Where
    /// the claim stands, the payment is completed and a fresh ANIMA is filed
    /// under `next_token_id`, which moves on by one. Where it does not,
    /// nothing changes.
    pub open spec fn minted(self, caller: Principal, memo: u64, now: u64) -> StateView {
        if self.claim_error(caller, memo) is None {
            let token_id = self.next_token_id as u64;
            StateView {
                animas: self.animas.insert(
                    token_id,
                    AnimaView::minted(caller, designation_of(token_id), memo, now),
                ),
                next_token_id: self.next_token_id + 1,
                payments: self.payments.insert(memo, self.payments[memo].completed()),
            }
        } else {
            self
        }
    }

    /// The ledger after an interaction with `token_id`: the ANIMA gains
    /// `EXPERIENCE_GAIN`, if there is one, and nothing else changes.
    pub open spec fn interacted(self, token_id: u64) -> StateView {
        if self.animas.contains_key(token_id) {
            StateView {
                animas: self.animas.insert(
                    token_id,
                    self.animas[token_id].gain(EXPERIENCE_GAIN as nat),
                ),
                ..self
            }
        } else {
            self
        }
    }

    /// A mint by `caller` on `memo` does not run the identifier counter out
    /// of its range.
    pub open spec fn mint_fits(self, caller: Principal, memo: u64) -> bool {
        self.claim_error(caller, memo) is None ==> self.next_token_id < u64::MAX
    }

    /// An interaction with `token_id` does not run its experience out of
    /// range.
    pub open spec fn interaction_fits(self, token_id: u64) -> bool {
        self.animas.contains_key(token_id) ==> self.animas[token_id].experience
            + EXPERIENCE_GAIN <= u64::MAX
    }
}

/// A mint keeps the invariant of the ledger.
pub proof fn lemma_minted_keeps_wf(s: StateView, caller: Principal, memo: u64, now: u64)
    requires
        s.wf(),
        s.mint_fits(caller, memo),
    ensures
        s.minted(caller, memo, now).wf(),
{
    let t = s.minted(caller, memo, now);
    if s.claim_error(caller, memo) is None {
        let fresh = s.next_token_id as u64;
        assert(t.animas.contains_key(fresh));
        assert forall|token_id: u64| #[trigger] t.animas.contains_key(token_id) implies t.anima_wf(
            token_id,
        ) by {
            if token_id != fresh {
                assert(s.animas.contains_key(token_id));
                assert(s.anima_wf(token_id));
            }
        }
        assert forall|m: u64| #[trigger] t.payments.contains_key(m) implies t.payment_wf(m) by {
            if m == memo {
                assert(s.payment_wf(memo));
                assert(t.animas.contains_key(fresh));
            } else {
                assert(s.payments.contains_key(m));
                assert(s.payment_wf(m));
                if s.payments[m].status == PaymentStatus::Completed {
                    let witness = choose|token_id: u64| #[trigger]
                        s.animas.contains_key(token_id) && s.animas[token_id].payment_memo == m
                            && s.animas[token_id].owner == s.payments[m].principal;
                    assert(t.animas.contains_key(witness));
                }
            }
        }
    }
}

/// A mint keeps payments and ANIMAs matched one to one.
pub proof fn lemma_minted_keeps_settled(s: StateView, caller: Principal, memo: u64, now: u64)
    requires
        s.wf(),
        s.settled(),
        s.mint_fits(caller, memo),
    ensures
        s.minted(caller, memo, now).settled(),
{
    let t = s.minted(caller, memo, now);
    if s.claim_error(caller, memo) is None {
        let fresh = s.next_token_id as u64;
        assert forall|token_id: u64| #[trigger] t.animas.contains_key(token_id) implies ({
            let anima = t.animas[token_id];
            &&& t.consumed(anima.payment_memo)
            &&& t.payments[anima.payment_memo].principal == anima.owner
        }) by {
            if token_id != fresh {
                assert(s.animas.contains_key(token_id));
            }
        }
        assert forall|a: u64, b: u64|
            #![trigger t.animas.contains_key(a), t.animas.contains_key(b)]
            t.animas.contains_key(a) && t.animas.contains_key(b) && t.animas[a].payment_memo
                == t.animas[b].payment_memo implies a == b by {
            if a != fresh {
                assert(s.animas.contains_key(a));
            }
            if b != fresh {
                assert(s.animas.contains_key(b));
            }
        }
    }
}

/// Registering a payment keeps the invariant of the ledger.
pub proof fn lemma_registered_keeps_wf(s: StateView, caller: Principal, memo: u64, now: u64)
    requires
        s.wf(),
    ensures
        s.registered(caller, memo, now).wf(),
{
    let t = s.registered(caller, memo, now);
    assert forall|token_id: u64| #[trigger] t.animas.contains_key(token_id) implies t.anima_wf(
        token_id,
    ) by {
        assert(s.anima_wf(token_id));
    }
    assert forall|m: u64| #[trigger] t.payments.contains_key(m) implies t.payment_wf(m) by {
        if m != memo {
            assert(s.payments.contains_key(m));
            assert(s.payment_wf(m));
        }
    }
}

/// Registering a memo whose payment has not been claimed keeps payments and
/// ANIMAs matched one to one.
pub proof fn lemma_registered_keeps_settled(s: StateView, caller: Principal, memo: u64, now: u64)
    requires
        s.settled(),
        !s.consumed(memo),
    ensures
        s.registered(caller, memo, now).settled(),
{
    let t = s.registered(caller, memo, now);
    assert forall|token_id: u64| #[trigger] t.animas.contains_key(token_id) implies ({
        let anima = t.animas[token_id];
        &&& t.consumed(anima.payment_memo)
        &&& t.payments[anima.payment_memo].principal == anima.owner
    }) by {
        assert(s.animas.contains_key(token_id));
    }
}

/// An interaction keeps the invariant of the ledger.
pub proof fn lemma_interacted_keeps_wf(s: StateView, token_id: u64)
    requires
        s.wf(),
    ensures
        s.interacted(token_id).wf(),
{
    let t = s.interacted(token_id);
    if s.animas.contains_key(token_id) {
        assert forall|id: u64| #[trigger] t.animas.contains_key(id) implies t.anima_wf(id) by {
            assert(s.animas.contains_key(id));
            assert(s.anima_wf(id));
        }
        assert forall|m: u64| #[trigger] t.payments.contains_key(m) implies t.payment_wf(m) by {
            assert(s.payment_wf(m));
            if s.payments[m].status == PaymentStatus::Completed {
                let witness = choose|id: u64| #[trigger]
                    s.animas.contains_key(id) && s.animas[id].payment_memo == m
                        && s.animas[id].owner == s.payments[m].principal;
                assert(t.animas.contains_key(witness));
            }
        }
    }
}

/// An interaction keeps payments and ANIMAs matched one to one.
pub proof fn lemma_interacted_keeps_settled(s: StateView, token_id: u64)
    requires
        s.settled(),
    ensures
        s.interacted(token_id).settled(),
{
    let t = s.interacted(token_id);
    if s.animas.contains_key(token_id) {
        assert forall|id: u64| #[trigger] t.animas.contains_key(id) implies ({
            let anima = t.animas[id];
            &&& t.consumed(anima.payment_memo)
            &&& t.payments[anima.payment_memo].principal == anima.owner
        }) by {
            assert(s.animas.contains_key(id));
        }
        assert forall|a: u64, b: u64|
            #![trigger t.animas.contains_key(a), t.animas.contains_key(b)]
            t.animas.contains_key(a) && t.animas.contains_key(b) && t.animas[a].payment_memo
                == t.animas[b].payment_memo implies a == b by {
            assert(s.animas.contains_key(a));
            assert(s.animas.contains_key(b));
        }
    }
}

} // verus!
