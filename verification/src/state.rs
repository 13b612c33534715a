//! The ledger itself: payments by memo, ANIMAs by identifier, and the
//! counter that numbers them.

use crate::asset::{AnimaData, AnimaView, EXPERIENCE_GAIN};
use crate::designation::{designation, designation_of};
use crate::error::Error;
use crate::model::StateView;
use crate::payment::{PaymentRecord, PaymentStatus, PAYMENT_AMOUNT};
use crate::principal::same_principal;
use candid::Principal;
use std::collections::HashMap;
use vstd::prelude::*;
use vstd::string::*;

verus! {

/// What a successful mint hands back.
#[derive(Debug, PartialEq, Eq)]
pub struct MintResult {
    /// The identifier of the new ANIMA.
    pub token_id: u64,
    /// Its label.
    pub designation: String,
}

impl Clone for MintResult {
    fn clone(&self) -> (copy: Self)
        ensures
            copy == *self,
    {
        MintResult { token_id: self.token_id, designation: self.designation.clone() }
    }
}

/// What a successful interaction hands back.
#[derive(Debug, PartialEq, Eq)]
pub struct InteractionResponse {
    /// A sentence of confirmation.
    pub message: String,
    /// The experience that the ANIMA gained.
    pub experience_gained: u64,
}

impl Clone for InteractionResponse {
    fn clone(&self) -> (copy: Self)
        ensures
            copy == *self,
    {
        InteractionResponse {
            message: self.message.clone(),
            experience_gained: self.experience_gained,
        }
    }
}

/// The sentence that confirms an interaction.
pub open spec fn confirmation_text() -> Seq<char> {
    "Interaction successful. Experience gained: 10"@
}

/// The entries of `holdings` as mathematical values.
pub open spec fn holdings_view(holdings: Seq<(u64, AnimaData)>) -> Seq<(u64, AnimaView)> {
    Seq::new(holdings.len(), |i: int| (holdings[i].0, holdings[i].1@))
}

/// The ledger. Its fields are private: a ledger is only ever made empty and
/// changed through the operations below, each of which keeps `wf`.
pub struct State {
    animas: HashMap<u64, AnimaData>,
    next_token_id: u64,
    payments: HashMap<u64, PaymentRecord>,
}

impl View for State {
    type V = StateView;

    closed spec fn view(&self) -> StateView {
        StateView {
            animas: self.animas@.map_values(|anima: AnimaData| anima@),
            next_token_id: self.next_token_id as nat,
            payments: self.payments@,
        }
    }
}

impl Default for State {
    /// The empty ledger.
    fn default() -> (state: State)
        ensures
            state@ == StateView::empty(),
            state.wf(),
            state@.settled(),
    {
        let state = State { animas: HashMap::new(), next_token_id: 0, payments: HashMap::new() };
        assert(state@.animas =~= Map::empty());
        state
    }
}

impl State {
    /// The invariant of the ledger: that of its view.
    pub open spec fn wf(&self) -> bool {
        self@.wf()
    }

    /// The identifier that the next successful mint hands out.
    pub fn next_token_id(&self) -> (next: u64)
        ensures
            next == self@.next_token_id,
    {
        self.next_token_id
    }

    /// Registers `caller`'s intent to pay under `memo` at time `now`.
    ///
    /// Always succeeds. A pending record at the fixed price is filed under
    /// `memo`; a record that was there before, pending or claimed, is
    /// replaced by it.
    pub fn register_payment(&mut self, caller: Principal, memo: u64, now: u64) -> (result: Result<
        (),
        Error,
    >)
        requires
            old(self).wf(),
        ensures
            result is Ok,
            final(self)@ == old(self)@.registered(caller, memo, now),
            final(self).wf(),
            old(self)@.settled() && !old(self)@.consumed(memo) ==> final(self)@.settled(),
    {
        let payment = PaymentRecord {
            principal: caller,
            memo,
            timestamp: now,
            amount: PAYMENT_AMOUNT,
            status: PaymentStatus::Pending,
        };
        self.payments.insert(memo, payment);
        proof {
            let before = old(self)@;
            assert(self@.animas =~= before.animas);
            assert(self@ == before.registered(caller, memo, now));
            crate::model::lemma_registered_keeps_wf(before, caller, memo, now);
            if before.settled() && !before.consumed(memo) {
                crate::model::lemma_registered_keeps_settled(before, caller, memo, now);
            }
        }
        Ok(())
    }

    /// Decides whether `caller` may mint on `memo`, without changing
    /// anything. Returns the payment record if the claim stands, and
    /// otherwise the reason it does not.
    pub fn check_claim(&self, caller: &Principal, memo: u64) -> (found: Result<
        PaymentRecord,
        Error,
    >)
        ensures
            match found {
                Ok(payment) => self@.claim_error(*caller, memo) is None && payment
                    == self@.payments[memo],
                Err(e) => self@.claim_error(*caller, memo) == Some(e),
            },
    {
        match self.payments.get(&memo) {
            None => Err(Error::PaymentNotFound),
            Some(payment) => {
                if !same_principal(&payment.principal, caller) {
                    Err(Error::PayerMismatch)
                } else {
                    match payment.status {
                        PaymentStatus::Pending => Ok(*payment),
                        PaymentStatus::Completed => Err(Error::PaymentAlreadyConsumed),
                    }
                }
            },
        }
    }

    /// Whether a mint by `caller` on `memo` leaves the identifier counter in
    /// range, which `mint_anima` asks of its caller. It does unless the
    /// claim stands and `u64::MAX` identifiers have been handed out.
    pub fn mint_fits(&self, caller: &Principal, memo: u64) -> (fits: bool)
        ensures
            fits == self@.mint_fits(*caller, memo),
    {
        match self.check_claim(caller, memo) {
            Ok(_) => self.next_token_id < u64::MAX,
            Err(_) => true,
        }
    }

    /// Mints an ANIMA for `caller` on the payment filed under `memo`.
    ///
    /// Succeeds exactly when the payment is on record, is `caller`'s and is
    /// still pending. The payment is then completed, and the new ANIMA gets
    /// the next identifier, the designation of that identifier, level 1 and
    /// no experience. Otherwise the ledger is left as it was.
    pub fn mint_anima(&mut self, caller: Principal, memo: u64, now: u64) -> (result: Result<
        MintResult,
        Error,
    >)
        requires
            old(self).wf(),
            old(self)@.mint_fits(caller, memo),
        ensures
            match result {
                Ok(minted) => {
                    &&& old(self)@.claim_error(caller, memo) is None
                    &&& minted.token_id == old(self)@.next_token_id
                    &&& minted.designation@ == designation_of(minted.token_id)
                },
                Err(e) => old(self)@.claim_error(caller, memo) == Some(e),
            },
            final(self)@ == old(self)@.minted(caller, memo, now),
            final(self).wf(),
            old(self)@.settled() ==> final(self)@.settled(),
    {
        let payment = match self.check_claim(&caller, memo) {
            Ok(payment) => payment,
            Err(e) => {
                return Err(e);
            },
        };
        let completed = PaymentRecord {
            principal: payment.principal,
            memo: payment.memo,
            timestamp: payment.timestamp,
            amount: payment.amount,
            status: PaymentStatus::Completed,
        };
        self.payments.insert(memo, completed);
        let token_id = self.next_token_id;
        self.next_token_id = token_id + 1;
        let label = designation(token_id);
        let anima = AnimaData {
            owner: caller,
            designation: label.clone(),
            created_at: now,
            level: 1,
            experience: 0,
            payment_memo: memo,
        };
        self.animas.insert(token_id, anima);
        proof {
            let before = old(self)@;
            let after = before.minted(caller, memo, now);
            assert(self@.animas =~= after.animas);
            assert(self@.payments =~= after.payments);
            assert(self@ == after);
            crate::model::lemma_minted_keeps_wf(before, caller, memo, now);
            if before.settled() {
                crate::model::lemma_minted_keeps_settled(before, caller, memo, now);
            }
        }
        Ok(MintResult { token_id, designation: label })
    }

    /// The ANIMA filed under `token_id`, if there is one.
    pub fn get_anima(&self, token_id: u64) -> (found: Option<AnimaData>)
        ensures
            match found {
                Some(anima) => self@.animas.contains_key(token_id) && anima@
                    == self@.animas[token_id],
                None => !self@.animas.contains_key(token_id),
            },
    {
        match self.animas.get(&token_id) {
            Some(anima) => Some(anima.clone()),
            None => None,
        }
    }

    /// Every ANIMA that `caller` owns, each with its identifier, in rising
    /// order of identifier.
    pub fn get_user_animas(&self, caller: Principal) -> (holdings: Vec<(u64, AnimaData)>)
        requires
            self.wf(),
        ensures
            self@.lists_holdings_of(caller, holdings_view(holdings@)),
    {
        let mut holdings: Vec<(u64, AnimaData)> = Vec::new();
        let mut token_id: u64 = 0;
        while token_id < self.next_token_id
            invariant
                self.wf(),
                token_id <= self.next_token_id,
                forall|i: int|
                    0 <= i < holdings.len() ==> self@.owns(caller, (#[trigger] holdings[i]).0)
                        && holdings[i].1@ == self@.animas[holdings[i].0] && holdings[i].0
                        < token_id,
                forall|id: u64|
                    id < token_id && #[trigger] self@.owns(caller, id) ==> exists|i: int|
                        0 <= i < holdings.len() && (#[trigger] holdings[i]).0 == id,
                forall|i: int, j: int|
                    0 <= i < j < holdings.len() ==> (#[trigger] holdings[i]).0
                        < (#[trigger] holdings[j]).0,
            decreases self.next_token_id - token_id,
        {
            match self.animas.get(&token_id) {
                Some(anima) => {
                    if same_principal(&anima.owner, &caller) {
                        let ghost before = holdings@;
                        holdings.push((token_id, anima.clone()));
                        proof {
                            let last = before.len() as int;
                            assert(holdings[last].0 == token_id);
                            assert forall|id: u64|
                                id < token_id + 1 && #[trigger] self@.owns(
                                    caller,
                                    id,
                                ) implies exists|i: int|
                                0 <= i < holdings.len() && (#[trigger] holdings[i]).0 == id by {
                                if id < token_id {
                                    let i = choose|i: int|
                                        0 <= i < before.len() && (#[trigger] before[i]).0 == id;
                                    assert(holdings[i].0 == id);
                                }
                            }
                        }
                    }
                },
                None => {},
            }
            token_id = token_id + 1;
        }
        proof {
            let listed = holdings_view(holdings@);
            assert forall|id: u64| #[trigger] self@.owns(caller, id) implies exists|i: int|
                0 <= i < listed.len() && (#[trigger] listed[i]).0 == id by {
                let i = choose|i: int| 0 <= i < holdings.len() && (#[trigger] holdings[i]).0 == id;
                assert(listed[i].0 == id);
            }
        }
        holdings
    }

    /// Whether an interaction with `token_id` leaves the experience of the
    /// ANIMA in range, which `interact` asks of its caller. It does unless
    /// there is such an ANIMA and it is within `EXPERIENCE_GAIN` of
    /// `u64::MAX`.
    pub fn interaction_fits(&self, token_id: u64) -> (fits: bool)
        ensures
            fits == self@.interaction_fits(token_id),
    {
        match self.animas.get(&token_id) {
            Some(anima) => anima.experience <= u64::MAX - EXPERIENCE_GAIN,
            None => true,
        }
    }

    /// Lets the ANIMA `token_id` gain `EXPERIENCE_GAIN` and rise in level as
    /// far as its experience then carries it. Fails, and changes nothing, if
    /// there is no such ANIMA. The message is accepted and has no effect.
    pub fn interact(&mut self, token_id: u64, _message: Option<String>) -> (result: Result<
        InteractionResponse,
        Error,
    >)
        requires
            old(self).wf(),
            old(self)@.interaction_fits(token_id),
        ensures
            match result {
                Ok(response) => {
                    &&& old(self)@.animas.contains_key(token_id)
                    &&& response.experience_gained == EXPERIENCE_GAIN
                    &&& response.message@ == confirmation_text()
                },
                Err(e) => !old(self)@.animas.contains_key(token_id) && e == Error::AssetNotFound,
            },
            final(self)@ == old(self)@.interacted(token_id),
            final(self).wf(),
            old(self)@.settled() ==> final(self)@.settled(),
    {
        match self.animas.remove(&token_id) {
            None => {
                assert(self.animas@ =~= old(self).animas@);
                Err(Error::AssetNotFound)
            },
            Some(anima) => {
                let mut anima = anima;
                anima.gain_experience(EXPERIENCE_GAIN);
                self.animas.insert(token_id, anima);
                proof {
                    let before = old(self)@;
                    assert(self@.animas =~= before.interacted(token_id).animas);
                    assert(self@ == before.interacted(token_id));
                    crate::model::lemma_interacted_keeps_wf(before, token_id);
                    if before.settled() {
                        crate::model::lemma_interacted_keeps_settled(before, token_id);
                    }
                }
                Ok(
                    InteractionResponse {
                        message: String::from_str("Interaction successful. Experience gained: 10"),
                        experience_gained: EXPERIENCE_GAIN,
                    },
                )
            },
        }
    }
}

} // verus!
