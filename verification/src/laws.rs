//! What the ledger guarantees, proved over its mathematical model.
//!
//! The first part speaks of one or two operations. The second part speaks of
//! whole histories: any number of registrations, mints and interactions, one
//! after the other.

use crate::asset::{AnimaView, EXPERIENCE_GAIN};
use crate::designation::{designation_of, lemma_designation_determines_token};
use crate::error::Error;
use crate::model::{
    lemma_interacted_keeps_wf, lemma_minted_keeps_wf, lemma_registered_keeps_wf, StateView,
};
use candid::Principal;
use vstd::prelude::*;

verus! {

/// A memo mints at most once. Whatever the first request to mint on `memo`
/// did, a second one by the same caller fails; if the first one succeeded,
/// the second fails because the payment has been consumed, and changes
/// nothing.
pub proof fn law_memo_mints_at_most_once(
    s: StateView,
    caller: Principal,
    memo: u64,
    first: u64,
    second: u64,
)
    ensures
        s.minted(caller, memo, first).claim_error(caller, memo) is Some,
        s.claim_error(caller, memo) is None ==> s.minted(caller, memo, first).claim_error(
            caller,
            memo,
        ) == Some(Error::PaymentAlreadyConsumed),
        s.minted(caller, memo, first).minted(caller, memo, second) == s.minted(
            caller,
            memo,
            first,
        ),
{
}

/// Only the payer mints. On a memo that `payer` registered, a request by
/// anybody else fails with `PayerMismatch` and changes nothing.
pub proof fn law_only_the_payer_mints(
    s: StateView,
    payer: Principal,
    other: Principal,
    memo: u64,
    now: u64,
)
    requires
        s.payments.contains_key(memo),
        s.payments[memo].principal == payer,
        other != payer,
    ensures
        s.claim_error(other, memo) == Some(Error::PayerMismatch),
        s.minted(other, memo, now) == s,
{
}

/// A registration makes its caller the payer of the memo, so that straight
/// after it nobody else can mint on the memo.
pub proof fn law_registration_names_the_payer(
    s: StateView,
    payer: Principal,
    other: Principal,
    memo: u64,
    registered_at: u64,
)
    requires
        other != payer,
    ensures
        s.registered(payer, memo, registered_at).payments.contains_key(memo),
        s.registered(payer, memo, registered_at).payments[memo].principal == payer,
        s.registered(payer, memo, registered_at).claim_error(other, memo) == Some(
            Error::PayerMismatch,
        ),
{
}

/// No payment, no mint. A request on a memo that was never registered fails
/// with `PaymentNotFound` and changes nothing, whoever makes it.
pub proof fn law_unregistered_memo_is_not_found(
    s: StateView,
    caller: Principal,
    memo: u64,
    now: u64,
)
    requires
        !s.payments.contains_key(memo),
    ensures
        s.claim_error(caller, memo) == Some(Error::PaymentNotFound),
        s.minted(caller, memo, now) == s,
{
}

/// A request that is refused changes nothing: not a mint whose claim does
/// not stand, and not an interaction with an ANIMA that does not exist.
pub proof fn law_refused_request_changes_nothing(
    s: StateView,
    caller: Principal,
    memo: u64,
    now: u64,
    token_id: u64,
)
    ensures
        s.claim_error(caller, memo) is Some ==> s.minted(caller, memo, now) == s,
        !s.animas.contains_key(token_id) ==> s.interacted(token_id) == s,
{
}

/// A successful mint hands out an identifier that no ANIMA carries yet and
/// that lies above every identifier in use, and moves the counter past it.
pub proof fn law_minted_identifier_is_fresh(s: StateView, caller: Principal, memo: u64, now: u64)
    requires
        s.wf(),
        s.mint_fits(caller, memo),
        s.claim_error(caller, memo) is None,
    ensures
        !s.animas.contains_key(s.next_token_id as u64),
        forall|token_id: u64| #[trigger]
            s.animas.contains_key(token_id) ==> token_id < s.next_token_id,
        s.minted(caller, memo, now).animas.contains_key(s.next_token_id as u64),
        s.minted(caller, memo, now).next_token_id == s.next_token_id + 1,
{
}

/// No two ANIMAs share a designation.
pub proof fn law_designations_are_unique(s: StateView, a: u64, b: u64)
    requires
        s.wf(),
        s.animas.contains_key(a),
        s.animas.contains_key(b),
        s.animas[a].designation == s.animas[b].designation,
    ensures
        a == b,
{
    assert(s.anima_wf(a) && s.anima_wf(b));
    lemma_designation_determines_token(a, b);
}

/// An interaction never takes anything away. The ANIMA it names ends with
/// exactly `EXPERIENCE_GAIN` more experience and with a level no lower than
/// before; every other ANIMA, the payments and the counter stay as they
/// were.
pub proof fn law_interaction_only_adds(s: StateView, token_id: u64)
    requires
        s.animas.contains_key(token_id),
    ensures
        s.interacted(token_id).animas.contains_key(token_id),
        s.interacted(token_id).animas[token_id].experience == s.animas[token_id].experience
            + EXPERIENCE_GAIN,
        s.interacted(token_id).animas[token_id].experience > s.animas[token_id].experience,
        s.interacted(token_id).animas[token_id].level >= s.animas[token_id].level,
        forall|other: u64|
            other != token_id ==> (#[trigger] s.interacted(token_id).animas.contains_key(other)
                <==> s.animas.contains_key(other)),
        forall|other: u64|
            other != token_id && s.animas.contains_key(other) ==> #[trigger] s.interacted(
                token_id,
            ).animas[other] == s.animas[other],
        s.interacted(token_id).payments == s.payments,
        s.interacted(token_id).next_token_id == s.next_token_id,
{
}

/// Register, mint, look up. After `payer` registers `memo` and mints on it,
/// the ANIMA filed under the identifier that the mint handed out is owned by
/// `payer`, names `memo` as its payment, carries the designation of its
/// identifier, and starts at level 1 with no experience.
pub proof fn law_register_mint_round_trip(
    s: StateView,
    payer: Principal,
    memo: u64,
    registered_at: u64,
    minted_at: u64,
)
    requires
        s.wf(),
        s.next_token_id < u64::MAX,
    ensures
        s.registered(payer, memo, registered_at).claim_error(payer, memo) is None,
        ({
            let token_id = s.next_token_id as u64;
            let after = s.registered(payer, memo, registered_at).minted(payer, memo, minted_at);
            &&& after.animas.contains_key(token_id)
            &&& after.animas[token_id] == AnimaView::minted(
                payer,
                designation_of(token_id),
                memo,
                minted_at,
            )
            &&& after.animas[token_id].owner == payer
            &&& after.animas[token_id].payment_memo == memo
            &&& after.consumed(memo)
        }),
{
}

/// `holdings` lists what `caller` owns among the identifiers below `bound`,
/// in rising order.
spec fn lists_holdings_below(
    s: StateView,
    caller: Principal,
    holdings: Seq<(u64, AnimaView)>,
    bound: nat,
) -> bool {
    &&& forall|i: int|
        0 <= i < holdings.len() ==> s.owns(caller, (#[trigger] holdings[i]).0) && holdings[i].1
            == s.animas[holdings[i].0] && holdings[i].0 < bound
    &&& forall|token_id: u64|
        token_id < bound && #[trigger] s.owns(caller, token_id) ==> exists|i: int|
            0 <= i < holdings.len() && (#[trigger] holdings[i]).0 == token_id
    &&& forall|i: int, j: int|
        0 <= i < j < holdings.len() ==> (#[trigger] holdings[i]).0 < (#[trigger] holdings[j]).0
}

/// Two lists of what `caller` owns below `bound` are the same list.
proof fn lemma_holdings_below_are_determined(
    s: StateView,
    caller: Principal,
    a: Seq<(u64, AnimaView)>,
    b: Seq<(u64, AnimaView)>,
    bound: nat,
)
    requires
        lists_holdings_below(s, caller, a, bound),
        lists_holdings_below(s, caller, b, bound),
    ensures
        a == b,
    decreases a.len(),
{
    if a.len() == 0 {
        if b.len() > 0 {
            assert(s.owns(caller, b[0].0));
        }
        assert(a =~= b);
    } else if b.len() == 0 {
        assert(s.owns(caller, a[0].0));
    } else {
        let top_a = a.last().0;
        let top_b = b.last().0;
        assert(s.owns(caller, top_a));
        assert(s.owns(caller, top_b));
        if top_a < top_b {
            let i = choose|i: int| 0 <= i < a.len() && (#[trigger] a[i]).0 == top_b;
            assert(i == a.len() - 1 || a[i].0 < a[a.len() - 1].0);
        }
        if top_b < top_a {
            let i = choose|i: int| 0 <= i < b.len() && (#[trigger] b[i]).0 == top_a;
            assert(i == b.len() - 1 || b[i].0 < b[b.len() - 1].0);
        }
        assert(top_a == top_b);
        let rest_a = a.drop_last();
        let rest_b = b.drop_last();
        assert(lists_holdings_below(s, caller, rest_a, top_a as nat)) by {
            assert forall|i: int| 0 <= i < rest_a.len() implies s.owns(
                caller,
                (#[trigger] rest_a[i]).0,
            ) && rest_a[i].1 == s.animas[rest_a[i].0] && rest_a[i].0 < top_a by {
                assert(rest_a[i] == a[i]);
                assert(a[i].0 < a[a.len() - 1].0);
            }
            assert forall|token_id: u64|
                token_id < top_a && #[trigger] s.owns(caller, token_id) implies exists|i: int|
                0 <= i < rest_a.len() && (#[trigger] rest_a[i]).0 == token_id by {
                let i = choose|i: int| 0 <= i < a.len() && (#[trigger] a[i]).0 == token_id;
                assert(rest_a[i] == a[i]);
            }
            assert forall|i: int, j: int| 0 <= i < j < rest_a.len() implies (#[trigger] rest_a[i]).0
                < (#[trigger] rest_a[j]).0 by {
                assert(rest_a[i] == a[i] && rest_a[j] == a[j]);
            }
        }
        assert(lists_holdings_below(s, caller, rest_b, top_a as nat)) by {
            assert forall|i: int| 0 <= i < rest_b.len() implies s.owns(
                caller,
                (#[trigger] rest_b[i]).0,
            ) && rest_b[i].1 == s.animas[rest_b[i].0] && rest_b[i].0 < top_a by {
                assert(rest_b[i] == b[i]);
                assert(b[i].0 < b[b.len() - 1].0);
            }
            assert forall|token_id: u64|
                token_id < top_a && #[trigger] s.owns(caller, token_id) implies exists|i: int|
                0 <= i < rest_b.len() && (#[trigger] rest_b[i]).0 == token_id by {
                let i = choose|i: int| 0 <= i < b.len() && (#[trigger] b[i]).0 == token_id;
                assert(rest_b[i] == b[i]);
            }
            assert forall|i: int, j: int| 0 <= i < j < rest_b.len() implies (#[trigger] rest_b[i]).0
                < (#[trigger] rest_b[j]).0 by {
                assert(rest_b[i] == b[i] && rest_b[j] == b[j]);
            }
        }
        lemma_holdings_below_are_determined(s, caller, rest_a, rest_b, top_a as nat);
        assert(a.last() == b.last());
        assert(a =~= rest_a.push(a.last()));
        assert(b =~= rest_b.push(b.last()));
    }
}

/// What a caller owns is one list and no other: two lists that both satisfy
/// `lists_holdings_of` for the same ledger and caller are equal.
pub proof fn law_holdings_are_determined(
    s: StateView,
    caller: Principal,
    a: Seq<(u64, AnimaView)>,
    b: Seq<(u64, AnimaView)>,
)
    requires
        s.lists_holdings_of(caller, a),
        s.lists_holdings_of(caller, b),
    ensures
        a == b,
{
    let bound: nat = u64::MAX as nat + 1;
    assert(lists_holdings_below(s, caller, a, bound));
    assert(lists_holdings_below(s, caller, b, bound));
    lemma_holdings_below_are_determined(s, caller, a, b, bound);
}

/// One request to the ledger.
pub enum Op {
    /// `caller` registers `memo` at time `now`.
    Register { caller: Principal, memo: u64, now: u64 },
    /// `caller` asks to mint on `memo` at time `now`.
    Mint { caller: Principal, memo: u64, now: u64 },
    /// Somebody interacts with the ANIMA `token_id`.
    Interact { token_id: u64 },
}

impl Op {
    /// The request registers `memo`.
    pub open spec fn registers(self, memo: u64) -> bool {
        self matches Op::Register { memo: m, .. } && m == memo
    }
}

impl StateView {
    /// The request stays within the range of the counters it moves.
    pub open spec fn fits(self, op: Op) -> bool {
        match op {
            Op::Register { .. } => true,
            Op::Mint { caller, memo, .. } => self.mint_fits(caller, memo),
            Op::Interact { token_id } => self.interaction_fits(token_id),
        }
    }

    /// The ledger after the request.
    pub open spec fn after(self, op: Op) -> StateView {
        match op {
            Op::Register { caller, memo, now } => self.registered(caller, memo, now),
            Op::Mint { caller, memo, now } => self.minted(caller, memo, now),
            Op::Interact { token_id } => self.interacted(token_id),
        }
    }

    /// The ledger after the requests `ops`, first to last.
    pub open spec fn after_all(self, ops: Seq<Op>) -> StateView
        decreases ops.len(),
    {
        if ops.len() == 0 {
            self
        } else {
            self.after_all(ops.drop_last()).after(ops.last())
        }
    }

    /// Each of the requests `ops` fits the ledger it meets.
    pub open spec fn fits_all(self, ops: Seq<Op>) -> bool
        decreases ops.len(),
    {
        ops.len() == 0 || (self.fits_all(ops.drop_last()) && self.after_all(ops.drop_last()).fits(
            ops.last(),
        ))
    }
}

/// One request keeps the invariant of the ledger.
pub proof fn law_request_keeps_invariant(s: StateView, op: Op)
    requires
        s.wf(),
        s.fits(op),
    ensures
        s.after(op).wf(),
{
    match op {
        Op::Register { caller, memo, now } => lemma_registered_keeps_wf(s, caller, memo, now),
        Op::Mint { caller, memo, now } => lemma_minted_keeps_wf(s, caller, memo, now),
        Op::Interact { token_id } => lemma_interacted_keeps_wf(s, token_id),
    }
}

/// The invariant of the ledger holds after every history.
pub proof fn law_history_keeps_invariant(s: StateView, ops: Seq<Op>)
    requires
        s.wf(),
        s.fits_all(ops),
    ensures
        s.after_all(ops).wf(),
    decreases ops.len(),
{
    if ops.len() > 0 {
        law_history_keeps_invariant(s, ops.drop_last());
        law_request_keeps_invariant(s.after_all(ops.drop_last()), ops.last());
    }
}

/// Nothing is ever taken back. Over any history the counter does not fall,
/// and an ANIMA that exists keeps its identifier, owner, designation, time
/// of creation and payment memo, while its experience and level do not fall.
pub proof fn law_history_only_adds(s: StateView, ops: Seq<Op>, token_id: u64)
    requires
        s.wf(),
        s.fits_all(ops),
        s.animas.contains_key(token_id),
    ensures
        s.after_all(ops).next_token_id >= s.next_token_id,
        s.after_all(ops).animas.contains_key(token_id),
        s.after_all(ops).animas[token_id].owner == s.animas[token_id].owner,
        s.after_all(ops).animas[token_id].designation == s.animas[token_id].designation,
        s.after_all(ops).animas[token_id].created_at == s.animas[token_id].created_at,
        s.after_all(ops).animas[token_id].payment_memo == s.animas[token_id].payment_memo,
        s.after_all(ops).animas[token_id].experience >= s.animas[token_id].experience,
        s.after_all(ops).animas[token_id].level >= s.animas[token_id].level,
    decreases ops.len(),
{
    if ops.len() > 0 {
        let before = s.after_all(ops.drop_last());
        law_history_only_adds(s, ops.drop_last(), token_id);
        law_history_keeps_invariant(s, ops.drop_last());
        assert(before.animas.contains_key(token_id));
    }
}

/// Identifiers rise for as long as the ledger lives. If a mint succeeds, and
/// after any history another mint succeeds, the second identifier is larger
/// than the first, and the first ANIMA is still filed under the first.
pub proof fn law_identifiers_strictly_increase(
    s: StateView,
    first: Op,
    between: Seq<Op>,
    second: Op,
)
    requires
        s.wf(),
        first matches Op::Mint { caller, memo, .. } && s.claim_error(caller, memo) is None,
        s.fits(first),
        s.after(first).fits_all(between),
        second matches Op::Mint { caller, memo, .. } && s.after(first).after_all(
            between,
        ).claim_error(caller, memo) is None,
    ensures
        s.next_token_id < s.after(first).after_all(between).next_token_id,
        s.after(first).after_all(between).animas.contains_key(s.next_token_id as u64),
        s.after(first).after_all(between).after(second).animas.contains_key(
            s.after(first).after_all(between).next_token_id as u64,
        ),
{
    law_request_keeps_invariant(s, first);
    let minted = s.after(first);
    assert(minted.animas.contains_key(s.next_token_id as u64));
    law_history_only_adds(minted, between, s.next_token_id as u64);
}

/// A claimed payment stays claimed. Over any history in which `memo` is not
/// registered again, a payment that has been consumed stays consumed, with
/// the same payer, so every later request to mint on it fails.
pub proof fn law_consumed_payment_stays_consumed(
    s: StateView,
    ops: Seq<Op>,
    memo: u64,
    caller: Principal,
)
    requires
        s.consumed(memo),
        forall|i: int| 0 <= i < ops.len() ==> !(#[trigger] ops[i]).registers(memo),
    ensures
        s.after_all(ops).consumed(memo),
        s.after_all(ops).payments[memo].principal == s.payments[memo].principal,
        s.after_all(ops).claim_error(caller, memo) is Some,
        caller == s.payments[memo].principal ==> s.after_all(ops).claim_error(caller, memo)
            == Some(Error::PaymentAlreadyConsumed),
    decreases ops.len(),
{
    if ops.len() > 0 {
        let earlier = ops.drop_last();
        assert forall|i: int| 0 <= i < earlier.len() implies !(#[trigger] earlier[i]).registers(
            memo,
        ) by {
            assert(earlier[i] == ops[i]);
        }
        law_consumed_payment_stays_consumed(s, earlier, memo, caller);
        assert(!ops[ops.len() - 1].registers(memo));
    }
}

/// Payments and ANIMAs stay matched one to one over any history that never
/// registers a memo whose payment has been consumed.
pub proof fn law_history_keeps_settled(s: StateView, ops: Seq<Op>)
    requires
        s.wf(),
        s.settled(),
        s.fits_all(ops),
        forall|i: int, memo: u64|
            0 <= i < ops.len() && (#[trigger] ops[i]).registers(memo) ==> !(#[trigger] s.after_all(
                ops.take(i),
            ).consumed(memo)),
    ensures
        s.after_all(ops).settled(),
    decreases ops.len(),
{
    if ops.len() > 0 {
        let earlier = ops.drop_last();
        assert forall|i: int, memo: u64|
            0 <= i < earlier.len() && (#[trigger] earlier[i]).registers(memo) implies !(
            #[trigger] s.after_all(earlier.take(i)).consumed(memo)) by {
            assert(earlier[i] == ops[i]);
            assert(earlier.take(i) =~= ops.take(i));
        }
        law_history_keeps_settled(s, earlier);
        law_history_keeps_invariant(s, earlier);
        let before = s.after_all(earlier);
        assert(ops.take(ops.len() - 1) =~= earlier);
        match ops.last() {
            Op::Register { caller, memo, now } => {
                assert(ops[ops.len() - 1].registers(memo));
                crate::model::lemma_registered_keeps_settled(before, caller, memo, now);
            },
            Op::Mint { caller, memo, now } => {
                crate::model::lemma_minted_keeps_settled(before, caller, memo, now);
            },
            Op::Interact { token_id } => {
                crate::model::lemma_interacted_keeps_settled(before, token_id);
            },
        }
    }
}

} // verus!
