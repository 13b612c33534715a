//! ANIMA records and how they progress.
//!
//! An ANIMA starts at level 1 with no experience. Experience is only ever
//! added, and after each addition the level is raised until the experience
//! lies below `level * LEVEL_THRESHOLD`.

use candid::Principal;
use vstd::prelude::*;

verus! {

/// The experience one interaction adds.
pub const EXPERIENCE_GAIN: u64 = 10;

/// The experience each level takes.
pub const LEVEL_THRESHOLD: u64 = 100;

/// A minted ANIMA.
#[derive(Debug, PartialEq, Eq)]
pub struct AnimaData {
    /// Who minted it.
    pub owner: Principal,
    /// Its label.
    pub designation: String,
    /// When it was minted.
    pub created_at: u64,
    /// Its level.
    pub level: u64,
    /// Its accumulated experience.
    pub experience: u64,
    /// The memo of the payment that paid for it.
    pub payment_memo: u64,
}

/// An ANIMA as a mathematical value.
pub struct AnimaView {
    pub owner: Principal,
    pub designation: Seq<char>,
    pub created_at: u64,
    pub level: nat,
    pub experience: nat,
    pub payment_memo: u64,
}

impl View for AnimaData {
    type V = AnimaView;

    open spec fn view(&self) -> AnimaView {
        AnimaView {
            owner: self.owner,
            designation: self.designation@,
            created_at: self.created_at,
            level: self.level as nat,
            experience: self.experience as nat,
            payment_memo: self.payment_memo,
        }
    }
}

/// The level an ANIMA at `level` stands at once its experience is
/// `experience`: `level` raised one by one for as long as
/// `experience >= level * LEVEL_THRESHOLD`.
pub open spec fn level_after(level: nat, experience: nat) -> nat {
    if experience >= level * LEVEL_THRESHOLD {
        experience / (LEVEL_THRESHOLD as nat) + 1
    } else {
        level
    }
}

/// `level_after` is the least level from `level` up whose threshold the
/// experience lies below: it is such a level, and no such level `other` is
/// smaller.
pub proof fn lemma_level_after_is_least(level: nat, experience: nat, other: nat)
    ensures
        level_after(level, experience) >= level,
        experience < level_after(level, experience) * LEVEL_THRESHOLD,
        level <= other && experience < other * LEVEL_THRESHOLD ==> level_after(level, experience)
            <= other,
{
}

impl AnimaView {
    /// A freshly minted ANIMA.
    pub open spec fn minted(owner: Principal, designation: Seq<char>, memo: u64, now: u64) -> AnimaView {
        AnimaView {
            owner,
            designation,
            created_at: now,
            level: 1,
            experience: 0,
            payment_memo: memo,
        }
    }

    /// This ANIMA after `amount` experience is added.
    pub open spec fn gain(self, amount: nat) -> AnimaView {
        AnimaView {
            experience: self.experience + amount,
            level: level_after(self.level, self.experience + amount),
            ..self
        }
    }

    /// The level is the one that the experience alone calls for.
    pub open spec fn level_matches_experience(self) -> bool {
        self.level == self.experience / (LEVEL_THRESHOLD as nat) + 1
    }
}

impl Clone for AnimaData {
    fn clone(&self) -> (copy: Self)
        ensures
            copy == *self,
    {
        AnimaData {
            owner: self.owner,
            designation: self.designation.clone(),
            created_at: self.created_at,
            level: self.level,
            experience: self.experience,
            payment_memo: self.payment_memo,
        }
    }
}

impl AnimaData {
    /// Adds `amount` experience and raises the level for as long as the
    /// experience has reached the threshold of the current level.
    pub fn gain_experience(&mut self, amount: u64)
        requires
            old(self).experience + amount <= u64::MAX,
        ensures
            final(self)@ == old(self)@.gain(amount as nat),
    {
        self.experience = self.experience + amount;
        while self.experience / LEVEL_THRESHOLD >= self.level
            invariant
                self.experience == old(self).experience + amount,
                self.owner == old(self).owner,
                self.designation == old(self).designation,
                self.created_at == old(self).created_at,
                self.payment_memo == old(self).payment_memo,
                self.level >= old(self).level,
                self.level == old(self).level || (self.level - 1) * LEVEL_THRESHOLD
                    <= self.experience,
            decreases self.experience / LEVEL_THRESHOLD + 1 - self.level,
        {
            self.level = self.level + 1;
        }
    }
}

} // verus!
