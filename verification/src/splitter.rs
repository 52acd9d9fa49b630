//! The cost-splitting escrow: agreements that release their collected funds
//! to a payee once every share has come in.

use crate::digest::{identifier, identifier_of};
use crate::table::{Id, Slot, Table};
use crate::word::{lemma_wrapped_small, modulus, wrapped, Address, Payout, U256};
use vstd::prelude::*;

verus! {

/// One cost-splitting agreement.
#[derive(Clone, Copy, Debug, PartialEq, Eq)]
pub struct SplitAgreement {
    pub id: Id,
    pub participant_count: U256,
    pub total_amount: U256,
    pub payee: Address,
    pub collected: U256,
    pub completed: bool,
    pub timestamp: U256,
    pub share_per_participant: U256,
}

/// What one account has paid into one agreement.
#[derive(Clone, Copy, Debug, PartialEq, Eq)]
pub struct Contribution {
    pub paid: bool,
    pub amount: U256,
}

/// Why an operation on the escrow was refused.
#[derive(Clone, Copy, Debug, PartialEq, Eq)]
pub enum SplitError {
    AgreementNotFound,
    AlreadyPaid,
    AgreementAlreadyCompleted,
    InsufficientContribution,
    InvalidParameters,
}

/// What an accepted contribution did.
#[derive(Clone, Copy, Debug, PartialEq, Eq)]
pub struct ContributionReceipt {
    /// The collected amount before this contribution.
    pub previous: U256,
    /// The collected amount after it.
    pub collected: U256,
    /// The release of the whole collected amount, where this contribution
    /// completed the agreement.
    pub payout: Option<Payout>,
}

/// What the ledger announces to observers.
#[derive(Clone, Copy, Debug, PartialEq, Eq)]
pub enum SplitEvent {
    AgreementCreated { agreement_id: [u8; 32], total_amount: U256, payee: Address, participants: U256 },
    ContributionMade { agreement_id: [u8; 32], participant: Address, amount: U256 },
    AgreementCompleted { agreement_id: [u8; 32], total_collected: U256 },
}

/// The escrow ledger.
pub struct CostSplitter {
    payment_router: Address,
    agreements: Table<Id, SplitAgreement>,
    contributions: Table<Slot, Contribution>,
    agreement_count: U256,
    journal: Vec<SplitEvent>,
    initialized: bool,
}

impl CostSplitter {
    /// The agreement recorded under an identifier.
    pub closed spec fn agreement(&self, id: [u8; 32]) -> Option<SplitAgreement> {
        self.agreements.lookup(Id { bytes: id })
    }

    /// Whether the account has an accepted contribution to the agreement.
    pub closed spec fn has_paid(&self, id: [u8; 32], account: Address) -> bool {
        match self.contributions.lookup(Slot { id: Id { bytes: id }, account }) {
            Some(c) => c.paid,
            None => false,
        }
    }

    /// The amount that the account contributed to the agreement, 0 if none.
    pub closed spec fn contributed(&self, id: [u8; 32], account: Address) -> nat {
        match self.contributions.lookup(Slot { id: Id { bytes: id }, account }) {
            Some(c) => if c.paid {
                c.amount@
            } else {
                0
            },
            None => 0,
        }
    }

    /// The number of agreements created so far.
    pub closed spec fn count(&self) -> nat {
        self.agreement_count@
    }

    /// The payment router that the ledger was configured with.
    pub closed spec fn router(&self) -> Address {
        self.payment_router
    }

    /// Whether the configuration is closed: `init` has taken effect, or an
    /// agreement has been counted.
    pub closed spec fn initialized(&self) -> bool {
        self.initialized
    }

    /// A ledger whose configuration is still open has counted nothing.
    pub open spec fn counts_from_bootstrap(&self) -> bool {
        !self.initialized() ==> self.count() == 0
    }

    /// The events announced and not yet taken, oldest first.
    pub closed spec fn events(&self) -> Seq<SplitEvent> {
        self.journal@
    }

    /// A list of events without its last `k`, or without all of them where
    /// it holds fewer.
    pub open spec fn rolled_back(events: Seq<SplitEvent>, k: nat) -> Seq<SplitEvent> {
        if events.len() >= k {
            events.subrange(0, events.len() - k)
        } else {
            Seq::empty()
        }
    }

    /// Every recorded agreement is completed exactly when its collected
    /// amount has reached its total.
    pub open spec fn settled_iff_funded(&self) -> bool {
        forall|id: [u8; 32]|
            match #[trigger] self.agreement(id) {
                Some(a) => a.completed <==> a.collected@ >= a.total_amount@,
                None => true,
            }
    }

    /// Two ledgers that no query can tell apart.
    pub open spec fn same_ledger(&self, other: &Self) -> bool {
        &&& self.router() == other.router()
        &&& self.initialized() == other.initialized()
        &&& self.count() == other.count()
        &&& self.events() == other.events()
        &&& forall|id: [u8; 32]| #[trigger] self.agreement(id) == other.agreement(id)
        &&& forall|id: [u8; 32], who: Address| #[trigger]
            self.has_paid(id, who) == other.has_paid(id, who)
        &&& forall|id: [u8; 32], who: Address| #[trigger]
            self.contributed(id, who) == other.contributed(id, who)
    }

    /// Whether the two keys name the same contribution.
    pub open spec fn same_slot(id: [u8; 32], who: Address, id2: [u8; 32], who2: Address) -> bool {
        id == id2 && who == who2
    }

    /// `post` is `pre` after a new agreement was recorded under `id`.
    pub open spec fn created(
        pre: &Self,
        post: &Self,
        id: [u8; 32],
        participant_count: U256,
        total_amount: U256,
        payee: Address,
        now: U256,
    ) -> bool {
        &&& post.router() == pre.router()
        &&& post.initialized()
        &&& post.count() == wrapped((pre.count() + 1) as int)
        &&& post.events() == pre.events().push(
            SplitEvent::AgreementCreated {
                agreement_id: id,
                total_amount,
                payee,
                participants: participant_count,
            },
        )
        &&& forall|other: [u8; 32]|
            other != id ==> #[trigger] post.agreement(other) == pre.agreement(other)
        &&& forall|i: [u8; 32], who: Address| #[trigger]
            post.has_paid(i, who) == pre.has_paid(i, who)
        &&& forall|i: [u8; 32], who: Address| #[trigger]
            post.contributed(i, who) == pre.contributed(i, who)
        &&& match post.agreement(id) {
            Some(a) => {
                &&& a.id.bytes == id
                &&& a.participant_count == participant_count
                &&& a.total_amount == total_amount
                &&& a.payee == payee
                &&& a.collected@ == 0
                &&& !a.completed
                &&& a.timestamp == now
                &&& a.share_per_participant@ == total_amount@ / participant_count@
                &&& a.share_per_participant@ * participant_count@ <= total_amount@
            },
            None => false,
        }
    }

    /// The error with which a contribution is refused, if it is.
    pub open spec fn contribute_error(
        &self,
        id: [u8; 32],
        caller: Address,
        amount: U256,
    ) -> Option<SplitError> {
        match self.agreement(id) {
            None => Some(SplitError::AgreementNotFound),
            Some(a) => if a.payee.is_null() {
                Some(SplitError::AgreementNotFound)
            } else if a.completed {
                Some(SplitError::AgreementAlreadyCompleted)
            } else if self.has_paid(id, caller) {
                Some(SplitError::AlreadyPaid)
            } else if amount@ < a.share_per_participant@ {
                Some(SplitError::InsufficientContribution)
            } else {
                None
            },
        }
    }

    /// `post` is `pre` after `caller` contributed `amount` to the agreement
    /// `id`, and `receipt` reports it.
    pub open spec fn contribution_made(
        pre: &Self,
        post: &Self,
        id: [u8; 32],
        caller: Address,
        amount: U256,
        receipt: ContributionReceipt,
    ) -> bool {
        &&& post.router() == pre.router()
        &&& post.initialized() == pre.initialized()
        &&& post.count() == pre.count()
        &&& forall|other: [u8; 32]|
            other != id ==> #[trigger] post.agreement(other) == pre.agreement(other)
        &&& forall|i: [u8; 32], who: Address|
            !Self::same_slot(i, who, id, caller) ==> #[trigger] post.has_paid(i, who)
                == pre.has_paid(i, who)
        &&& forall|i: [u8; 32], who: Address|
            !Self::same_slot(i, who, id, caller) ==> #[trigger] post.contributed(i, who)
                == pre.contributed(i, who)
        &&& post.has_paid(id, caller)
        &&& post.contributed(id, caller) == amount@
        &&& match (pre.agreement(id), post.agreement(id)) {
            (Some(a), Some(b)) => {
                &&& b == (SplitAgreement { collected: b.collected, completed: b.completed, ..a })
                &&& b.collected@ == wrapped((a.collected@ + amount@) as int)
                &&& b.completed == (b.collected@ >= a.total_amount@)
                &&& receipt.previous == a.collected
                &&& receipt.collected == b.collected
                &&& receipt.payout == if b.completed {
                    Some(Payout { payee: a.payee, amount: b.collected })
                } else {
                    None
                }
                &&& post.events() == if b.completed {
                    pre.events().push(
                        SplitEvent::ContributionMade {
                            agreement_id: id,
                            participant: caller,
                            amount,
                        },
                    ).push(
                        SplitEvent::AgreementCompleted {
                            agreement_id: id,
                            total_collected: b.collected,
                        },
                    )
                } else {
                    pre.events().push(
                        SplitEvent::ContributionMade {
                            agreement_id: id,
                            participant: caller,
                            amount,
                        },
                    )
                }
            },
            _ => false,
        }
    }

    /// `post` is `pre` after the contribution of `caller` to the agreement
    /// `id` was taken back and the collected amount set to `previous`: the
    /// contribution's event leaves the journal, and with it the completion
    /// event where the agreement was completed.
    pub open spec fn contribution_reverted(
        pre: &Self,
        post: &Self,
        id: [u8; 32],
        caller: Address,
        previous: U256,
    ) -> bool {
        &&& post.router() == pre.router()
        &&& post.initialized() == pre.initialized()
        &&& post.count() == pre.count()
        &&& forall|other: [u8; 32]|
            other != id ==> #[trigger] post.agreement(other) == pre.agreement(other)
        &&& forall|i: [u8; 32], who: Address|
            !Self::same_slot(i, who, id, caller) ==> #[trigger] post.has_paid(i, who)
                == pre.has_paid(i, who)
        &&& forall|i: [u8; 32], who: Address|
            !Self::same_slot(i, who, id, caller) ==> #[trigger] post.contributed(i, who)
                == pre.contributed(i, who)
        &&& !post.has_paid(id, caller)
        &&& post.contributed(id, caller) == 0
        &&& match pre.agreement(id) {
            Some(a) => {
                &&& post.agreement(id) == Some(
                    SplitAgreement { collected: previous, completed: false, ..a },
                )
                &&& post.events() == Self::rolled_back(
                    pre.events(),
                    if a.completed {
                        2
                    } else {
                        1
                    },
                )
            },
            None => post.agreement(id) is None && post.events() == Self::rolled_back(
                pre.events(),
                1,
            ),
        }
    }

    /// `post` is `pre` after an attempt to configure it with a router: the
    /// attempt takes effect while the configuration is open, closes it, and
    /// leaves what is recorded; afterwards it changes nothing.
    pub open spec fn configured(pre: &Self, post: &Self, payment_router: Address) -> bool {
        if pre.initialized() {
            post.same_ledger(pre)
        } else {
            &&& post.initialized()
            &&& post.router() == payment_router
            &&& post.count() == 0
            &&& post.events() == pre.events()
            &&& forall|id: [u8; 32]| #[trigger] post.agreement(id) == pre.agreement(id)
            &&& forall|id: [u8; 32], who: Address| #[trigger]
                post.has_paid(id, who) == pre.has_paid(id, who)
            &&& forall|id: [u8; 32], who: Address| #[trigger]
                post.contributed(id, who) == pre.contributed(id, who)
        }
    }

    /// A ledger without agreements, with no router and an open configuration.
    pub fn new() -> (s: Self)
        ensures
            !s.initialized(),
            s.count() == 0,
            s.router().is_null(),
            s.events() == Seq::<SplitEvent>::empty(),
            forall|id: [u8; 32]| #[trigger] s.agreement(id) is None,
            forall|id: [u8; 32], who: Address| !#[trigger] s.has_paid(id, who),
            forall|id: [u8; 32], who: Address| #[trigger] s.contributed(id, who) == 0,
    {
        CostSplitter {
            payment_router: Address::zero(),
            agreements: Table::new(),
            contributions: Table::new(),
            agreement_count: U256::zero(),
            journal: Vec::new(),
            initialized: false,
        }
    }

    /// Configures the ledger, once: while the configuration is open it sets
    /// the router, starts the agreement counter at 0 and closes the
    /// configuration. On a ledger whose configuration is closed nothing
    /// changes.
    pub fn init(&mut self, payment_router: Address)
        ensures
            Self::configured(old(self), final(self), payment_router),
            old(self).initialized() ==> *final(self) == *old(self),
    {
        if self.initialized {
            return;
        }
        self.payment_router = payment_router;
        self.agreement_count = U256::zero();
        self.initialized = true;
    }

    /// Derives the identifier of the agreement with the given number.
    pub fn hash_agreement_id(count: U256) -> (id: [u8; 32])
        ensures
            id@ == identifier_of(count@),
    {
        identifier(count)
    }

    /// Creates an agreement under the identifier that belongs to the current
    /// count, counts it and closes the configuration. Refused with `InvalidParameters`, and without any change, exactly
    /// when the participant count or the total is zero.
    pub fn create_agreement(
        &mut self,
        participant_count: U256,
        total_amount: U256,
        payee: Address,
        now: U256,
    ) -> (r: Result<[u8; 32], SplitError>)
        ensures
            match r {
                Ok(id) => {
                    &&& participant_count@ != 0 && total_amount@ != 0
                    &&& id@ == identifier_of(old(self).count())
                    &&& Self::created(
                        old(self),
                        final(self),
                        id,
                        participant_count,
                        total_amount,
                        payee,
                        now,
                    )
                },
                Err(e) => {
                    &&& e == SplitError::InvalidParameters
                    &&& participant_count@ == 0 || total_amount@ == 0
                    &&& *final(self) == *old(self)
                },
            },
    {
        let id = Self::hash_agreement_id(self.agreement_count);
        match self.record_agreement(id, participant_count, total_amount, payee, now) {
            Ok(()) => Ok(id),
            Err(e) => Err(e),
        }
    }

    /// Records an agreement under a given identifier, replacing what was
    /// recorded there, counts it and closes the configuration. Refused with `InvalidParameters`, and
    /// without any change, exactly when the participant count or the total is
    /// zero.
    pub fn record_agreement(
        &mut self,
        id: [u8; 32],
        participant_count: U256,
        total_amount: U256,
        payee: Address,
        now: U256,
    ) -> (r: Result<(), SplitError>)
        ensures
            match r {
                Ok(_) => {
                    &&& participant_count@ != 0 && total_amount@ != 0
                    &&& Self::created(
                        old(self),
                        final(self),
                        id,
                        participant_count,
                        total_amount,
                        payee,
                        now,
                    )
                },
                Err(e) => {
                    &&& e == SplitError::InvalidParameters
                    &&& participant_count@ == 0 || total_amount@ == 0
                    &&& *final(self) == *old(self)
                },
            },
    {
        if participant_count.is_zero() || total_amount.is_zero() {
            return Err(SplitError::InvalidParameters);
        }
        let share = total_amount.div(participant_count);
        proof {
            lemma_share_bound(total_amount@, participant_count@);
        }
        let agreement = SplitAgreement {
            id: Id { bytes: id },
            participant_count,
            total_amount,
            payee,
            collected: U256::zero(),
            completed: false,
            timestamp: now,
            share_per_participant: share,
        };
        self.agreements.insert(Id { bytes: id }, agreement);
        self.agreement_count = self.agreement_count.wrapping_add(U256::from_u64(1));
        self.initialized = true;
        self.journal.push(
            SplitEvent::AgreementCreated {
                agreement_id: id,
                total_amount,
                payee,
                participants: participant_count,
            },
        );
        Ok(())
    }

    /// Takes the caller's contribution to an agreement. The first check that
    /// fails decides the error, and then nothing changes. Otherwise the
    /// contribution is recorded in full, and where the collected amount has
    /// reached the total the agreement is completed and the receipt asks for
    /// the release of everything collected.
    pub fn contribute(&mut self, agreement_id: [u8; 32], caller: Address, amount: U256) -> (r:
        Result<ContributionReceipt, SplitError>)
        ensures
            match r {
                Ok(receipt) => {
                    &&& old(self).contribute_error(agreement_id, caller, amount) is None
                    &&& Self::contribution_made(
                        old(self),
                        final(self),
                        agreement_id,
                        caller,
                        amount,
                        receipt,
                    )
                },
                Err(e) => {
                    &&& old(self).contribute_error(agreement_id, caller, amount) == Some(e)
                    &&& *final(self) == *old(self)
                },
            },
    {
        let key = Id { bytes: agreement_id };
        let agreement = match self.agreements.get(&key) {
            Some(a) => a,
            None => {
                return Err(SplitError::AgreementNotFound);
            },
        };
        if agreement.payee.is_zero() {
            return Err(SplitError::AgreementNotFound);
        }
        if agreement.completed {
            return Err(SplitError::AgreementAlreadyCompleted);
        }
        if self.has_participant_paid(agreement_id, caller) {
            return Err(SplitError::AlreadyPaid);
        }
        if amount.lt(&agreement.share_per_participant) {
            return Err(SplitError::InsufficientContribution);
        }
        let slot = Slot { id: key, account: caller };
        self.contributions.insert(slot, Contribution { paid: true, amount });
        let collected = agreement.collected.wrapping_add(amount);
        let completed = !collected.lt(&agreement.total_amount);
        self.agreements.insert(
            key,
            SplitAgreement {
                id: agreement.id,
                participant_count: agreement.participant_count,
                total_amount: agreement.total_amount,
                payee: agreement.payee,
                collected,
                completed,
                timestamp: agreement.timestamp,
                share_per_participant: agreement.share_per_participant,
            },
        );
        self.journal.push(
            SplitEvent::ContributionMade { agreement_id, participant: caller, amount },
        );
        let payout = if completed {
            self.journal.push(
                SplitEvent::AgreementCompleted { agreement_id, total_collected: collected },
            );
            Some(Payout { payee: agreement.payee, amount: collected })
        } else {
            None
        };
        Ok(ContributionReceipt { previous: agreement.collected, collected, payout })
    }

    /// Takes back the caller's contribution after the release failed: the
    /// contribution record is cleared, its events leave the journal, and the
    /// agreement, where there is one, is open again with `previous` collected.
    pub fn revert_contribution(&mut self, agreement_id: [u8; 32], caller: Address, previous: U256)
        ensures
            Self::contribution_reverted(old(self), final(self), agreement_id, caller, previous),
    {
        let key = Id { bytes: agreement_id };
        let slot = Slot { id: key, account: caller };
        self.contributions.insert(slot, Contribution { paid: false, amount: U256::zero() });
        self.journal.pop();
        assert(self.journal@ =~= Self::rolled_back(old(self).journal@, 1));
        match self.agreements.get(&key) {
            Some(a) => {
                if a.completed {
                    self.journal.pop();
                    assert(self.journal@ =~= Self::rolled_back(old(self).journal@, 2));
                }
                self.agreements.insert(
                    key,
                    SplitAgreement {
                        id: a.id,
                        participant_count: a.participant_count,
                        total_amount: a.total_amount,
                        payee: a.payee,
                        collected: previous,
                        completed: false,
                        timestamp: a.timestamp,
                        share_per_participant: a.share_per_participant,
                    },
                );
            },
            None => {},
        }
    }

    /// Hands out the events announced since they were last taken, oldest
    /// first, and empties the journal. Nothing else changes.
    pub fn take_events(&mut self) -> (taken: Vec<SplitEvent>)
        ensures
            taken@ == old(self).events(),
            final(self).events() == Seq::<SplitEvent>::empty(),
            final(self).router() == old(self).router(),
            final(self).initialized() == old(self).initialized(),
            final(self).count() == old(self).count(),
            forall|id: [u8; 32]| #[trigger] final(self).agreement(id) == old(self).agreement(id),
            forall|id: [u8; 32], who: Address| #[trigger]
                final(self).has_paid(id, who) == old(self).has_paid(id, who),
            forall|id: [u8; 32], who: Address| #[trigger]
                final(self).contributed(id, who) == old(self).contributed(id, who),
    {
        let mut taken = Vec::new();
        std::mem::swap(&mut self.journal, &mut taken);
        taken
    }

    /// The agreement's total, payee, collected amount, completion flag,
    /// participant count and share; zeros where nothing is recorded.
    pub fn get_agreement(&self, agreement_id: [u8; 32]) -> (r: (
        U256,
        Address,
        U256,
        bool,
        U256,
        U256,
    ))
        ensures
            match self.agreement(agreement_id) {
                Some(a) => r == (
                    a.total_amount,
                    a.payee,
                    a.collected,
                    a.completed,
                    a.participant_count,
                    a.share_per_participant,
                ),
                None => r.0@ == 0 && r.1.is_null() && r.2@ == 0 && !r.3 && r.4@ == 0 && r.5@ == 0,
            },
    {
        match self.agreements.get(&Id { bytes: agreement_id }) {
            Some(a) => (
                a.total_amount,
                a.payee,
                a.collected,
                a.completed,
                a.participant_count,
                a.share_per_participant,
            ),
            None => (
                U256::zero(),
                Address::zero(),
                U256::zero(),
                false,
                U256::zero(),
                U256::zero(),
            ),
        }
    }

    /// Whether the participant has an accepted contribution to the agreement.
    pub fn has_participant_paid(&self, agreement_id: [u8; 32], participant: Address) -> (r: bool)
        ensures
            r == self.has_paid(agreement_id, participant),
    {
        match self.contributions.get(&Slot { id: Id { bytes: agreement_id }, account: participant }) {
            Some(c) => c.paid,
            None => false,
        }
    }

    /// The amount that the participant contributed to the agreement.
    pub fn get_contribution(&self, agreement_id: [u8; 32], participant: Address) -> (r: U256)
        ensures
            r@ == self.contributed(agreement_id, participant),
    {
        match self.contributions.get(&Slot { id: Id { bytes: agreement_id }, account: participant }) {
            Some(c) => if c.paid {
                c.amount
            } else {
                U256::zero()
            },
            None => U256::zero(),
        }
    }

    /// The number of agreements created so far.
    pub fn get_agreement_count(&self) -> (r: U256)
        ensures
            r@ == self.count(),
    {
        self.agreement_count
    }
}

/// The share times the number of participants never exceeds the total.
pub proof fn lemma_share_bound(total: nat, participants: nat)
    requires
        participants > 0,
    ensures
        (total / participants) * participants <= total,
{
    assert((total / participants) * participants <= total) by (nonlinear_arith)
        requires
            participants > 0,
    ;
}

/// A contribution below the share is always refused: with
/// `InsufficientContribution` where the agreement is open and the caller has
/// not paid yet, with the error of the earlier check otherwise.
pub proof fn lemma_short_contribution_refused(
    s: &CostSplitter,
    id: [u8; 32],
    caller: Address,
    amount: U256,
)
    requires
        s.agreement(id) is Some,
        amount@ < s.agreement(id)->0.share_per_participant@,
    ensures
        s.contribute_error(id, caller, amount) is Some,
        !s.agreement(id)->0.payee.is_null() && !s.agreement(id)->0.completed && !s.has_paid(
            id,
            caller,
        ) ==> s.contribute_error(id, caller, amount) == Some(
            SplitError::InsufficientContribution,
        ),
{
}

/// After an accepted contribution the same account cannot contribute to the
/// same agreement again, whatever the amount: while the agreement is open the
/// attempt is refused with `AlreadyPaid`, and once it is completed with
/// `AgreementAlreadyCompleted`.
pub proof fn lemma_second_contribution_refused(
    pre: &CostSplitter,
    post: &CostSplitter,
    id: [u8; 32],
    caller: Address,
    amount: U256,
    receipt: ContributionReceipt,
    again: U256,
)
    requires
        pre.contribute_error(id, caller, amount) is None,
        CostSplitter::contribution_made(pre, post, id, caller, amount, receipt),
    ensures
        post.agreement(id) is Some,
        post.contribute_error(id, caller, again) == Some(
            if post.agreement(id)->0.completed {
                SplitError::AgreementAlreadyCompleted
            } else {
                SplitError::AlreadyPaid
            },
        ),
{
}

/// An accepted contribution completes the agreement exactly when the
/// collected amount has reached the total. It then asks for one release, of
/// the whole collected amount to the payee, and announces the completion
/// once, after the contribution itself; and no contribution to a completed
/// agreement is accepted, so none of this happens again.
pub proof fn lemma_completion_once(
    pre: &CostSplitter,
    post: &CostSplitter,
    id: [u8; 32],
    caller: Address,
    amount: U256,
    receipt: ContributionReceipt,
)
    requires
        pre.contribute_error(id, caller, amount) is None,
        CostSplitter::contribution_made(pre, post, id, caller, amount, receipt),
    ensures
        pre.agreement(id) is Some && post.agreement(id) is Some,
        !pre.agreement(id)->0.completed,
        post.agreement(id)->0.completed <==> post.agreement(id)->0.collected@
            >= post.agreement(id)->0.total_amount@,
        receipt.payout is Some <==> post.agreement(id)->0.completed,
        receipt.payout is Some ==> receipt.payout->0.amount == post.agreement(id)->0.collected
            && receipt.payout->0.payee == post.agreement(id)->0.payee,
        post.events().len() == pre.events().len() + (if post.agreement(id)->0.completed {
            2nat
        } else {
            1nat
        }),
        post.agreement(id)->0.completed ==> post.events().last() == (
        SplitEvent::AgreementCompleted {
            agreement_id: id,
            total_collected: post.agreement(id)->0.collected,
        }),
        !post.agreement(id)->0.completed ==> post.events().last() == (
        SplitEvent::ContributionMade { agreement_id: id, participant: caller, amount }),
        post.agreement(id)->0.completed ==> forall|who: Address, more: U256|
            #[trigger] post.contribute_error(id, who, more) == Some(
                SplitError::AgreementAlreadyCompleted,
            ),
{
}

/// Without overflow of the 256-bit word, an accepted contribution adds
/// exactly its amount to the collected amount, which therefore never shrinks.
pub proof fn lemma_collected_grows(
    pre: &CostSplitter,
    post: &CostSplitter,
    id: [u8; 32],
    caller: Address,
    amount: U256,
    receipt: ContributionReceipt,
)
    requires
        CostSplitter::contribution_made(pre, post, id, caller, amount, receipt),
        pre.agreement(id)->0.collected@ + amount@ < modulus(),
    ensures
        post.agreement(id)->0.collected@ == pre.agreement(id)->0.collected@ + amount@,
        post.agreement(id)->0.collected@ >= pre.agreement(id)->0.collected@,
{
    lemma_wrapped_small((pre.agreement(id)->0.collected@ + amount@) as int);
}

/// A successful creation raises the agreement count by exactly one, as long
/// as the new count fits the 256-bit word.
pub proof fn lemma_creation_counts_one(
    pre: &CostSplitter,
    post: &CostSplitter,
    id: [u8; 32],
    participant_count: U256,
    total_amount: U256,
    payee: Address,
    now: U256,
)
    requires
        CostSplitter::created(pre, post, id, participant_count, total_amount, payee, now),
        pre.count() + 1 < modulus(),
    ensures
        post.count() == pre.count() + 1,
{
    lemma_wrapped_small((pre.count() + 1) as int);
}

/// Taking back an accepted contribution, with the collected amount that the
/// receipt reports as the previous one, gives back the ledger as it was
/// before the contribution.
pub proof fn lemma_revert_undoes_contribution(
    pre: &CostSplitter,
    mid: &CostSplitter,
    post: &CostSplitter,
    id: [u8; 32],
    caller: Address,
    amount: U256,
    receipt: ContributionReceipt,
)
    requires
        pre.contribute_error(id, caller, amount) is None,
        CostSplitter::contribution_made(pre, mid, id, caller, amount, receipt),
        CostSplitter::contribution_reverted(mid, post, id, caller, receipt.previous),
    ensures
        post.same_ledger(pre),
{
    assert(post.events() =~= pre.events());
    assert forall|i: [u8; 32]| #[trigger] post.agreement(i) == pre.agreement(i) by {
        if i != id {
            assert(mid.agreement(i) == pre.agreement(i));
            assert(post.agreement(i) == mid.agreement(i));
        }
    }
    assert forall|i: [u8; 32], who: Address| #[trigger]
        post.has_paid(i, who) == pre.has_paid(i, who) by {
        if !CostSplitter::same_slot(i, who, id, caller) {
            assert(mid.has_paid(i, who) == pre.has_paid(i, who));
            assert(post.has_paid(i, who) == mid.has_paid(i, who));
        }
    }
    assert forall|i: [u8; 32], who: Address| #[trigger]
        post.contributed(i, who) == pre.contributed(i, who) by {
        if !CostSplitter::same_slot(i, who, id, caller) {
            assert(mid.contributed(i, who) == pre.contributed(i, who));
            assert(post.contributed(i, who) == mid.contributed(i, who));
        }
    }
}

/// An accepted contribution is recorded in full for the caller, and it
/// covers the share.
pub proof fn lemma_contribution_recorded(
    pre: &CostSplitter,
    post: &CostSplitter,
    id: [u8; 32],
    caller: Address,
    amount: U256,
    receipt: ContributionReceipt,
)
    requires
        pre.contribute_error(id, caller, amount) is None,
        CostSplitter::contribution_made(pre, post, id, caller, amount, receipt),
    ensures
        !pre.has_paid(id, caller),
        post.has_paid(id, caller),
        post.contributed(id, caller) == amount@,
        amount@ >= post.agreement(id)->0.share_per_participant@,
        post.agreement(id)->0.share_per_participant == pre.agreement(id)->0.share_per_participant,
{
}

/// Creating an agreement with a total other than zero keeps every agreement
/// completed exactly when it is funded.
pub proof fn lemma_creation_keeps_settlement(
    pre: &CostSplitter,
    post: &CostSplitter,
    id: [u8; 32],
    participant_count: U256,
    total_amount: U256,
    payee: Address,
    now: U256,
)
    requires
        pre.settled_iff_funded(),
        total_amount@ != 0,
        CostSplitter::created(pre, post, id, participant_count, total_amount, payee, now),
    ensures
        post.settled_iff_funded(),
{
    assert forall|i: [u8; 32]|
        match #[trigger] post.agreement(i) {
            Some(a) => a.completed <==> a.collected@ >= a.total_amount@,
            None => true,
        } by {
        if i != id {
            assert(post.agreement(i) == pre.agreement(i));
        }
    }
}

/// A contribution keeps every agreement completed exactly when it is funded.
pub proof fn lemma_contribution_keeps_settlement(
    pre: &CostSplitter,
    post: &CostSplitter,
    id: [u8; 32],
    caller: Address,
    amount: U256,
    receipt: ContributionReceipt,
)
    requires
        pre.settled_iff_funded(),
        CostSplitter::contribution_made(pre, post, id, caller, amount, receipt),
    ensures
        post.settled_iff_funded(),
{
    assert forall|i: [u8; 32]|
        match #[trigger] post.agreement(i) {
            Some(a) => a.completed <==> a.collected@ >= a.total_amount@,
            None => true,
        } by {
        if i != id {
            assert(post.agreement(i) == pre.agreement(i));
        }
    }
}

/// The configuration is set at most once, and `init` never sets back a
/// counter that has counted: on a ledger that has counted nothing while its
/// configuration was open, an attempt to configure leaves the count as it
/// is; and once the configuration is closed, a further attempt leaves the
/// router, the count and everything else as they are.
pub proof fn lemma_configured_once(
    pre: &CostSplitter,
    mid: &CostSplitter,
    post: &CostSplitter,
    first: Address,
    second: Address,
)
    requires
        pre.counts_from_bootstrap(),
        CostSplitter::configured(pre, mid, first),
        CostSplitter::configured(mid, post, second),
    ensures
        mid.initialized(),
        mid.count() == pre.count(),
        mid.counts_from_bootstrap(),
        post.same_ledger(mid),
{
}

/// Creating an agreement closes the configuration, so that no later attempt
/// to configure can set the counter back and lead to an identifier being
/// derived twice.
pub proof fn lemma_creation_closes_configuration(
    pre: &CostSplitter,
    mid: &CostSplitter,
    post: &CostSplitter,
    id: [u8; 32],
    participant_count: U256,
    total_amount: U256,
    payee: Address,
    now: U256,
    payment_router: Address,
)
    requires
        CostSplitter::created(pre, mid, id, participant_count, total_amount, payee, now),
        CostSplitter::configured(mid, post, payment_router),
    ensures
        mid.counts_from_bootstrap(),
        post.same_ledger(mid),
        post.count() == mid.count(),
        post.agreement(id) == mid.agreement(id),
{
}

/// Contributing and taking a contribution back leave the configuration as
/// it is, open or closed.
pub proof fn lemma_contribution_keeps_configuration(
    pre: &CostSplitter,
    mid: &CostSplitter,
    post: &CostSplitter,
    id: [u8; 32],
    caller: Address,
    amount: U256,
    receipt: ContributionReceipt,
    previous: U256,
)
    requires
        pre.counts_from_bootstrap(),
        CostSplitter::contribution_made(pre, mid, id, caller, amount, receipt),
        CostSplitter::contribution_reverted(mid, post, id, caller, previous),
    ensures
        mid.counts_from_bootstrap(),
        post.counts_from_bootstrap(),
        mid.router() == pre.router() && post.router() == pre.router(),
        mid.initialized() == pre.initialized() && post.initialized() == pre.initialized(),
{
}

} // verus!
