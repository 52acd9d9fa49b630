//! The payment router: balances in custody, agents that the owner
//! authorizes, and payments that are escrowed at initiation and credited to
//! the payee, net of a fee, at completion.

use crate::digest::{identifier, identifier_of};
use crate::table::{Id, Table};
use crate::word::{
    lemma_value_bound, lemma_wrapped_small, modulus, wrapped, Address, Payout, U256,
};
use vstd::prelude::*;

verus! {

/// One payment.
#[derive(Clone, Copy, Debug, PartialEq, Eq)]
pub struct Payment {
    pub payer: Address,
    pub payee: Address,
    pub amount: U256,
    pub timestamp: U256,
    pub completed: bool,
}

/// Why an operation on the router was refused.
#[derive(Clone, Copy, Debug, PartialEq, Eq)]
pub enum RouterError {
    Unauthorized,
    InsufficientBalance,
    PaymentNotFound,
    PaymentAlreadyCompleted,
    InvalidAmount,
}

/// The fee on an amount at a rate in basis points: the product modulo
/// 2^256, divided by 10000 and rounded down.
pub open spec fn fee_of(amount: nat, rate: nat) -> nat {
    wrapped((amount * rate) as int) / 10000
}

/// What the payee is credited: the amount less the fee, modulo 2^256.
pub open spec fn net_of(amount: nat, rate: nat) -> nat {
    wrapped(amount - fee_of(amount, rate))
}

/// What the ledger announces to observers.
#[derive(Clone, Copy, Debug, PartialEq, Eq)]
pub enum RouterEvent {
    PaymentInitiated { payment_id: [u8; 32], payer: Address, payee: Address, amount: U256 },
    PaymentCompleted { payment_id: [u8; 32] },
    AgentAuthorized { agent: Address },
    AgentRevoked { agent: Address },
    Deposited { user: Address, amount: U256 },
    Withdrawn { user: Address, amount: U256 },
}

/// The payment ledger.
pub struct PaymentRouter {
    owner: Address,
    balances: Table<Address, U256>,
    authorized_agents: Table<Address, bool>,
    payments: Table<Id, Payment>,
    payment_count: U256,
    fee_percentage: U256,
    journal: Vec<RouterEvent>,
    initialized: bool,
}

impl PaymentRouter {
    /// The account that may authorize and revoke agents.
    pub closed spec fn owner(&self) -> Address {
        self.owner
    }

    /// The fee rate in basis points.
    pub closed spec fn fee(&self) -> nat {
        self.fee_percentage@
    }

    /// The number of payments initiated so far.
    pub closed spec fn count(&self) -> nat {
        self.payment_count@
    }

    /// Whether the configuration is closed: `init` has taken effect, or a
    /// payment has been counted.
    pub closed spec fn initialized(&self) -> bool {
        self.initialized
    }

    /// A ledger whose configuration is still open has counted nothing.
    pub open spec fn counts_from_bootstrap(&self) -> bool {
        !self.initialized() ==> self.count() == 0
    }

    /// The events announced and not yet taken, oldest first.
    pub closed spec fn events(&self) -> Seq<RouterEvent> {
        self.journal@
    }

    /// A list of events without its last one, if it has any.
    pub open spec fn without_last(events: Seq<RouterEvent>) -> Seq<RouterEvent> {
        if events.len() > 0 {
            events.drop_last()
        } else {
            events
        }
    }

    /// The balance held for an account, 0 if none.
    pub closed spec fn balance(&self, account: Address) -> nat {
        match self.balances.lookup(account) {
            Some(b) => b@,
            None => 0,
        }
    }

    /// Every balance fits the 256-bit word.
    pub proof fn lemma_balance_bound(&self, account: Address)
        ensures
            self.balance(account) < modulus(),
    {
        match self.balances.lookup(account) {
            Some(b) => lemma_value_bound(b),
            None => {},
        }
    }

    /// Whether the account may initiate payments.
    pub closed spec fn authorized(&self, account: Address) -> bool {
        match self.authorized_agents.lookup(account) {
            Some(b) => b,
            None => false,
        }
    }

    /// The payment recorded under an identifier.
    pub closed spec fn payment(&self, id: [u8; 32]) -> Option<Payment> {
        self.payments.lookup(Id { bytes: id })
    }

    /// Owner and fee rate are the same in both ledgers.
    pub open spec fn same_config(&self, other: &Self) -> bool {
        self.owner() == other.owner() && self.fee() == other.fee()
    }

    /// Every balance but that of `account` is the same in both ledgers.
    pub open spec fn same_balances_but(&self, other: &Self, account: Address) -> bool {
        forall|a: Address| a != account ==> #[trigger] self.balance(a) == other.balance(a)
    }

    /// Every balance is the same in both ledgers.
    pub open spec fn same_balances(&self, other: &Self) -> bool {
        forall|a: Address| #[trigger] self.balance(a) == other.balance(a)
    }

    /// Every authorization but that of `account` is the same in both ledgers.
    pub open spec fn same_agents_but(&self, other: &Self, account: Address) -> bool {
        forall|a: Address| a != account ==> #[trigger] self.authorized(a) == other.authorized(a)
    }

    /// Every authorization is the same in both ledgers.
    pub open spec fn same_agents(&self, other: &Self) -> bool {
        forall|a: Address| #[trigger] self.authorized(a) == other.authorized(a)
    }

    /// Every payment but the one under `id` is the same in both ledgers.
    pub open spec fn same_payments_but(&self, other: &Self, id: [u8; 32]) -> bool {
        forall|i: [u8; 32]| i != id ==> #[trigger] self.payment(i) == other.payment(i)
    }

    /// Every payment is the same in both ledgers.
    pub open spec fn same_payments(&self, other: &Self) -> bool {
        forall|i: [u8; 32]| #[trigger] self.payment(i) == other.payment(i)
    }

    /// `post` is `pre` with the authorization of `agent` set to `value`.
    pub open spec fn agent_set(pre: &Self, post: &Self, agent: Address, value: bool) -> bool {
        &&& post.same_config(pre)
        &&& post.initialized() == pre.initialized()
        &&& post.count() == pre.count()
        &&& post.same_balances(pre)
        &&& post.same_payments(pre)
        &&& post.same_agents_but(pre, agent)
        &&& post.authorized(agent) == value
    }

    /// `post` is `pre` with the balance of `account` set to `value`.
    pub open spec fn balance_set(pre: &Self, post: &Self, account: Address, value: nat) -> bool {
        &&& post.same_config(pre)
        &&& post.initialized() == pre.initialized()
        &&& post.count() == pre.count()
        &&& post.same_agents(pre)
        &&& post.same_payments(pre)
        &&& post.same_balances_but(pre, account)
        &&& post.balance(account) == value
    }

    /// The error with which the initiation of a payment is refused, if it is.
    pub open spec fn initiate_error(&self, caller: Address, amount: U256) -> Option<RouterError> {
        if !self.authorized(caller) {
            Some(RouterError::Unauthorized)
        } else if self.balance(caller) < amount@ {
            Some(RouterError::InsufficientBalance)
        } else {
            None
        }
    }

    /// `post` is `pre` after `payer` escrowed `amount` for `payee` in a
    /// payment recorded under `id`.
    pub open spec fn payment_initiated(
        pre: &Self,
        post: &Self,
        id: [u8; 32],
        payer: Address,
        payee: Address,
        amount: U256,
        now: U256,
    ) -> bool {
        &&& post.same_config(pre)
        &&& post.initialized()
        &&& post.count() == wrapped((pre.count() + 1) as int)
        &&& post.same_agents(pre)
        &&& post.same_payments_but(pre, id)
        &&& post.payment(id) == Some(
            Payment { payer, payee, amount, timestamp: now, completed: false },
        )
        &&& post.same_balances_but(pre, payer)
        &&& post.balance(payer) == pre.balance(payer) - amount@
        &&& post.events() == pre.events().push(
            RouterEvent::PaymentInitiated { payment_id: id, payer, payee, amount },
        )
    }

    /// The error with which the completion of a payment is refused, if it is.
    pub open spec fn complete_error(&self, caller: Address, id: [u8; 32]) -> Option<RouterError> {
        match self.payment(id) {
            None => Some(RouterError::PaymentNotFound),
            Some(p) => if p.payer.is_null() {
                Some(RouterError::PaymentNotFound)
            } else if p.completed {
                Some(RouterError::PaymentAlreadyCompleted)
            } else if caller != p.payee {
                Some(RouterError::Unauthorized)
            } else {
                None
            },
        }
    }

    /// `post` is `pre` after the payment under `id` was completed: the payee
    /// is credited the amount net of the fee at the current rate, and the fee
    /// is credited to nobody.
    pub open spec fn payment_completed(pre: &Self, post: &Self, id: [u8; 32]) -> bool {
        &&& post.same_config(pre)
        &&& post.initialized() == pre.initialized()
        &&& post.count() == pre.count()
        &&& post.same_agents(pre)
        &&& post.same_payments_but(pre, id)
        &&& post.events() == pre.events().push(RouterEvent::PaymentCompleted { payment_id: id })
        &&& match pre.payment(id) {
            Some(p) => {
                &&& post.payment(id) == Some(Payment { completed: true, ..p })
                &&& post.same_balances_but(pre, p.payee)
                &&& post.balance(p.payee) == wrapped(
                    (pre.balance(p.payee) + net_of(p.amount@, pre.fee())) as int,
                )
            },
            None => false,
        }
    }

    /// `post` is `pre` after an attempt by `caller` to configure it with a
    /// fee rate: the attempt takes effect while the configuration is open,
    /// makes the caller the owner, closes the configuration and leaves what is
    /// recorded; afterwards it changes nothing.
    pub open spec fn configured(
        pre: &Self,
        post: &Self,
        caller: Address,
        fee_percentage: U256,
    ) -> bool {
        &&& post.events() == pre.events()
        &&& post.same_balances(pre)
        &&& post.same_agents(pre)
        &&& post.same_payments(pre)
        &&& post.initialized()
        &&& if pre.initialized() {
            post.same_config(pre) && post.count() == pre.count()
        } else {
            post.owner() == caller && post.fee() == fee_percentage@ && post.count() == 0
        }
    }

    /// A ledger without balances, agents or payments, with no owner, no fee
    /// and an open configuration.
    pub fn new() -> (s: Self)
        ensures
            !s.initialized(),
            s.owner().is_null(),
            s.fee() == 0,
            s.count() == 0,
            s.events() == Seq::<RouterEvent>::empty(),
            forall|a: Address| #[trigger] s.balance(a) == 0,
            forall|a: Address| !#[trigger] s.authorized(a),
            forall|i: [u8; 32]| #[trigger] s.payment(i) is None,
    {
        PaymentRouter {
            owner: Address::zero(),
            balances: Table::new(),
            authorized_agents: Table::new(),
            payments: Table::new(),
            payment_count: U256::zero(),
            fee_percentage: U256::zero(),
            journal: Vec::new(),
            initialized: false,
        }
    }

    /// Configures the ledger, once: while the configuration is open it makes
    /// the caller the owner, sets the fee rate, starts the payment counter at
    /// 0 and closes the configuration. On a ledger whose configuration is
    /// closed nothing changes, whoever calls.
    pub fn init(&mut self, caller: Address, fee_percentage: U256)
        ensures
            Self::configured(old(self), final(self), caller, fee_percentage),
            old(self).initialized() ==> *final(self) == *old(self),
    {
        if self.initialized {
            return;
        }
        self.owner = caller;
        self.fee_percentage = fee_percentage;
        self.payment_count = U256::zero();
        self.initialized = true;
    }

    /// Derives the identifier of the payment with the given number.
    pub fn hash_id(count: U256) -> (id: [u8; 32])
        ensures
            id@ == identifier_of(count@),
    {
        identifier(count)
    }

    /// Lets `agent` initiate payments. Only the owner may: any other caller
    /// is refused with `Unauthorized` and nothing changes.
    pub fn authorize_agent(&mut self, caller: Address, agent: Address) -> (r: Result<
        (),
        RouterError,
    >)
        ensures
            match r {
                Ok(_) => caller == old(self).owner() && Self::agent_set(
                    old(self),
                    final(self),
                    agent,
                    true,
                ) && final(self).events() == old(self).events().push(
                    RouterEvent::AgentAuthorized { agent },
                ),
                Err(e) => e == RouterError::Unauthorized && caller != old(self).owner()
                    && *final(self) == *old(self),
            },
    {
        if !caller.same(&self.owner) {
            return Err(RouterError::Unauthorized);
        }
        self.authorized_agents.insert(agent, true);
        self.journal.push(RouterEvent::AgentAuthorized { agent });
        Ok(())
    }

    /// Stops `agent` from initiating payments. Only the owner may: any other
    /// caller is refused with `Unauthorized` and nothing changes.
    pub fn revoke_agent(&mut self, caller: Address, agent: Address) -> (r: Result<(), RouterError>)
        ensures
            match r {
                Ok(_) => caller == old(self).owner() && Self::agent_set(
                    old(self),
                    final(self),
                    agent,
                    false,
                ) && final(self).events() == old(self).events().push(
                    RouterEvent::AgentRevoked { agent },
                ),
                Err(e) => e == RouterError::Unauthorized && caller != old(self).owner()
                    && *final(self) == *old(self),
            },
    {
        if !caller.same(&self.owner) {
            return Err(RouterError::Unauthorized);
        }
        self.authorized_agents.insert(agent, false);
        self.journal.push(RouterEvent::AgentRevoked { agent });
        Ok(())
    }

    /// Credits the attached amount to the caller's balance, modulo 2^256.
    /// A zero amount is refused with `InvalidAmount` and nothing changes.
    pub fn deposit(&mut self, caller: Address, amount: U256) -> (r: Result<(), RouterError>)
        ensures
            match r {
                Ok(_) => amount@ != 0 && Self::balance_set(
                    old(self),
                    final(self),
                    caller,
                    wrapped((old(self).balance(caller) + amount@) as int),
                ) && final(self).events() == old(self).events().push(
                    RouterEvent::Deposited { user: caller, amount },
                ),
                Err(e) => e == RouterError::InvalidAmount && amount@ == 0 && *final(self) == *old(
                    self,
                ),
            },
    {
        if amount.is_zero() {
            return Err(RouterError::InvalidAmount);
        }
        let held = self.get_balance(caller);
        self.balances.insert(caller, held.wrapping_add(amount));
        self.journal.push(RouterEvent::Deposited { user: caller, amount });
        Ok(())
    }

    /// Escrows `amount` from the caller's balance in a new payment to
    /// `payee`, under the identifier that belongs to the current count,
    /// counts it and closes the configuration.
    /// Refused without any change where the caller is no authorized agent or
    /// holds less than `amount`.
    pub fn initiate_payment(
        &mut self,
        caller: Address,
        payee: Address,
        amount: U256,
        now: U256,
    ) -> (r: Result<[u8; 32], RouterError>)
        ensures
            match r {
                Ok(id) => {
                    &&& old(self).initiate_error(caller, amount) is None
                    &&& id@ == identifier_of(old(self).count())
                    &&& Self::payment_initiated(
                        old(self),
                        final(self),
                        id,
                        caller,
                        payee,
                        amount,
                        now,
                    )
                },
                Err(e) => old(self).initiate_error(caller, amount) == Some(e) && *final(self)
                    == *old(self),
            },
    {
        let id = Self::hash_id(self.payment_count);
        match self.record_payment(id, caller, payee, amount, now) {
            Ok(()) => Ok(id),
            Err(e) => Err(e),
        }
    }

    /// Escrows `amount` from the caller's balance in a payment to `payee`
    /// recorded under a given identifier, replacing what was recorded there,
    /// counts it and closes the configuration. Refused without any change where the caller is no
    /// authorized agent or holds less than `amount`.
    pub fn record_payment(
        &mut self,
        id: [u8; 32],
        caller: Address,
        payee: Address,
        amount: U256,
        now: U256,
    ) -> (r: Result<(), RouterError>)
        ensures
            match r {
                Ok(_) => {
                    &&& old(self).initiate_error(caller, amount) is None
                    &&& Self::payment_initiated(
                        old(self),
                        final(self),
                        id,
                        caller,
                        payee,
                        amount,
                        now,
                    )
                },
                Err(e) => old(self).initiate_error(caller, amount) == Some(e) && *final(self)
                    == *old(self),
            },
    {
        if !self.is_authorized(caller) {
            return Err(RouterError::Unauthorized);
        }
        let held = self.get_balance(caller);
        if held.lt(&amount) {
            return Err(RouterError::InsufficientBalance);
        }
        self.payments.insert(
            Id { bytes: id },
            Payment { payer: caller, payee, amount, timestamp: now, completed: false },
        );
        proof {
            lemma_value_bound(held);
            lemma_wrapped_small(held@ - amount@);
        }
        self.balances.insert(caller, held.wrapping_sub(amount));
        self.payment_count = self.payment_count.wrapping_add(U256::from_u64(1));
        self.initialized = true;
        self.journal.push(
            RouterEvent::PaymentInitiated { payment_id: id, payer: caller, payee, amount },
        );
        Ok(())
    }

    /// Completes a payment: the payee, who alone may call, is credited the
    /// amount less the fee at the rate in force now. The first check that
    /// fails decides the error, and then nothing changes.
    pub fn complete_payment(&mut self, caller: Address, payment_id: [u8; 32]) -> (r: Result<
        (),
        RouterError,
    >)
        ensures
            match r {
                Ok(_) => old(self).complete_error(caller, payment_id) is None
                    && Self::payment_completed(old(self), final(self), payment_id),
                Err(e) => old(self).complete_error(caller, payment_id) == Some(e) && *final(self)
                    == *old(self),
            },
    {
        let key = Id { bytes: payment_id };
        let payment = match self.payments.get(&key) {
            Some(p) => p,
            None => {
                return Err(RouterError::PaymentNotFound);
            },
        };
        if payment.payer.is_zero() {
            return Err(RouterError::PaymentNotFound);
        }
        if payment.completed {
            return Err(RouterError::PaymentAlreadyCompleted);
        }
        if !caller.same(&payment.payee) {
            return Err(RouterError::Unauthorized);
        }
        let fee = payment.amount.wrapping_mul(self.fee_percentage).div(U256::from_u64(10000));
        let net = payment.amount.wrapping_sub(fee);
        let held = self.get_balance(payment.payee);
        self.balances.insert(payment.payee, held.wrapping_add(net));
        self.payments.insert(
            key,
            Payment {
                payer: payment.payer,
                payee: payment.payee,
                amount: payment.amount,
                timestamp: payment.timestamp,
                completed: true,
            },
        );
        self.journal.push(RouterEvent::PaymentCompleted { payment_id });
        Ok(())
    }

    /// Debits `amount` from the caller's balance and asks for its transfer
    /// to the caller. Refused with `InsufficientBalance`, and without any
    /// change, exactly when the caller holds less.
    pub fn withdraw(&mut self, caller: Address, amount: U256) -> (r: Result<Payout, RouterError>)
        ensures
            match r {
                Ok(t) => {
                    &&& old(self).balance(caller) >= amount@
                    &&& t == (Payout { payee: caller, amount })
                    &&& Self::balance_set(
                        old(self),
                        final(self),
                        caller,
                        (old(self).balance(caller) - amount@) as nat,
                    )
                    &&& final(self).events() == old(self).events().push(
                        RouterEvent::Withdrawn { user: caller, amount },
                    )
                },
                Err(e) => e == RouterError::InsufficientBalance && old(self).balance(caller)
                    < amount@ && *final(self) == *old(self),
            },
    {
        let held = self.get_balance(caller);
        if held.lt(&amount) {
            return Err(RouterError::InsufficientBalance);
        }
        proof {
            lemma_value_bound(held);
            lemma_wrapped_small(held@ - amount@);
        }
        self.balances.insert(caller, held.wrapping_sub(amount));
        self.journal.push(RouterEvent::Withdrawn { user: caller, amount });
        Ok(Payout { payee: caller, amount })
    }

    /// Puts a withdrawn amount back after its transfer failed: the account's
    /// balance grows by `amount`, modulo 2^256, and the last event, that of
    /// the withdrawal, leaves the journal.
    pub fn restore_withdrawal(&mut self, account: Address, amount: U256)
        ensures
            Self::balance_set(
                old(self),
                final(self),
                account,
                wrapped((old(self).balance(account) + amount@) as int),
            ),
            final(self).events() == Self::without_last(old(self).events()),
    {
        let held = self.get_balance(account);
        self.balances.insert(account, held.wrapping_add(amount));
        self.journal.pop();
    }

    /// Hands out the events announced since they were last taken, oldest
    /// first, and empties the journal. Nothing else changes.
    pub fn take_events(&mut self) -> (taken: Vec<RouterEvent>)
        ensures
            taken@ == old(self).events(),
            final(self).events() == Seq::<RouterEvent>::empty(),
            final(self).same_config(old(self)),
            final(self).initialized() == old(self).initialized(),
            final(self).count() == old(self).count(),
            final(self).same_balances(old(self)),
            final(self).same_agents(old(self)),
            final(self).same_payments(old(self)),
    {
        let mut taken = Vec::new();
        std::mem::swap(&mut self.journal, &mut taken);
        taken
    }

    /// The balance held for an account.
    pub fn get_balance(&self, agent: Address) -> (r: U256)
        ensures
            r@ == self.balance(agent),
    {
        match self.balances.get(&agent) {
            Some(b) => b,
            None => U256::zero(),
        }
    }

    /// Whether the account may initiate payments.
    pub fn is_authorized(&self, agent: Address) -> (r: bool)
        ensures
            r == self.authorized(agent),
    {
        match self.authorized_agents.get(&agent) {
            Some(b) => b,
            None => false,
        }
    }

    /// The payment's payer, payee, amount, timestamp and completion flag;
    /// zeros where nothing is recorded.
    pub fn get_payment(&self, payment_id: [u8; 32]) -> (r: (Address, Address, U256, U256, bool))
        ensures
            match self.payment(payment_id) {
                Some(p) => r == (p.payer, p.payee, p.amount, p.timestamp, p.completed),
                None => r.0.is_null() && r.1.is_null() && r.2@ == 0 && r.3@ == 0 && !r.4,
            },
    {
        match self.payments.get(&Id { bytes: payment_id }) {
            Some(p) => (p.payer, p.payee, p.amount, p.timestamp, p.completed),
            None => (Address::zero(), Address::zero(), U256::zero(), U256::zero(), false),
        }
    }

    /// The number of payments initiated so far.
    pub fn get_payment_count(&self) -> (r: U256)
        ensures
            r@ == self.count(),
    {
        self.payment_count
    }

    /// The fee rate in basis points.
    pub fn get_fee_percentage(&self) -> (r: U256)
        ensures
            r@ == self.fee(),
    {
        self.fee_percentage
    }
}

/// A completed payment cannot be completed again, whoever calls: the attempt
/// is refused with `PaymentAlreadyCompleted`.
pub proof fn lemma_second_completion_refused(
    pre: &PaymentRouter,
    post: &PaymentRouter,
    caller: Address,
    id: [u8; 32],
    again: Address,
)
    requires
        pre.complete_error(caller, id) is None,
        PaymentRouter::payment_completed(pre, post, id),
    ensures
        post.complete_error(again, id) == Some(RouterError::PaymentAlreadyCompleted),
{
}

/// With a rate of at most 10000 basis points, and a product of amount and
/// rate that fits the 256-bit word, the fee is the exact fraction rounded
/// down, it is at most the amount, and the payee is credited the rest.
pub proof fn lemma_fee_split(amount: U256, rate: nat)
    requires
        rate <= 10000,
        amount@ * rate < modulus(),
    ensures
        fee_of(amount@, rate) == (amount@ * rate) / 10000,
        fee_of(amount@, rate) <= amount@,
        net_of(amount@, rate) + fee_of(amount@, rate) == amount@,
{
    let a = amount@;
    lemma_wrapped_small((a * rate) as int);
    assert((a * rate) / 10000 <= a) by (nonlinear_arith)
        requires
            rate <= 10000,
    ;
    lemma_value_bound(amount);
    lemma_wrapped_small(a - fee_of(a, rate));
}

/// Completion credits the net amount to the payee and changes no other
/// balance: the fee is held by no account.
pub proof fn lemma_fee_credited_nowhere(
    pre: &PaymentRouter,
    post: &PaymentRouter,
    caller: Address,
    id: [u8; 32],
    account: Address,
)
    requires
        pre.complete_error(caller, id) is None,
        PaymentRouter::payment_completed(pre, post, id),
        account != pre.payment(id)->0.payee,
    ensures
        post.balance(account) == pre.balance(account),
        post.balance(pre.payment(id)->0.payee) == wrapped(
            (pre.balance(pre.payment(id)->0.payee) + net_of(
                pre.payment(id)->0.amount@,
                pre.fee(),
            )) as int,
        ),
{
}

/// Restoring a withdrawal gives the account the balance that it had before
/// the withdrawal, and takes the withdrawal's event out of the journal.
pub proof fn lemma_restore_undoes_withdrawal(
    pre: &PaymentRouter,
    mid: &PaymentRouter,
    post: &PaymentRouter,
    account: Address,
    amount: U256,
)
    requires
        pre.balance(account) >= amount@,
        PaymentRouter::balance_set(pre, mid, account, (pre.balance(account) - amount@) as nat),
        mid.events() == pre.events().push(RouterEvent::Withdrawn { user: account, amount }),
        PaymentRouter::balance_set(
            mid,
            post,
            account,
            wrapped((mid.balance(account) + amount@) as int),
        ),
        post.events() == PaymentRouter::without_last(mid.events()),
    ensures
        post.events() == pre.events(),
        post.balance(account) == pre.balance(account),
        post.same_balances(pre),
        post.same_agents(pre),
        post.same_payments(pre),
{
    assert(post.events() =~= pre.events());
    pre.lemma_balance_bound(account);
    lemma_wrapped_small(pre.balance(account) as int);
    assert forall|a: Address| #[trigger] post.balance(a) == pre.balance(a) by {
        if a != account {
            assert(mid.balance(a) == pre.balance(a));
            assert(post.balance(a) == mid.balance(a));
        }
    }
    assert forall|a: Address| #[trigger] post.authorized(a) == pre.authorized(a) by {
        assert(mid.authorized(a) == pre.authorized(a));
        assert(post.authorized(a) == mid.authorized(a));
    }
    assert forall|i: [u8; 32]| #[trigger] post.payment(i) == pre.payment(i) by {
        assert(mid.payment(i) == pre.payment(i));
        assert(post.payment(i) == mid.payment(i));
    }
}

/// The owner and the fee rate are set at most once, and `init` never sets
/// back a counter that has counted: on a ledger that has counted nothing
/// while its configuration was open, an attempt to configure leaves the
/// count as it is; and once the configuration is closed, a further attempt,
/// by whatever caller, leaves the owner, the fee rate, the count and
/// everything else as they are.
pub proof fn lemma_configured_once(
    pre: &PaymentRouter,
    mid: &PaymentRouter,
    post: &PaymentRouter,
    first: Address,
    first_fee: U256,
    second: Address,
    second_fee: U256,
)
    requires
        pre.counts_from_bootstrap(),
        PaymentRouter::configured(pre, mid, first, first_fee),
        PaymentRouter::configured(mid, post, second, second_fee),
    ensures
        mid.initialized(),
        mid.count() == pre.count(),
        post.owner() == mid.owner(),
        post.fee() == mid.fee(),
        post.count() == mid.count(),
        post.same_balances(mid) && post.same_agents(mid) && post.same_payments(mid),
        post.events() == mid.events(),
{
}

/// Initiating a payment closes the configuration, so that no later attempt
/// to configure can change the owner or the fee rate, or set the counter
/// back and lead to an identifier being derived twice.
pub proof fn lemma_initiation_closes_configuration(
    pre: &PaymentRouter,
    mid: &PaymentRouter,
    post: &PaymentRouter,
    id: [u8; 32],
    payer: Address,
    payee: Address,
    amount: U256,
    now: U256,
    caller: Address,
    fee_percentage: U256,
)
    requires
        PaymentRouter::payment_initiated(pre, mid, id, payer, payee, amount, now),
        PaymentRouter::configured(mid, post, caller, fee_percentage),
    ensures
        mid.counts_from_bootstrap(),
        post.owner() == mid.owner(),
        post.fee() == mid.fee(),
        post.count() == mid.count(),
        post.payment(id) == mid.payment(id),
{
}

/// Setting an agent or a balance and completing a payment leave the owner,
/// the fee rate, the count and the state of the configuration as they are.
pub proof fn lemma_operations_keep_configuration(
    pre: &PaymentRouter,
    post: &PaymentRouter,
    account: Address,
    allowed: bool,
    value: nat,
    id: [u8; 32],
)
    requires
        pre.counts_from_bootstrap(),
        PaymentRouter::agent_set(pre, post, account, allowed) || PaymentRouter::balance_set(
            pre,
            post,
            account,
            value,
        ) || PaymentRouter::payment_completed(pre, post, id),
    ensures
        post.counts_from_bootstrap(),
        post.same_config(pre),
        post.count() == pre.count(),
        post.initialized() == pre.initialized(),
{
}

} // verus!
