use vstd::prelude::*;
use crate::address::{admin, admin_spec, Address, Witnesses};
use crate::keys::{
    approve_key, balance_key, gen_approve_key, gen_balance_key, lemma_keys_distinct,
    total_supply_key, total_supply_key_spec,
};
use crate::store::{amount_at, weight, Store};

verus! {

/// The token's name.
pub const NAME: &'static str = "wasm_token";

/// The token's symbol.
pub const SYMBOL: &'static str = "WTK";

/// Number of whole tokens in the fixed supply.
pub const TOTAL_SUPPLY: u128 = 100_000_000_000;

/// Number of smallest units in one whole token.
pub const DECIMAL_MULTIPLIER: u128 = 100_000_000;

/// Why an operation aborted. An aborted operation changes nothing.
#[derive(Clone, Copy, Debug, PartialEq, Eq, Structural)]
pub enum LedgerError {
    /// The total supply was already set.
    AlreadyInitialized,
    /// The account that must sign the call did not.
    Unauthorized,
    /// The account holds less than the amount.
    InsufficientBalance,
    /// The spender may move less than the amount.
    InsufficientAllowance,
    /// An amount would leave the unsigned 128-bit range.
    Overflow,
    /// A transfer of a batch moved nothing.
    BatchTransferFailed,
}

/// What a successful operation reports to observers.
#[derive(Clone, Copy, Debug)]
pub enum LedgerEvent {
    Transfer { from: Address, to: Address, amount: u128 },
    Approve { owner: Address, spender: Address, amount: u128 },
}

/// The whole supply, in smallest units.
pub open spec fn initial_supply() -> u128 {
    (TOTAL_SUPPLY * DECIMAL_MULTIPLIER) as u128
}

/// The balance of address `a` in state `m`.
pub open spec fn balance_in(m: Map<Seq<u8>, u128>, a: Seq<u8>) -> u128 {
    amount_at(m, balance_key(a))
}

/// What `spender` may move out of `owner`'s balance in state `m`.
pub open spec fn allowance_in(m: Map<Seq<u8>, u128>, owner: Seq<u8>, spender: Seq<u8>) -> u128 {
    amount_at(m, approve_key(owner, spender))
}

/// The total supply recorded in state `m`; zero before initialization.
pub open spec fn supply_in(m: Map<Seq<u8>, u128>) -> u128 {
    amount_at(m, total_supply_key_spec())
}

/// `m` with amount `v` under `k`, where an amount of zero is stored as no entry.
pub open spec fn set_amount(m: Map<Seq<u8>, u128>, k: Seq<u8>, v: u128) -> Map<Seq<u8>, u128> {
    if v == 0 {
        m.remove(k)
    } else {
        m.insert(k, v)
    }
}

/// No entry of `m` holds zero.
pub open spec fn no_zero_entries(m: Map<Seq<u8>, u128>) -> bool {
    forall|k: Seq<u8>| #[trigger] m.contains_key(k) ==> m[k] != 0
}

/// Result and next state of initialization; `admin_signed` tells whether the
/// administrator signed the call.
pub open spec fn initialize_spec(m: Map<Seq<u8>, u128>, admin_signed: bool) -> (
    Result<bool, LedgerError>,
    Map<Seq<u8>, u128>,
) {
    if supply_in(m) != 0 {
        (Err(LedgerError::AlreadyInitialized), m)
    } else if !admin_signed {
        (Err(LedgerError::Unauthorized), m)
    } else {
        (
            Ok(true),
            m.insert(total_supply_key_spec(), initial_supply()).insert(
                balance_key(admin_spec()),
                initial_supply(),
            ),
        )
    }
}

/// Result and next state of a transfer of `amount` from `from` to `to`.
pub open spec fn transfer_spec(
    m: Map<Seq<u8>, u128>,
    from: Seq<u8>,
    to: Seq<u8>,
    amount: u128,
    from_signed: bool,
) -> (Result<bool, LedgerError>, Map<Seq<u8>, u128>) {
    let bf = balance_in(m, from);
    let bt = balance_in(m, to);
    if !from_signed {
        (Err(LedgerError::Unauthorized), m)
    } else if amount == 0 || bf < amount {
        (Ok(false), m)
    } else if from == to {
        (Ok(true), m)
    } else if bt + amount > u128::MAX {
        (Err(LedgerError::Overflow), m)
    } else {
        (
            Ok(true),
            set_amount(
                set_amount(m, balance_key(from), (bf - amount) as u128),
                balance_key(to),
                (bt + amount) as u128,
            ),
        )
    }
}

/// Result and next state of `owner` letting `spender` move `amount` more.
pub open spec fn approve_spec(
    m: Map<Seq<u8>, u128>,
    owner: Seq<u8>,
    spender: Seq<u8>,
    amount: u128,
    owner_signed: bool,
) -> (Result<bool, LedgerError>, Map<Seq<u8>, u128>) {
    let al = allowance_in(m, owner, spender);
    if !owner_signed {
        (Err(LedgerError::Unauthorized), m)
    } else if amount > balance_in(m, owner) {
        (Err(LedgerError::InsufficientBalance), m)
    } else if al + amount > u128::MAX {
        (Err(LedgerError::Overflow), m)
    } else {
        (Ok(true), set_amount(m, approve_key(owner, spender), (al + amount) as u128))
    }
}

/// Result and next state of `spender` moving `amount` out of `from`'s balance
/// into its own.
pub open spec fn transfer_from_spec(
    m: Map<Seq<u8>, u128>,
    spender: Seq<u8>,
    from: Seq<u8>,
    amount: u128,
    spender_signed: bool,
) -> (Result<bool, LedgerError>, Map<Seq<u8>, u128>) {
    let al = allowance_in(m, from, spender);
    let bf = balance_in(m, from);
    let bs = balance_in(m, spender);
    let m1 = set_amount(m, approve_key(from, spender), (al - amount) as u128);
    if !spender_signed {
        (Err(LedgerError::Unauthorized), m)
    } else if amount > al {
        (Err(LedgerError::InsufficientAllowance), m)
    } else if amount > bf {
        (Err(LedgerError::InsufficientBalance), m)
    } else if from == spender {
        (Ok(true), m1)
    } else if bs + amount > u128::MAX {
        (Err(LedgerError::Overflow), m)
    } else {
        (
            Ok(true),
            set_amount(
                set_amount(m1, balance_key(spender), (bs + amount) as u128),
                balance_key(from),
                (bf - amount) as u128,
            ),
        )
    }
}

/// Result and state after the transfers `ops`, made in order by the signers
/// `auth`; the batch stops at the first transfer that aborts or moves nothing.
pub open spec fn batch_spec(
    m: Map<Seq<u8>, u128>,
    ops: Seq<(Address, Address, u128)>,
    auth: Witnesses,
) -> (Result<bool, LedgerError>, Map<Seq<u8>, u128>)
    decreases ops.len(),
{
    if ops.len() == 0 {
        (Ok(true), m)
    } else {
        let p = batch_spec(m, ops.drop_last(), auth);
        let o = ops.last();
        let q = transfer_spec(p.1, o.0@, o.1@, o.2, auth.authorizes(o.0@));
        if p.0 is Err {
            p
        } else if q.0 == Ok::<bool, LedgerError>(false) {
            (Err(LedgerError::BatchTransferFailed), q.1)
        } else {
            q
        }
    }
}

/// The transfer events of the transfers `ops`, in order.
pub open spec fn transfer_events(ops: Seq<(Address, Address, u128)>) -> Seq<LedgerEvent> {
    ops.map_values(|o: (Address, Address, u128)| LedgerEvent::Transfer { from: o.0, to: o.1, amount: o.2 })
}

/// Once a batch has failed, the transfers after the failing one change nothing.
proof fn lemma_batch_stops(
    m: Map<Seq<u8>, u128>,
    ops: Seq<(Address, Address, u128)>,
    i: int,
    auth: Witnesses,
)
    requires
        0 <= i <= ops.len(),
        batch_spec(m, ops.take(i), auth).0 is Err,
    ensures
        batch_spec(m, ops, auth) == batch_spec(m, ops.take(i), auth),
    decreases ops.len(),
{
    if i < ops.len() {
        assert(ops.drop_last().take(i) =~= ops.take(i));
        lemma_batch_stops(m, ops.drop_last(), i, auth);
    } else {
        assert(ops.take(i) =~= ops);
    }
}

/// A ledger: the stored balances, allowances and total supply, and the log
/// of events emitted so far.
pub struct Ledger {
    store: Store,
    events: Vec<LedgerEvent>,
}

/// Stores `v` under `key`, or removes the entry where `v` is zero.
fn write_amount(store: &mut Store, key: &Vec<u8>, v: u128)
    requires
        old(store).wf(),
    ensures
        final(store).wf(),
        final(store)@ == set_amount(old(store)@, key@, v),
        final(store).balance_sum() == old(store).balance_sum() - weight(
            key@,
            amount_at(old(store)@, key@),
        ) + weight(key@, v),
        no_zero_entries(old(store)@) ==> no_zero_entries(final(store)@),
{
    if v == 0 {
        store.delete(key);
    } else {
        store.put_u128(key, v);
    }
}

impl Ledger {
    /// The stored entries: balances, allowances and the total supply, by key.
    pub closed spec fn state(&self) -> Map<Seq<u8>, u128> {
        self.store@
    }

    /// The events emitted so far, oldest first.
    pub closed spec fn event_log(&self) -> Seq<LedgerEvent> {
        self.events@
    }

    /// The sum of all stored balances.
    pub closed spec fn sum_of_balances(&self) -> int {
        self.store.balance_sum()
    }

    /// The stored keys are unique.
    pub closed spec fn wf(&self) -> bool {
        self.store.wf()
    }

    /// The ledger's invariant: the balances add up to the total supply, and
    /// no entry holds zero.
    pub closed spec fn inv(&self) -> bool {
        &&& self.store.wf()
        &&& no_zero_entries(self.store@)
        &&& self.store.balance_sum() == supply_in(self.store@)
    }

    /// An empty, uninitialized ledger.
    pub fn new() -> (r: Ledger)
        ensures
            r.wf(),
            r.inv(),
            r.state() == Map::<Seq<u8>, u128>::empty(),
            r.event_log() == Seq::<LedgerEvent>::empty(),
    {
        Ledger { store: Store::new(), events: Vec::new() }
    }

    /// A ledger over the entries of `store`, with no events logged.
    pub fn from_store(store: Store) -> (r: Ledger)
        requires
            store.wf(),
        ensures
            r.wf(),
            r.state() == store@,
            r.event_log() == Seq::<LedgerEvent>::empty(),
    {
        Ledger { store, events: Vec::new() }
    }

    /// The store that holds the ledger's entries.
    pub fn into_store(self) -> (r: Store)
        requires
            self.wf(),
        ensures
            r.wf(),
            r@ == self.state(),
    {
        self.store
    }

    /// Hands out the events logged so far, oldest first, and empties the log.
    pub fn take_events(&mut self) -> (r: Vec<LedgerEvent>)
        ensures
            r@ == old(self).event_log(),
            final(self).event_log() == Seq::<LedgerEvent>::empty(),
            final(self).state() == old(self).state(),
            final(self).wf() == old(self).wf(),
            final(self).inv() == old(self).inv(),
    {
        let mut out: Vec<LedgerEvent> = Vec::new();
        out.append(&mut self.events);
        out
    }

    /// The total supply; zero before initialization.
    pub fn total_supply(&self) -> (r: u128)
        requires
            self.wf(),
        ensures
            r == supply_in(self.state()),
    {
        self.store.get_u128(&total_supply_key())
    }

    /// The balance of `addr`; zero for an address never credited.
    pub fn balance_of(&self, addr: &Address) -> (r: u128)
        requires
            self.wf(),
        ensures
            r == balance_in(self.state(), addr@),
    {
        self.store.get_u128(&gen_balance_key(addr))
    }

    /// What `spender` may move out of `owner`'s balance; zero where nothing was approved.
    pub fn allowance(&self, owner: &Address, spender: &Address) -> (r: u128)
        requires
            self.wf(),
        ensures
            r == allowance_in(self.state(), owner@, spender@),
    {
        self.store.get_u128(&gen_approve_key(owner, spender))
    }
}


impl Ledger {
    /// Sets the total supply and credits all of it to the administrator.
    /// Aborts where the supply is already set, or where the administrator did
    /// not sign the call.
    pub fn initialize(&mut self, auth: &Witnesses) -> (r: Result<bool, LedgerError>)
        requires
            old(self).wf(),
        ensures
            final(self).wf(),
            old(self).inv() ==> final(self).inv(),
            (r, final(self).state()) == initialize_spec(old(self).state(), auth.authorizes(admin_spec())),
            final(self).event_log() == old(self).event_log(),
    {
        let ts_key = total_supply_key();
        if self.store.get_u128(&ts_key) != 0 {
            return Err(LedgerError::AlreadyInitialized);
        }
        let admin = admin();
        if !auth.is_authorized(&admin) {
            return Err(LedgerError::Unauthorized);
        }
        let total: u128 = TOTAL_SUPPLY * DECIMAL_MULTIPLIER;
        let admin_key = gen_balance_key(&admin);
        proof {
            lemma_keys_distinct(admin@, admin@, admin@, admin@);
            self.store.lemma_balance_sum_bounds(admin_key@);
        }
        self.store.put_u128(&ts_key, total);
        self.store.put_u128(&admin_key, total);
        Ok(true)
    }

    /// Moves `amount` from `from` to `to`. Aborts where `from` did not sign the
    /// call; returns false, changing nothing, where `amount` is zero or more
    /// than `from` holds. On success a transfer event is logged, also for a
    /// transfer of an account to itself, which leaves its balance as it was.
    pub fn transfer(&mut self, auth: &Witnesses, from: &Address, to: &Address, amount: u128) -> (r:
        Result<bool, LedgerError>)
        requires
            old(self).wf(),
        ensures
            final(self).wf(),
            old(self).inv() ==> final(self).inv(),
            (r, final(self).state()) == transfer_spec(
                old(self).state(),
                from@,
                to@,
                amount,
                auth.authorizes(from@),
            ),
            r == Ok::<bool, LedgerError>(true) ==> final(self).event_log() == old(self).event_log().push(
                LedgerEvent::Transfer { from: *from, to: *to, amount },
            ),
            r != Ok::<bool, LedgerError>(true) ==> final(self).event_log() == old(self).event_log(),
    {
        if !auth.is_authorized(from) {
            return Err(LedgerError::Unauthorized);
        }
        let from_key = gen_balance_key(from);
        let to_key = gen_balance_key(to);
        let from_balance = self.store.get_u128(&from_key);
        let to_balance = self.store.get_u128(&to_key);
        if amount == 0 || from_balance < amount {
            return Ok(false);
        }
        if !from.same_as(to) {
            if amount > u128::MAX - to_balance {
                return Err(LedgerError::Overflow);
            }
            proof {
                lemma_keys_distinct(from@, to@, from@, to@);
            }
            write_amount(&mut self.store, &from_key, from_balance - amount);
            write_amount(&mut self.store, &to_key, to_balance + amount);
        }
        self.events.push(LedgerEvent::Transfer { from: *from, to: *to, amount });
        Ok(true)
    }

    /// Lets `spender` move `amount` more out of `owner`'s balance: the new
    /// allowance is the old one plus `amount`. Aborts where `owner` did not sign
    /// the call or holds less than `amount`. On success an approve event is logged.
    pub fn approve(&mut self, auth: &Witnesses, owner: &Address, spender: &Address, amount: u128) -> (r:
        Result<bool, LedgerError>)
        requires
            old(self).wf(),
        ensures
            final(self).wf(),
            old(self).inv() ==> final(self).inv(),
            (r, final(self).state()) == approve_spec(
                old(self).state(),
                owner@,
                spender@,
                amount,
                auth.authorizes(owner@),
            ),
            r is Ok ==> final(self).event_log() == old(self).event_log().push(
                LedgerEvent::Approve { owner: *owner, spender: *spender, amount },
            ),
            r is Err ==> final(self).event_log() == old(self).event_log(),
    {
        if !auth.is_authorized(owner) {
            return Err(LedgerError::Unauthorized);
        }
        if amount > self.balance_of(owner) {
            return Err(LedgerError::InsufficientBalance);
        }
        let key = gen_approve_key(owner, spender);
        let current = self.store.get_u128(&key);
        if amount > u128::MAX - current {
            return Err(LedgerError::Overflow);
        }
        proof {
            lemma_keys_distinct(owner@, owner@, owner@, spender@);
        }
        write_amount(&mut self.store, &key, current + amount);
        self.events.push(LedgerEvent::Approve { owner: *owner, spender: *spender, amount });
        Ok(true)
    }

    /// `spender` moves `amount` out of `from`'s balance into its own, using up
    /// as much of what `from` let it move. Aborts where `spender` did not sign
    /// the call, or where `amount` is more than its allowance or than `from` holds.
    pub fn transfer_from(&mut self, auth: &Witnesses, spender: &Address, from: &Address, amount: u128) -> (r:
        Result<bool, LedgerError>)
        requires
            old(self).wf(),
        ensures
            final(self).wf(),
            old(self).inv() ==> final(self).inv(),
            (r, final(self).state()) == transfer_from_spec(
                old(self).state(),
                spender@,
                from@,
                amount,
                auth.authorizes(spender@),
            ),
            final(self).event_log() == old(self).event_log(),
    {
        if !auth.is_authorized(spender) {
            return Err(LedgerError::Unauthorized);
        }
        let approve_key = gen_approve_key(from, spender);
        let allowance = self.store.get_u128(&approve_key);
        if amount > allowance {
            return Err(LedgerError::InsufficientAllowance);
        }
        let from_key = gen_balance_key(from);
        let from_balance = self.store.get_u128(&from_key);
        if amount > from_balance {
            return Err(LedgerError::InsufficientBalance);
        }
        let same = spender.same_as(from);
        let spender_key = gen_balance_key(spender);
        let spender_balance = self.store.get_u128(&spender_key);
        if !same && amount > u128::MAX - spender_balance {
            return Err(LedgerError::Overflow);
        }
        proof {
            lemma_keys_distinct(from@, spender@, from@, spender@);
        }
        write_amount(&mut self.store, &approve_key, allowance - amount);
        if !same {
            write_amount(&mut self.store, &spender_key, spender_balance + amount);
            write_amount(&mut self.store, &from_key, from_balance - amount);
        }
        Ok(true)
    }
    /// Makes the transfers `states` in order, all or none: where one aborts, or
    /// returns false, the batch aborts and the ledger is left as it was.
    pub fn transfer_multi(&mut self, auth: &Witnesses, states: &[(Address, Address, u128)]) -> (r:
        Result<bool, LedgerError>)
        requires
            old(self).wf(),
        ensures
            final(self).wf(),
            old(self).inv() ==> final(self).inv(),
            r == batch_spec(old(self).state(), states@, *auth).0,
            r is Ok ==> final(self).state() == batch_spec(old(self).state(), states@, *auth).1
                && final(self).event_log() == old(self).event_log() + transfer_events(states@),
            r is Err ==> final(self).state() == old(self).state() && final(self).event_log()
                == old(self).event_log(),
    {
        let ghost m0 = self.state();
        let ghost ops = states@;
        let mut work = Ledger { store: self.store.duplicate(), events: Vec::new() };
        let mut i: usize = 0;
        proof {
            assert(ops.take(0) =~= Seq::<(Address, Address, u128)>::empty());
            assert(transfer_events(ops.take(0)) =~= Seq::<LedgerEvent>::empty());
        }
        while i < states.len()
            invariant
                0 <= i <= ops.len(),
                ops == states@,
                m0 == old(self).state(),
                self.wf(),
                old(self).inv() ==> self.inv(),
                self.state() == old(self).state(),
                self.event_log() == old(self).event_log(),
                work.wf(),
                old(self).inv() ==> work.inv(),
                batch_spec(m0, ops.take(i as int), *auth) == (Ok::<bool, LedgerError>(true), work.state()),
                work.event_log() == transfer_events(ops.take(i as int)),
            decreases ops.len() - i,
        {
            let (from, to, amount) = states[i];
            let ghost before = work.state();
            let res = work.transfer(auth, &from, &to, amount);
            proof {
                assert(ops.take(i + 1).drop_last() =~= ops.take(i as int));
                assert(ops.take(i + 1).last() == (from, to, amount));
            }
            match res {
                Err(e) => {
                    proof {
                        lemma_batch_stops(m0, ops, i + 1, *auth);
                    }
                    return Err(e);
                },
                Ok(false) => {
                    proof {
                        lemma_batch_stops(m0, ops, i + 1, *auth);
                    }
                    return Err(LedgerError::BatchTransferFailed);
                },
                Ok(true) => {},
            }
            i = i + 1;
            proof {
                assert(transfer_events(ops.take(i as int)) =~= transfer_events(ops.take(i - 1)).push(
                    LedgerEvent::Transfer { from, to, amount },
                ));
            }
        }
        proof {
            assert(ops.take(i as int) =~= ops);
        }
        self.store = work.store;
        self.events.append(&mut work.events);
        Ok(true)
    }
}

/// In every state that the ledger's operations reach, the stored balances add
/// up to the total supply; before initialization both are zero.
pub proof fn lemma_supply_conserved(l: &Ledger)
    requires
        l.inv(),
    ensures
        l.sum_of_balances() == supply_in(l.state()),
        supply_in(l.state()) == 0 ==> l.sum_of_balances() == 0,
{
}

/// In every state that the ledger's operations reach, no balance, allowance or
/// other entry holds zero: a zero amount is an absent entry.
pub proof fn lemma_no_zero_entries(l: &Ledger)
    requires
        l.inv(),
    ensures
        no_zero_entries(l.state()),
{
}

/// Initializing a second time aborts and leaves the state as the first
/// initialization left it.
pub proof fn lemma_initialize_once(m: Map<Seq<u8>, u128>, first_signed: bool, second_signed: bool)
    requires
        initialize_spec(m, first_signed).0 is Ok,
    ensures
        initialize_spec(initialize_spec(m, first_signed).1, second_signed) == (
            Err::<bool, LedgerError>(LedgerError::AlreadyInitialized),
            initialize_spec(m, first_signed).1,
        ),
{
    lemma_keys_distinct(admin_spec(), admin_spec(), admin_spec(), admin_spec());
}

/// A transfer of zero, or of more than the sender holds, changes nothing, and
/// returns false where the sender signed the call.
pub proof fn lemma_transfer_refused(
    m: Map<Seq<u8>, u128>,
    from: Seq<u8>,
    to: Seq<u8>,
    amount: u128,
    from_signed: bool,
)
    requires
        amount == 0 || amount > balance_in(m, from),
    ensures
        transfer_spec(m, from, to, amount, from_signed).1 == m,
        from_signed ==> transfer_spec(m, from, to, amount, from_signed).0 == Ok::<bool, LedgerError>(false),
{
}

/// A signed transfer of an account's whole, non-zero balance to itself succeeds
/// and leaves every entry, that balance too, as it was.
pub proof fn lemma_self_transfer(m: Map<Seq<u8>, u128>, a: Seq<u8>, signed: bool)
    requires
        balance_in(m, a) > 0,
    ensures
        signed ==> transfer_spec(m, a, a, balance_in(m, a), signed) == (Ok::<bool, LedgerError>(true), m),
        !signed ==> transfer_spec(m, a, a, balance_in(m, a), signed).1 == m,
{
}

/// Two successful approvals add up: the allowance grows by both amounts.
pub proof fn lemma_approve_adds(
    m: Map<Seq<u8>, u128>,
    owner: Seq<u8>,
    spender: Seq<u8>,
    x: u128,
    y: u128,
    first_signed: bool,
    second_signed: bool,
)
    requires
        approve_spec(m, owner, spender, x, first_signed).0 is Ok,
        approve_spec(approve_spec(m, owner, spender, x, first_signed).1, owner, spender, y, second_signed).0 is Ok,
    ensures
        allowance_in(
            approve_spec(approve_spec(m, owner, spender, x, first_signed).1, owner, spender, y, second_signed).1,
            owner,
            spender,
        ) == allowance_in(m, owner, spender) + x + y,
{
}

/// Moving more than the allowance aborts and changes nothing.
pub proof fn lemma_transfer_from_over_allowance(
    m: Map<Seq<u8>, u128>,
    spender: Seq<u8>,
    owner: Seq<u8>,
    amount: u128,
    spender_signed: bool,
)
    requires
        amount > allowance_in(m, owner, spender),
    ensures
        transfer_from_spec(m, spender, owner, amount, spender_signed).0 is Err,
        transfer_from_spec(m, spender, owner, amount, spender_signed).1 == m,
        spender_signed ==> transfer_from_spec(m, spender, owner, amount, spender_signed).0 == Err::<
            bool,
            LedgerError,
        >(LedgerError::InsufficientAllowance),
{
}

/// In every state that the ledger's operations reach, no two balances add up
/// to more than the supply, so neither a transfer nor a delegated transfer
/// aborts for overflow.
pub proof fn lemma_no_overflow(l: &Ledger, a: Seq<u8>, b: Seq<u8>, amount: u128, signed: bool)
    requires
        l.inv(),
        a.len() == 20,
        b.len() == 20,
    ensures
        a != b ==> balance_in(l.state(), a) + balance_in(l.state(), b) <= supply_in(l.state()),
        transfer_spec(l.state(), a, b, amount, signed).0 != Err::<bool, LedgerError>(LedgerError::Overflow),
        transfer_from_spec(l.state(), b, a, amount, signed).0 != Err::<bool, LedgerError>(
            LedgerError::Overflow,
        ),
{
    lemma_keys_distinct(a, b, a, b);
    if a != b {
        l.store.lemma_balance_sum_pair(balance_key(a), balance_key(b));
    }
}

} // verus!
