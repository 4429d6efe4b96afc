//! The fungible-token ledger.
use vstd::prelude::*;
use crate::address::{Address, AddressPair};
use crate::table::Table;
use crate::uint::{pow256, Uint256};

verus! {

/// What a fungible ledger reports to observers.
#[derive(Clone, Copy, Debug, PartialEq, Eq)]
pub enum Erc20Event {
    Transfer { from: Address, to: Address, value: Uint256 },
    Approval { owner: Address, spender: Address, value: Uint256 },
}

/// Why a fungible-ledger operation was refused; the state is then unchanged.
#[derive(Clone, Copy, Debug, PartialEq, Eq)]
pub enum Erc20Error {
    InsufficientBalance { from: Address, have: Uint256, want: Uint256 },
    InsufficientAllowance { owner: Address, spender: Address, have: Uint256, want: Uint256 },
    InvalidRecipient { to: Address },
    InvalidSender { from: Address },
    /// The new allowance would not fit in 256 bits.
    AllowanceOverflow { owner: Address, spender: Address, have: Uint256, added: Uint256 },
}

/// The sum of the values of a list of balances.
pub open spec fn sum_values(s: Seq<(Address, Uint256)>) -> nat
    decreases s.len(),
{
    if s.len() == 0 {
        0
    } else {
        sum_values(s.drop_last()) + s.last().1.value()
    }
}

proof fn lemma_sum_push(s: Seq<(Address, Uint256)>, e: (Address, Uint256))
    ensures
        sum_values(s.push(e)) == sum_values(s) + e.1.value(),
{
    assert(s.push(e).drop_last() =~= s);
}

proof fn lemma_sum_update(s: Seq<(Address, Uint256)>, i: int, e: (Address, Uint256))
    requires
        0 <= i < s.len(),
    ensures
        sum_values(s.update(i, e)) + s[i].1.value() == sum_values(s) + e.1.value(),
    decreases s.len(),
{
    if i == s.len() - 1 {
        assert(s.update(i, e).drop_last() =~= s.drop_last());
    } else {
        lemma_sum_update(s.drop_last(), i, e);
        assert(s.update(i, e).drop_last() =~= s.drop_last().update(i, e));
    }
}

proof fn lemma_entry_le_sum(s: Seq<(Address, Uint256)>, i: int)
    requires
        0 <= i < s.len(),
    ensures
        s[i].1.value() <= sum_values(s),
    decreases s.len(),
{
    if i < s.len() - 1 {
        lemma_entry_le_sum(s.drop_last(), i);
    }
}

/// A fungible-token ledger: balances per account and allowances per
/// (owner, spender) pair, with a fixed total supply.
pub struct Erc20 {
    name: String,
    symbol: String,
    decimals: Uint256,
    total_supply: Uint256,
    creator: Address,
    initialized: bool,
    balances: Table<Address, Uint256>,
    allowances: Table<AddressPair, Uint256>,
    events: Vec<Erc20Event>,
}

impl Erc20 {
    /// The balance of `a`; zero for an account never credited.
    pub closed spec fn balance_at(self, a: Address) -> nat {
        if self.balances@.contains_key(a) {
            self.balances@[a].value()
        } else {
            0
        }
    }

    /// What `spender` may still move out of `owner`'s balance.
    pub closed spec fn allowance_at(self, owner: Address, spender: Address) -> nat {
        let k = AddressPair { owner, other: spender };
        if self.allowances@.contains_key(k) {
            self.allowances@[k].value()
        } else {
            0
        }
    }

    /// The sum of all balances.
    pub closed spec fn balance_sum(self) -> nat {
        sum_values(self.balances.entries())
    }

    pub closed spec fn supply(self) -> nat {
        self.total_supply.value()
    }

    pub closed spec fn is_initialized(self) -> bool {
        self.initialized
    }

    pub closed spec fn name_view(self) -> Seq<char> {
        self.name@
    }

    pub closed spec fn symbol_view(self) -> Seq<char> {
        self.symbol@
    }

    pub closed spec fn decimals_view(self) -> nat {
        self.decimals.value()
    }

    pub closed spec fn creator_view(self) -> Address {
        self.creator
    }

    /// The events emitted so far, oldest first.
    pub closed spec fn events_view(self) -> Seq<Erc20Event> {
        self.events@
    }

    /// The tables are well formed, the balances add up to the supply, and
    /// there is no supply before initialization.
    pub closed spec fn wf(self) -> bool {
        &&& self.balances.wf()
        &&& self.allowances.wf()
        &&& self.balance_sum() == self.supply()
        &&& !self.initialized ==> self.total_supply.value() == 0
    }

    /// Name, symbol, decimals, supply, creator and the initialized flag are
    /// the same in both.
    pub closed spec fn same_metadata(self, other: Erc20) -> bool {
        &&& self.name@ == other.name@
        &&& self.symbol@ == other.symbol@
        &&& self.decimals == other.decimals
        &&& self.total_supply == other.total_supply
        &&& self.creator == other.creator
        &&& self.initialized == other.initialized
    }

    /// Every allowance is the same in both.
    pub open spec fn same_allowances(self, other: Erc20) -> bool {
        forall|o: Address, s: Address|
            #![trigger self.allowance_at(o, s)]
            #![trigger other.allowance_at(o, s)]
            other.allowance_at(o, s) == self.allowance_at(o, s)
    }

    /// Every balance is the same in both.
    pub open spec fn same_balances(self, other: Erc20) -> bool {
        forall|a: Address|
            #![trigger self.balance_at(a)]
            #![trigger other.balance_at(a)]
            other.balance_at(a) == self.balance_at(a)
    }

    /// `other` is `self` with `amount` moved from `from` to `to`.
    pub open spec fn moved(self, other: Erc20, from: Address, to: Address, amount: nat) -> bool {
        forall|a: Address| #[trigger]
            other.balance_at(a) == self.balance_at(a) - (if a == from {
                amount
            } else {
                0
            }) + (if a == to {
                amount
            } else {
                0
            })
    }

    proof fn lemma_balance_le_sum(self, a: Address)
        requires
            self.balances.wf(),
        ensures
            self.balance_at(a) <= self.balance_sum(),
    {
        if self.balances@.contains_key(a) {
            self.balances.lemma_index_of(a);
            lemma_entry_le_sum(self.balances.entries(), self.balances.index_of(a));
        }
    }

    /// A ledger that has not been initialized: no supply, no balances.
    pub fn new() -> (r: Erc20)
        ensures
            r.wf(),
            !r.is_initialized(),
            r.supply() == 0,
            forall|a: Address| #[trigger] r.balance_at(a) == 0,
            forall|o: Address, s: Address| #[trigger] r.allowance_at(o, s) == 0,
            r.events_view() == Seq::<Erc20Event>::empty(),
    {
        Erc20 {
            name: String::new(),
            symbol: String::new(),
            decimals: Uint256::zero(),
            total_supply: Uint256::zero(),
            creator: Address::zero(),
            initialized: false,
            balances: Table::new(),
            allowances: Table::new(),
            events: Vec::new(),
        }
    }

    /// Sets `a`'s balance to `v`, the supply as it was.
    fn put_balance(&mut self, a: Address, v: Uint256)
        requires
            old(self).balances.wf(),
        ensures
            final(self).balances.wf(),
            final(self).balance_sum() + old(self).balance_at(a) == old(self).balance_sum() + v.value(),
            forall|b: Address| #[trigger]
                final(self).balance_at(b) == if b == a {
                    v.value()
                } else {
                    old(self).balance_at(b)
                },
            final(self).allowances == old(self).allowances,
            final(self).same_metadata(*old(self)),
            final(self).events == old(self).events,
    {
        let ghost prev = self.balances;
        self.balances.set(a, v);
        proof {
            if prev@.contains_key(a) {
                prev.lemma_index_of(a);
                lemma_sum_update(prev.entries(), prev.index_of(a), (a, v));
            } else {
                lemma_sum_push(prev.entries(), (a, v));
            }
        }
    }

    fn get_balance(&self, a: &Address) -> (r: Uint256)
        requires
            self.balances.wf(),
        ensures
            r.value() == self.balance_at(*a),
    {
        match self.balances.get(a) {
            Some(v) => v,
            None => Uint256::zero(),
        }
    }

    fn get_allowance(&self, owner: &Address, spender: &Address) -> (r: Uint256)
        requires
            self.allowances.wf(),
        ensures
            r.value() == self.allowance_at(*owner, *spender),
    {
        match self.allowances.get(&AddressPair { owner: *owner, other: *spender }) {
            Some(v) => v,
            None => Uint256::zero(),
        }
    }
}


impl Erc20 {
    /// Why moving `amount` from `from` to `to` is refused, if it is.
    pub open spec fn transfer_error(self, from: Address, to: Address, amount: Uint256) -> Option<Erc20Error> {
        if from.is_null() {
            Some(Erc20Error::InvalidSender { from })
        } else if to.is_null() {
            Some(Erc20Error::InvalidRecipient { to })
        } else if self.balance_at(from) < amount.value() {
            Some(
                Erc20Error::InsufficientBalance {
                    from,
                    have: Uint256::of(self.balance_at(from)),
                    want: amount,
                },
            )
        } else {
            None
        }
    }

    /// Why setting an allowance of `owner` for `spender` is refused, if it is.
    pub open spec fn approve_error(owner: Address, spender: Address) -> Option<Erc20Error> {
        if owner.is_null() {
            Some(Erc20Error::InvalidSender { from: owner })
        } else if spender.is_null() {
            Some(Erc20Error::InvalidRecipient { to: spender })
        } else {
            None
        }
    }

    /// `other` is `self` with the allowance of `owner` for `spender` set to
    /// `v`, every other allowance as it was.
    pub open spec fn allowance_set(self, other: Erc20, owner: Address, spender: Address, v: nat) -> bool {
        forall|o: Address, s: Address| #[trigger]
            other.allowance_at(o, s) == if o == owner && s == spender {
                v
            } else {
                self.allowance_at(o, s)
            }
    }

    fn put_allowance(&mut self, owner: Address, spender: Address, v: Uint256)
        requires
            old(self).allowances.wf(),
        ensures
            final(self).allowances.wf(),
            old(self).allowance_set(*final(self), owner, spender, v.value()),
            final(self).balances == old(self).balances,
            final(self).same_metadata(*old(self)),
            final(self).events == old(self).events,
    {
        self.allowances.set(AddressPair { owner, other: spender }, v);
    }

    /// Moves `amount` from `from` to `to`, or changes nothing.
    fn move_balance(&mut self, from: Address, to: Address, amount: Uint256) -> (r: Result<(), Erc20Error>)
        requires
            old(self).wf(),
        ensures
            final(self).wf(),
            match old(self).transfer_error(from, to, amount) {
                Some(e) => r == Err::<(), Erc20Error>(e) && *final(self) == *old(self),
                None => {
                    &&& r.is_ok()
                    &&& old(self).moved(*final(self), from, to, amount.value())
                    &&& final(self).allowances == old(self).allowances
                    &&& final(self).same_metadata(*old(self))
                    &&& final(self).events_view() == old(self).events_view().push(
                        Erc20Event::Transfer { from, to, value: amount },
                    )
                },
            },
    {
        if from.is_zero() {
            return Err(Erc20Error::InvalidSender { from });
        }
        if to.is_zero() {
            return Err(Erc20Error::InvalidRecipient { to });
        }
        let from_balance = self.get_balance(&from);
        if from_balance.lt(&amount) {
            proof {
                from_balance.lemma_of_value();
            }
            return Err(Erc20Error::InsufficientBalance { from, have: from_balance, want: amount });
        }
        let ghost before = *self;
        let debited = from_balance.checked_sub(&amount).unwrap();
        self.put_balance(from, debited);
        let ghost mid = *self;
        let to_balance = self.get_balance(&to);
        proof {
            self.lemma_balance_le_sum(to);
            self.total_supply.lemma_value_bounds();
        }
        let credited = to_balance.checked_add(&amount).unwrap();
        self.put_balance(to, credited);
        let ghost after = *self;
        self.events.push(Erc20Event::Transfer { from, to, value: amount });
        assert forall|a: Address| #[trigger]
            self.balance_at(a) == before.balance_at(a) - (if a == from {
                amount.value()
            } else {
                0
            }) + (if a == to {
                amount.value()
            } else {
                0
            }) by {
            assert(mid.balance_at(a) == if a == from {
                debited.value()
            } else {
                before.balance_at(a)
            });
            assert(after.balance_at(a) == if a == to {
                credited.value()
            } else {
                mid.balance_at(a)
            });
            assert(self.balance_at(a) == after.balance_at(a));
        }
        Ok(())
    }

    /// Sets the allowance of `owner` for `spender` to `v`, or changes nothing.
    fn approve_for(&mut self, owner: Address, spender: Address, v: Uint256) -> (r: Result<(), Erc20Error>)
        requires
            old(self).wf(),
        ensures
            final(self).wf(),
            match Erc20::approve_error(owner, spender) {
                Some(e) => r == Err::<(), Erc20Error>(e) && *final(self) == *old(self),
                None => {
                    &&& r.is_ok()
                    &&& old(self).allowance_set(*final(self), owner, spender, v.value())
                    &&& final(self).balances == old(self).balances
                    &&& final(self).same_metadata(*old(self))
                    &&& final(self).events_view() == old(self).events_view().push(
                        Erc20Event::Approval { owner, spender, value: v },
                    )
                },
            },
    {
        if owner.is_zero() {
            return Err(Erc20Error::InvalidSender { from: owner });
        }
        if spender.is_zero() {
            return Err(Erc20Error::InvalidRecipient { to: spender });
        }
        let ghost before = *self;
        self.put_allowance(owner, spender, v);
        let ghost mid = *self;
        self.events.push(Erc20Event::Approval { owner, spender, value: v });
        assert forall|o: Address, s: Address| #[trigger] self.allowance_at(o, s) == mid.allowance_at(o, s) by {}
        assert(before.allowance_set(*self, owner, spender, v.value()));
        Ok(())
    }

    /// What `initialize` does: nothing on an initialized ledger; otherwise
    /// it sets the metadata and credits the whole supply to `creator`.
    pub open spec fn initialize_post(
        self,
        next: Erc20,
        name: Seq<char>,
        symbol: Seq<char>,
        decimals: Uint256,
        initial_supply: Uint256,
        creator: Address,
    ) -> bool {
        &&& self.is_initialized() ==> next == self
        &&& !self.is_initialized() ==> {
            &&& next.is_initialized()
            &&& next.name_view() == name
            &&& next.symbol_view() == symbol
            &&& next.decimals_view() == decimals.value()
            &&& next.supply() == initial_supply.value()
            &&& next.creator_view() == creator
            &&& forall|a: Address| #[trigger]
                next.balance_at(a) == if a == creator {
                    initial_supply.value()
                } else {
                    0
                }
            &&& next.same_allowances(self)
            &&& next.events_view() == self.events_view().push(
                Erc20Event::Transfer { from: Address::null(), to: creator, value: initial_supply },
            )
        }
    }

    /// Initializes the ledger once: sets its metadata and credits the whole
    /// supply to `creator`. On an initialized ledger it does nothing.
    pub fn initialize(
        &mut self,
        name: String,
        symbol: String,
        decimals: Uint256,
        initial_supply: Uint256,
        creator: Address,
    )
        requires
            old(self).wf(),
        ensures
            final(self).wf(),
            old(self).initialize_post(*final(self), name@, symbol@, decimals, initial_supply, creator),
    {
        if self.initialized {
            return;
        }
        let ghost before = *self;
        proof {
            assert forall|a: Address| #[trigger] before.balance_at(a) == 0 by {
                before.lemma_balance_le_sum(a);
            }
        }
        self.name = name;
        self.symbol = symbol;
        self.decimals = decimals;
        self.total_supply = initial_supply;
        self.creator = creator;
        self.initialized = true;
        let ghost s1 = *self;
        assert(s1.balance_at(creator) == before.balance_at(creator));
        assert(s1.balance_sum() == before.balance_sum());
        self.put_balance(creator, initial_supply);
        let ghost mid = *self;
        self.events.push(Erc20Event::Transfer { from: Address::zero(), to: creator, value: initial_supply });
        assert forall|a: Address| #[trigger]
            self.balance_at(a) == if a == creator {
                initial_supply.value()
            } else {
                0
            } by {
            assert(self.balance_at(a) == mid.balance_at(a));
            assert(s1.balance_at(a) == before.balance_at(a));
        }
        assert forall|o: Address, s: Address| #[trigger] self.allowance_at(o, s) == before.allowance_at(o, s) by {}
    }

    pub fn creator(&self) -> (r: Address)
        ensures
            r == self.creator_view(),
    {
        self.creator
    }

    pub fn name(&self) -> (r: String)
        ensures
            r@ == self.name_view(),
    {
        self.name.clone()
    }

    pub fn symbol(&self) -> (r: String)
        ensures
            r@ == self.symbol_view(),
    {
        self.symbol.clone()
    }

    pub fn decimals(&self) -> (r: Uint256)
        ensures
            r.value() == self.decimals_view(),
    {
        self.decimals
    }

    pub fn total_supply(&self) -> (r: Uint256)
        ensures
            r.value() == self.supply(),
    {
        self.total_supply
    }

    pub fn balance_of(&self, account: Address) -> (r: Uint256)
        requires
            self.wf(),
        ensures
            r.value() == self.balance_at(account),
    {
        self.get_balance(&account)
    }

    pub fn allowance(&self, owner: Address, spender: Address) -> (r: Uint256)
        requires
            self.wf(),
        ensures
            r.value() == self.allowance_at(owner, spender),
    {
        self.get_allowance(&owner, &spender)
    }

    /// The events emitted so far, oldest first.
    pub fn events(&self) -> (r: &Vec<Erc20Event>)
        ensures
            r@ == self.events_view(),
    {
        &self.events
    }

    /// Moves `amount` from `caller` to `to`.
    pub fn transfer(&mut self, caller: Address, to: Address, amount: Uint256) -> (r: Result<bool, Erc20Error>)
        requires
            old(self).wf(),
        ensures
            final(self).wf(),
            match old(self).transfer_error(caller, to, amount) {
                Some(e) => r == Err::<bool, Erc20Error>(e) && *final(self) == *old(self),
                None => {
                    &&& r == Ok::<bool, Erc20Error>(true)
                    &&& old(self).moved(*final(self), caller, to, amount.value())
                    &&& final(self).same_allowances(*old(self))
                    &&& final(self).same_metadata(*old(self))
                    &&& final(self).events_view() == old(self).events_view().push(
                        Erc20Event::Transfer { from: caller, to, value: amount },
                    )
                },
            },
    {
        match self.move_balance(caller, to, amount) {
            Ok(()) => Ok(true),
            Err(e) => Err(e),
        }
    }

    /// Sets the allowance of `caller` for `spender` to exactly `amount`.
    pub fn approve(&mut self, caller: Address, spender: Address, amount: Uint256) -> (r: Result<bool, Erc20Error>)
        requires
            old(self).wf(),
        ensures
            final(self).wf(),
            match Erc20::approve_error(caller, spender) {
                Some(e) => r == Err::<bool, Erc20Error>(e) && *final(self) == *old(self),
                None => {
                    &&& r == Ok::<bool, Erc20Error>(true)
                    &&& old(self).allowance_set(*final(self), caller, spender, amount.value())
                    &&& final(self).same_balances(*old(self))
                    &&& final(self).same_metadata(*old(self))
                    &&& final(self).events_view() == old(self).events_view().push(
                        Erc20Event::Approval { owner: caller, spender, value: amount },
                    )
                },
            },
    {
        match self.approve_for(caller, spender, amount) {
            Ok(()) => Ok(true),
            Err(e) => Err(e),
        }
    }

    /// Why `spender` may not move `amount` from `from` to `to`, if so.
    pub open spec fn transfer_from_error(
        self,
        spender: Address,
        from: Address,
        to: Address,
        amount: Uint256,
    ) -> Option<Erc20Error> {
        if self.allowance_at(from, spender) < amount.value() {
            Some(
                Erc20Error::InsufficientAllowance {
                    owner: from,
                    spender,
                    have: Uint256::of(self.allowance_at(from, spender)),
                    want: amount,
                },
            )
        } else {
            self.transfer_error(from, to, amount)
        }
    }

    /// Moves `amount` from `from` to `to` on `caller`'s allowance, which
    /// goes down by `amount`. Either both happen or nothing changes.
    pub fn transfer_from(&mut self, caller: Address, from: Address, to: Address, amount: Uint256) -> (r: Result<bool, Erc20Error>)
        requires
            old(self).wf(),
        ensures
            final(self).wf(),
            match old(self).transfer_from_error(caller, from, to, amount) {
                Some(e) => r == Err::<bool, Erc20Error>(e) && *final(self) == *old(self),
                None => {
                    &&& r == Ok::<bool, Erc20Error>(true)
                    &&& old(self).allowance_set(
                        *final(self),
                        from,
                        caller,
                        (old(self).allowance_at(from, caller) - amount.value()) as nat,
                    )
                    &&& old(self).moved(*final(self), from, to, amount.value())
                    &&& final(self).same_metadata(*old(self))
                    &&& final(self).events_view() == old(self).events_view().push(
                        Erc20Event::Transfer { from, to, value: amount },
                    )
                },
            },
    {
        let current = self.get_allowance(&from, &caller);
        if current.lt(&amount) {
            proof {
                current.lemma_of_value();
            }
            return Err(Erc20Error::InsufficientAllowance { owner: from, spender: caller, have: current, want: amount });
        }
        let ghost before = *self;
        match self.move_balance(from, to, amount) {
            Ok(()) => {},
            Err(e) => {
                return Err(e);
            },
        }
        let ghost moved = *self;
        let remaining = current.checked_sub(&amount).unwrap();
        self.put_allowance(from, caller, remaining);
        assert(before.moved(*self, from, to, amount.value())) by {
            assert forall|a: Address| #[trigger] self.balance_at(a) == moved.balance_at(a) by {}
        }
        Ok(true)
    }

    /// Raises the allowance of `caller` for `spender` by `added`.
    pub fn increase_allowance(&mut self, caller: Address, spender: Address, added: Uint256) -> (r: Result<bool, Erc20Error>)
        requires
            old(self).wf(),
        ensures
            final(self).wf(),
            ({
                let have = old(self).allowance_at(caller, spender);
                if have + added.value() >= pow256() {
                    &&& r == Err::<bool, Erc20Error>(
                        Erc20Error::AllowanceOverflow { owner: caller, spender, have: Uint256::of(have), added },
                    )
                    &&& *final(self) == *old(self)
                } else {
                    match Erc20::approve_error(caller, spender) {
                        Some(e) => r == Err::<bool, Erc20Error>(e) && *final(self) == *old(self),
                        None => {
                            &&& r == Ok::<bool, Erc20Error>(true)
                            &&& old(self).allowance_set(*final(self), caller, spender, have + added.value())
                            &&& final(self).same_balances(*old(self))
                            &&& final(self).same_metadata(*old(self))
                            &&& final(self).events_view() == old(self).events_view().push(
                                Erc20Event::Approval { owner: caller, spender, value: Uint256::of(have + added.value()) },
                            )
                        },
                    }
                }
            }),
    {
        let current = self.get_allowance(&caller, &spender);
        proof {
            current.lemma_of_value();
        }
        match current.checked_add(&added) {
            None => Err(Erc20Error::AllowanceOverflow { owner: caller, spender, have: current, added }),
            Some(v) => {
                proof {
                    v.lemma_of_value();
                }
                match self.approve_for(caller, spender, v) {
                    Ok(()) => Ok(true),
                    Err(e) => Err(e),
                }
            },
        }
    }

    /// Lowers the allowance of `caller` for `spender` by `subtracted`.
    pub fn decrease_allowance(&mut self, caller: Address, spender: Address, subtracted: Uint256) -> (r: Result<bool, Erc20Error>)
        requires
            old(self).wf(),
        ensures
            final(self).wf(),
            ({
                let have = old(self).allowance_at(caller, spender);
                if have < subtracted.value() {
                    &&& r == Err::<bool, Erc20Error>(
                        Erc20Error::InsufficientAllowance { owner: caller, spender, have: Uint256::of(have), want: subtracted },
                    )
                    &&& *final(self) == *old(self)
                } else {
                    match Erc20::approve_error(caller, spender) {
                        Some(e) => r == Err::<bool, Erc20Error>(e) && *final(self) == *old(self),
                        None => {
                            &&& r == Ok::<bool, Erc20Error>(true)
                            &&& old(self).allowance_set(*final(self), caller, spender, (have - subtracted.value()) as nat)
                            &&& final(self).same_balances(*old(self))
                            &&& final(self).same_metadata(*old(self))
                            &&& final(self).events_view() == old(self).events_view().push(
                                Erc20Event::Approval { owner: caller, spender, value: Uint256::of((have - subtracted.value()) as nat) },
                            )
                        },
                    }
                }
            }),
    {
        let current = self.get_allowance(&caller, &spender);
        proof {
            current.lemma_of_value();
        }
        if current.lt(&subtracted) {
            return Err(Erc20Error::InsufficientAllowance { owner: caller, spender, have: current, want: subtracted });
        }
        let v = current.checked_sub(&subtracted).unwrap();
        proof {
            v.lemma_of_value();
        }
        match self.approve_for(caller, spender, v) {
            Ok(()) => Ok(true),
            Err(e) => Err(e),
        }
    }
}

/// Conservation: on every well-formed ledger, which every operation keeps
/// well formed, the balances add up to the total supply.
pub proof fn lemma_conservation(ledger: Erc20)
    requires
        ledger.wf(),
    ensures
        ledger.balance_sum() == ledger.supply(),
{
}

/// Initializing twice leaves the ledger as the first initialization left
/// it, whatever the arguments of the second.
pub proof fn lemma_initialize_idempotent(
    s0: Erc20,
    s1: Erc20,
    s2: Erc20,
    name1: Seq<char>,
    symbol1: Seq<char>,
    decimals1: Uint256,
    supply1: Uint256,
    creator1: Address,
    name2: Seq<char>,
    symbol2: Seq<char>,
    decimals2: Uint256,
    supply2: Uint256,
    creator2: Address,
)
    requires
        s0.initialize_post(s1, name1, symbol1, decimals1, supply1, creator1),
        s1.initialize_post(s2, name2, symbol2, decimals2, supply2, creator2),
    ensures
        s2 == s1,
        s1.is_initialized(),
{
}

} // verus!
