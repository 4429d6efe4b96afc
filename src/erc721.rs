//! The non-fungible-token ledger.
use vstd::prelude::*;
use vstd::string::StringExecFns;
use crate::address::{Address, AddressPair};
use crate::table::Table;
use crate::uint::{pow256, Uint256};

verus! {

/// What a non-fungible ledger reports to observers.
#[derive(Clone, Copy, Debug, PartialEq, Eq)]
#[allow(inconsistent_fields)]
pub enum Erc721Event {
    Transfer { from: Address, to: Address, token_id: Uint256 },
    Approval { owner: Address, approved: Address, token_id: Uint256 },
    ApprovalForAll { owner: Address, operator: Address, approved: bool },
}

/// Why a non-fungible-ledger operation was refused; the state is then
/// unchanged.
#[derive(Clone, Copy, Debug, PartialEq, Eq)]
pub enum Erc721Error {
    InvalidTokenId { token_id: Uint256 },
    NotOwnerOrApproved { caller: Address, token_id: Uint256 },
    NotOwner { caller: Address, token_id: Uint256 },
    MintToZeroAddress,
    TransferToZeroAddress,
    /// Every token id below 2^256 - 1 has been handed out.
    TokenIdsExhausted,
}

/// A non-fungible-token ledger: one owner per existing token id, a count of
/// tokens per account, one approved delegate per token and blanket
/// operator approvals per (owner, operator) pair.
pub struct Erc721 {
    name: String,
    symbol: String,
    base_uri: String,
    next_token_id: Uint256,
    creator: Address,
    initialized: bool,
    owners: Table<Uint256, Address>,
    balances: Table<Address, Uint256>,
    token_approvals: Table<Uint256, Address>,
    operator_approvals: Table<AddressPair, bool>,
    events: Vec<Erc721Event>,
}

impl Erc721 {
    /// The owner of token `id`; null when the token does not exist.
    pub closed spec fn owner_at(self, id: nat) -> Address {
        let k = Uint256::of(id);
        if id < pow256() && self.owners@.contains_key(k) {
            self.owners@[k]
        } else {
            Address::null()
        }
    }

    pub open spec fn token_exists(self, id: nat) -> bool {
        !self.owner_at(id).is_null()
    }

    /// The delegate approved for token `id`; null when there is none.
    pub closed spec fn approved_at(self, id: nat) -> Address {
        let k = Uint256::of(id);
        if id < pow256() && self.token_approvals@.contains_key(k) {
            self.token_approvals@[k]
        } else {
            Address::null()
        }
    }

    /// Whether `operator` may act on every token of `owner`.
    pub closed spec fn operator_at(self, owner: Address, operator: Address) -> bool {
        let k = AddressPair { owner, other: operator };
        self.operator_approvals@.contains_key(k) && self.operator_approvals@[k]
    }

    /// The number of tokens recorded for `a`.
    pub closed spec fn balance_at(self, a: Address) -> nat {
        if self.balances@.contains_key(a) {
            self.balances@[a].value()
        } else {
            0
        }
    }

    /// The id the next mint hands out.
    pub closed spec fn next_id(self) -> nat {
        self.next_token_id.value()
    }

    /// How many of the ids below `n` `a` owns.
    pub closed spec fn count_owned(self, a: Address, n: nat) -> nat
        decreases n,
    {
        if n == 0 {
            0
        } else {
            self.count_owned(a, (n - 1) as nat) + if self.owner_at((n - 1) as nat) == a {
                1nat
            } else {
                0nat
            }
        }
    }

    pub closed spec fn is_initialized(self) -> bool {
        self.initialized
    }

    pub closed spec fn name_view(self) -> Seq<char> {
        self.name@
    }

    pub closed spec fn symbol_view(self) -> Seq<char> {
        self.symbol@
    }

    pub closed spec fn base_uri_view(self) -> Seq<char> {
        self.base_uri@
    }

    pub closed spec fn creator_view(self) -> Address {
        self.creator
    }

    /// The events emitted so far, oldest first.
    pub closed spec fn events_view(self) -> Seq<Erc721Event> {
        self.events@
    }

    /// Well formed: the tables are, ids start at 1, every existing token has
    /// an id below the next one, and each account's balance is the number
    /// of tokens it owns.
    pub closed spec fn wf(self) -> bool {
        &&& self.owners.wf()
        &&& self.balances.wf()
        &&& self.token_approvals.wf()
        &&& self.operator_approvals.wf()
        &&& self.next_id() >= 1
        &&& forall|id: nat| #[trigger] self.token_exists(id) ==> 1 <= id < self.next_id()
        &&& forall|a: Address| !a.is_null() ==> #[trigger] self.balance_at(a) == self.count_owned(a, self.next_id())
    }

    /// Name, symbol, base URI, creator and the initialized flag are the same
    /// in both.
    pub closed spec fn same_metadata(self, other: Erc721) -> bool {
        &&& self.name@ == other.name@
        &&& self.symbol@ == other.symbol@
        &&& self.base_uri@ == other.base_uri@
        &&& self.creator == other.creator
        &&& self.initialized == other.initialized
    }

    pub open spec fn same_operators(self, other: Erc721) -> bool {
        forall|o: Address, p: Address|
            #![trigger self.operator_at(o, p)]
            #![trigger other.operator_at(o, p)]
            other.operator_at(o, p) == self.operator_at(o, p)
    }

    pub open spec fn same_approvals(self, other: Erc721) -> bool {
        forall|id: nat|
            #![trigger self.approved_at(id)]
            #![trigger other.approved_at(id)]
            other.approved_at(id) == self.approved_at(id)
    }

    pub open spec fn same_owners(self, other: Erc721) -> bool {
        forall|id: nat|
            #![trigger self.owner_at(id)]
            #![trigger other.owner_at(id)]
            other.owner_at(id) == self.owner_at(id)
    }

    pub open spec fn same_balances(self, other: Erc721) -> bool {
        forall|a: Address|
            #![trigger self.balance_at(a)]
            #![trigger other.balance_at(a)]
            other.balance_at(a) == self.balance_at(a)
    }

    /// `other` is `self` with token `id` now owned by `to` (null: burned),
    /// every other owner as it was.
    pub open spec fn owner_set(self, other: Erc721, id: nat, to: Address) -> bool {
        forall|n: nat| #[trigger]
            other.owner_at(n) == if n == id {
                to
            } else {
                self.owner_at(n)
            }
    }

    /// `other` is `self` with token `id`'s delegate set to `to`.
    pub open spec fn approval_set(self, other: Erc721, id: nat, to: Address) -> bool {
        forall|n: nat| #[trigger]
            other.approved_at(n) == if n == id {
                to
            } else {
                self.approved_at(n)
            }
    }

    /// `other` is `self` with one token counted away from `from` (if not
    /// null) and towards `to` (if not null).
    pub open spec fn balances_moved(self, other: Erc721, from: Address, to: Address) -> bool {
        forall|a: Address| #[trigger]
            other.balance_at(a) == self.balance_at(a) - (if a == from && !from.is_null() {
                1int
            } else {
                0int
            }) + (if a == to && !to.is_null() {
                1int
            } else {
                0int
            })
    }

    proof fn lemma_count_frame(s1: Erc721, s2: Erc721, a: Address, n: nat)
        requires
            forall|id: nat| id < n ==> #[trigger] s1.owner_at(id) == s2.owner_at(id),
        ensures
            s1.count_owned(a, n) == s2.count_owned(a, n),
        decreases n,
    {
        if n > 0 {
            Erc721::lemma_count_frame(s1, s2, a, (n - 1) as nat);
            assert(s1.owner_at((n - 1) as nat) == s2.owner_at((n - 1) as nat));
        }
    }

    proof fn lemma_count_point(s1: Erc721, s2: Erc721, a: Address, n: nat, t: nat)
        requires
            t < n,
            forall|id: nat| id < n && id != t ==> #[trigger] s1.owner_at(id) == s2.owner_at(id),
        ensures
            s2.count_owned(a, n) == s1.count_owned(a, n) - (if s1.owner_at(t) == a {
                1int
            } else {
                0int
            }) + (if s2.owner_at(t) == a {
                1int
            } else {
                0int
            }),
        decreases n,
    {
        if t == n - 1 {
            Erc721::lemma_count_frame(s1, s2, a, t);
        } else {
            Erc721::lemma_count_point(s1, s2, a, (n - 1) as nat, t);
            assert(s1.owner_at((n - 1) as nat) == s2.owner_at((n - 1) as nat));
        }
    }

    proof fn lemma_count_two(self, a: Address, b: Address, n: nat)
        requires
            a != b,
        ensures
            self.count_owned(a, n) + self.count_owned(b, n) <= n,
        decreases n,
    {
        if n > 0 {
            self.lemma_count_two(a, b, (n - 1) as nat);
        }
    }

    proof fn lemma_count_positive(self, a: Address, n: nat, t: nat)
        requires
            t < n,
            self.owner_at(t) == a,
        ensures
            self.count_owned(a, n) >= 1,
        decreases n,
    {
        if t < n - 1 {
            self.lemma_count_positive(a, (n - 1) as nat, t);
        }
    }

    /// An empty ledger, not yet initialized, whose first token id is 1.
    pub fn new() -> (r: Erc721)
        ensures
            r.wf(),
            !r.is_initialized(),
            r.next_id() == 1,
            forall|id: nat| !(#[trigger] r.token_exists(id)),
            forall|a: Address| #[trigger] r.balance_at(a) == 0,
            forall|id: nat| #[trigger] r.approved_at(id) == Address::null(),
            forall|o: Address, p: Address| !(#[trigger] r.operator_at(o, p)),
            r.events_view() == Seq::<Erc721Event>::empty(),
    {
        let r = Erc721 {
            name: String::new(),
            symbol: String::new(),
            base_uri: String::new(),
            next_token_id: Uint256::from_u128(1),
            creator: Address::zero(),
            initialized: false,
            owners: Table::new(),
            balances: Table::new(),
            token_approvals: Table::new(),
            operator_approvals: Table::new(),
            events: Vec::new(),
        };
        proof {
            assert forall|a: Address| !a.is_null() implies #[trigger] r.balance_at(a) == r.count_owned(a, r.next_id()) by {
                assert(r.count_owned(a, 0) == 0);
                assert(r.owner_at(0) == Address::null());
                assert(r.count_owned(a, 1) == 0);
            }
            assert forall|id: nat| !(#[trigger] r.token_exists(id)) by {
                assert(Address::null().is_null()) by {
                    Address::lemma_null(Address::null());
                }
            }
        }
        r
    }
}


impl Erc721 {
    fn get_owner(&self, id: &Uint256) -> (r: Address)
        requires
            self.owners.wf(),
        ensures
            r == self.owner_at(id.value()),
    {
        proof {
            id.lemma_of_value();
            id.lemma_value_bounds();
        }
        match self.owners.get(id) {
            Some(a) => a,
            None => Address::zero(),
        }
    }

    fn put_owner(&mut self, id: Uint256, a: Address)
        requires
            old(self).owners.wf(),
        ensures
            final(self).owners.wf(),
            old(self).owner_set(*final(self), id.value(), a),
            final(self).balances == old(self).balances,
            final(self).token_approvals == old(self).token_approvals,
            final(self).operator_approvals == old(self).operator_approvals,
            final(self).next_token_id == old(self).next_token_id,
            final(self).same_metadata(*old(self)),
            final(self).events == old(self).events,
    {
        let ghost before = *self;
        self.owners.set(id, a);
        proof {
            id.lemma_of_value();
            id.lemma_value_bounds();
            assert forall|n: nat| #[trigger]
                self.owner_at(n) == if n == id.value() {
                    a
                } else {
                    before.owner_at(n)
                } by {
                if n < pow256() {
                    Uint256::lemma_of_nat(n);
                }
            }
        }
    }

    fn get_approval(&self, id: &Uint256) -> (r: Address)
        requires
            self.token_approvals.wf(),
        ensures
            r == self.approved_at(id.value()),
    {
        proof {
            id.lemma_of_value();
            id.lemma_value_bounds();
        }
        match self.token_approvals.get(id) {
            Some(a) => a,
            None => Address::zero(),
        }
    }

    fn put_approval(&mut self, id: Uint256, a: Address)
        requires
            old(self).token_approvals.wf(),
        ensures
            final(self).token_approvals.wf(),
            old(self).approval_set(*final(self), id.value(), a),
            final(self).owners == old(self).owners,
            final(self).balances == old(self).balances,
            final(self).operator_approvals == old(self).operator_approvals,
            final(self).next_token_id == old(self).next_token_id,
            final(self).same_metadata(*old(self)),
            final(self).events == old(self).events,
    {
        let ghost before = *self;
        self.token_approvals.set(id, a);
        proof {
            id.lemma_of_value();
            id.lemma_value_bounds();
            assert forall|n: nat| #[trigger]
                self.approved_at(n) == if n == id.value() {
                    a
                } else {
                    before.approved_at(n)
                } by {
                if n < pow256() {
                    Uint256::lemma_of_nat(n);
                }
            }
        }
    }

    fn get_balance(&self, a: &Address) -> (r: Uint256)
        requires
            self.balances.wf(),
        ensures
            r.value() == self.balance_at(*a),
    {
        match self.balances.get(a) {
            Some(v) => v,
            None => Uint256::zero(),
        }
    }

    fn put_balance(&mut self, a: Address, v: Uint256)
        requires
            old(self).balances.wf(),
        ensures
            final(self).balances.wf(),
            forall|b: Address| #[trigger]
                final(self).balance_at(b) == if b == a {
                    v.value()
                } else {
                    old(self).balance_at(b)
                },
            final(self).owners == old(self).owners,
            final(self).token_approvals == old(self).token_approvals,
            final(self).operator_approvals == old(self).operator_approvals,
            final(self).next_token_id == old(self).next_token_id,
            final(self).same_metadata(*old(self)),
            final(self).events == old(self).events,
    {
        self.balances.set(a, v);
    }

    fn get_operator(&self, owner: &Address, operator: &Address) -> (r: bool)
        requires
            self.operator_approvals.wf(),
        ensures
            r == self.operator_at(*owner, *operator),
    {
        match self.operator_approvals.get(&AddressPair { owner: *owner, other: *operator }) {
            Some(b) => b,
            None => false,
        }
    }
}


impl Erc721 {
    /// `spender` may move or burn token `id`: the token exists and
    /// `spender` is its owner, its approved delegate, or an operator of its
    /// owner.
    pub open spec fn is_authorized(self, spender: Address, id: nat) -> bool {
        &&& self.token_exists(id)
        &&& {
            ||| spender == self.owner_at(id)
            ||| (!self.approved_at(id).is_null() && self.approved_at(id) == spender)
            ||| self.operator_at(self.owner_at(id), spender)
        }
    }

    fn is_live(&self, token_id: &Uint256) -> (r: bool)
        requires
            self.wf(),
        ensures
            r == self.token_exists(token_id.value()),
    {
        !self.get_owner(token_id).is_zero()
    }

    fn is_approved_or_owner(&self, spender: &Address, token_id: &Uint256) -> (r: bool)
        requires
            self.wf(),
        ensures
            r == self.is_authorized(*spender, token_id.value()),
    {
        let owner = self.get_owner(token_id);
        if owner.is_zero() {
            return false;
        }
        if *spender == owner {
            return true;
        }
        let approved = self.get_approval(token_id);
        if !approved.is_zero() && approved == *spender {
            return true;
        }
        self.get_operator(&owner, spender)
    }

    /// What `initialize` does: nothing on an initialized ledger; otherwise
    /// it sets the name, symbol, base URI and creator, and leaves tokens,
    /// approvals and the id counter as they were.
    pub open spec fn initialize_post(
        self,
        next: Erc721,
        name: Seq<char>,
        symbol: Seq<char>,
        base_uri: Seq<char>,
        creator: Address,
    ) -> bool {
        &&& self.is_initialized() ==> next == self
        &&& !self.is_initialized() ==> {
            &&& next.is_initialized()
            &&& next.name_view() == name
            &&& next.symbol_view() == symbol
            &&& next.base_uri_view() == base_uri
            &&& next.creator_view() == creator
            &&& next.next_id() == self.next_id()
            &&& self.same_owners(next)
            &&& self.same_balances(next)
            &&& self.same_approvals(next)
            &&& self.same_operators(next)
            &&& next.events_view() == self.events_view()
        }
    }

    /// Initializes the collection once. On an initialized collection it does
    /// nothing.
    pub fn initialize(&mut self, name: String, symbol: String, base_uri: String, creator: Address)
        requires
            old(self).wf(),
        ensures
            final(self).wf(),
            old(self).initialize_post(*final(self), name@, symbol@, base_uri@, creator),
    {
        if self.initialized {
            return;
        }
        let ghost before = *self;
        self.name = name;
        self.symbol = symbol;
        self.base_uri = base_uri;
        self.creator = creator;
        self.initialized = true;
        proof {
            assert forall|id: nat| #[trigger] self.owner_at(id) == before.owner_at(id) by {}
            assert forall|a: Address| #[trigger] self.balance_at(a) == before.balance_at(a) by {}
            assert forall|id: nat| #[trigger] self.approved_at(id) == before.approved_at(id) by {}
            assert forall|o: Address, p: Address| #[trigger] self.operator_at(o, p) == before.operator_at(o, p) by {}
            assert forall|a: Address| !a.is_null() implies #[trigger] self.balance_at(a) == self.count_owned(a, self.next_id()) by {
                Erc721::lemma_count_frame(before, *self, a, self.next_id());
            }
            assert forall|id: nat| #[trigger] self.token_exists(id) implies 1 <= id < self.next_id() by {
                assert(before.token_exists(id));
            }
        }
    }

    pub fn creator(&self) -> (r: Address)
        ensures
            r == self.creator_view(),
    {
        self.creator
    }

    pub fn name(&self) -> (r: String)
        ensures
            r@ == self.name_view(),
    {
        self.name.clone()
    }

    pub fn symbol(&self) -> (r: String)
        ensures
            r@ == self.symbol_view(),
    {
        self.symbol.clone()
    }

    pub fn base_uri(&self) -> (r: String)
        ensures
            r@ == self.base_uri_view(),
    {
        self.base_uri.clone()
    }

    /// The events emitted so far, oldest first.
    pub fn events(&self) -> (r: &Vec<Erc721Event>)
        ensures
            r@ == self.events_view(),
    {
        &self.events
    }

    /// The base URI followed by the decimal form of the id, for an
    /// existing token.
    pub fn token_uri(&self, token_id: Uint256) -> (r: Result<String, Erc721Error>)
        requires
            self.wf(),
        ensures
            self.token_exists(token_id.value()) ==> r is Ok && r->Ok_0@ == self.base_uri_view()
                + crate::evm::decimal(token_id.value()),
            !self.token_exists(token_id.value()) ==> r == Err::<String, Erc721Error>(
                Erc721Error::InvalidTokenId { token_id },
            ),
    {
        if !self.is_live(&token_id) {
            return Err(Erc721Error::InvalidTokenId { token_id });
        }
        let base = self.base_uri.clone();
        let id_str = token_id.to_decimal_string();
        Ok(base.concat(id_str.as_str()))
    }

    /// The number of tokens ever minted: burned tokens still count.
    pub fn total_supply(&self) -> (r: Uint256)
        requires
            self.wf(),
        ensures
            r.value() == self.next_id() - 1,
    {
        self.next_token_id.checked_sub(&Uint256::from_u128(1)).unwrap()
    }

    pub fn balance_of(&self, owner: Address) -> (r: Uint256)
        requires
            self.wf(),
        ensures
            r.value() == self.balance_at(owner),
    {
        self.get_balance(&owner)
    }

    pub fn owner_of(&self, token_id: Uint256) -> (r: Result<Address, Erc721Error>)
        requires
            self.wf(),
        ensures
            r == if self.token_exists(token_id.value()) {
                Ok::<Address, Erc721Error>(self.owner_at(token_id.value()))
            } else {
                Err(Erc721Error::InvalidTokenId { token_id })
            },
    {
        let owner = self.get_owner(&token_id);
        if owner.is_zero() {
            return Err(Erc721Error::InvalidTokenId { token_id });
        }
        Ok(owner)
    }

    pub fn get_approved(&self, token_id: Uint256) -> (r: Result<Address, Erc721Error>)
        requires
            self.wf(),
        ensures
            r == if self.token_exists(token_id.value()) {
                Ok::<Address, Erc721Error>(self.approved_at(token_id.value()))
            } else {
                Err(Erc721Error::InvalidTokenId { token_id })
            },
    {
        if !self.is_live(&token_id) {
            return Err(Erc721Error::InvalidTokenId { token_id });
        }
        Ok(self.get_approval(&token_id))
    }

    pub fn is_approved_for_all(&self, owner: Address, operator: Address) -> (r: bool)
        requires
            self.wf(),
        ensures
            r == self.operator_at(owner, operator),
    {
        self.get_operator(&owner, &operator)
    }

    /// Gives `operator` (or takes away) the right to act on every token of
    /// `caller`.
    pub fn set_approval_for_all(&mut self, caller: Address, operator: Address, approved: bool) -> (r: Result<bool, Erc721Error>)
        requires
            old(self).wf(),
        ensures
            final(self).wf(),
            r == Ok::<bool, Erc721Error>(true),
            forall|o: Address, p: Address| #[trigger]
                final(self).operator_at(o, p) == if o == caller && p == operator {
                    approved
                } else {
                    old(self).operator_at(o, p)
                },
            old(self).same_owners(*final(self)),
            old(self).same_balances(*final(self)),
            old(self).same_approvals(*final(self)),
            final(self).next_id() == old(self).next_id(),
            final(self).same_metadata(*old(self)),
            final(self).events_view() == old(self).events_view().push(
                Erc721Event::ApprovalForAll { owner: caller, operator, approved },
            ),
    {
        let ghost before = *self;
        self.operator_approvals.set(AddressPair { owner: caller, other: operator }, approved);
        self.events.push(Erc721Event::ApprovalForAll { owner: caller, operator, approved });
        proof {
            assert forall|id: nat| #[trigger] self.owner_at(id) == before.owner_at(id) by {}
            assert forall|a: Address| #[trigger] self.balance_at(a) == before.balance_at(a) by {}
            assert forall|id: nat| #[trigger] self.approved_at(id) == before.approved_at(id) by {}
            assert forall|a: Address| !a.is_null() implies #[trigger] self.balance_at(a) == self.count_owned(a, self.next_id()) by {
                Erc721::lemma_count_frame(before, *self, a, self.next_id());
            }
            assert forall|id: nat| #[trigger] self.token_exists(id) implies 1 <= id < self.next_id() by {
                assert(before.token_exists(id));
            }
        }
        Ok(true)
    }
}


impl Erc721 {
    /// Why minting to `to` is refused, if it is.
    pub open spec fn mint_error(self, to: Address) -> Option<Erc721Error> {
        if to.is_null() {
            Some(Erc721Error::MintToZeroAddress)
        } else if self.next_id() + 1 >= pow256() {
            Some(Erc721Error::TokenIdsExhausted)
        } else {
            None
        }
    }

    /// Creates the token with the next id, owned by `to`, and returns its id.
    pub fn mint(&mut self, to: Address) -> (r: Result<Uint256, Erc721Error>)
        requires
            old(self).wf(),
        ensures
            final(self).wf(),
            match old(self).mint_error(to) {
                Some(e) => r == Err::<Uint256, Erc721Error>(e) && *final(self) == *old(self),
                None => {
                    let id = old(self).next_id();
                    &&& r == Ok::<Uint256, Erc721Error>(Uint256::of(id))
                    &&& final(self).next_id() == id + 1
                    &&& old(self).owner_set(*final(self), id, to)
                    &&& old(self).balances_moved(*final(self), Address::null(), to)
                    &&& old(self).same_approvals(*final(self))
                    &&& old(self).same_operators(*final(self))
                    &&& final(self).same_metadata(*old(self))
                    &&& final(self).events_view() == old(self).events_view().push(
                        Erc721Event::Transfer { from: Address::null(), to, token_id: Uint256::of(id) },
                    )
                },
            },
    {
        proof {
            Address::lemma_null(Address::null());
            self.next_token_id.lemma_of_value();
            self.next_token_id.lemma_value_bounds();
        }
        if to.is_zero() {
            return Err(Erc721Error::MintToZeroAddress);
        }
        let token_id = self.next_token_id;
        let one = Uint256::from_u128(1);
        let following = match token_id.checked_add(&one) {
            Some(v) => v,
            None => {
                return Err(Erc721Error::TokenIdsExhausted);
            },
        };
        let ghost before = *self;
        let ghost n = token_id.value();
        let balance = self.get_balance(&to);
        proof {
            self.lemma_count_two(to, Address::null(), n);
        }
        let raised = balance.checked_add(&one).unwrap();
        self.put_owner(token_id, to);
        let ghost s1 = *self;
        self.next_token_id = following;
        self.put_balance(to, raised);
        let ghost s2 = *self;
        self.events.push(Erc721Event::Transfer { from: Address::zero(), to, token_id });
        proof {
            assert forall|id: nat| #[trigger] self.owner_at(id) == if id == n {
                to
            } else {
                before.owner_at(id)
            } by {
                assert(s1.owner_at(id) == self.owner_at(id));
            }
            assert forall|a: Address| #[trigger] self.balance_at(a) == if a == to {
                before.balance_at(a) + 1
            } else {
                before.balance_at(a)
            } by {
                assert(s2.balance_at(a) == self.balance_at(a));
            }
            assert forall|id: nat| #[trigger] self.token_exists(id) implies 1 <= id < self.next_id() by {
                if id != n {
                    assert(before.token_exists(id));
                }
            }
            assert forall|a: Address| !a.is_null() implies #[trigger] self.balance_at(a) == self.count_owned(a, self.next_id()) by {
                Erc721::lemma_count_frame(before, *self, a, n);
                assert(before.balance_at(a) == before.count_owned(a, n));
            }
            assert forall|o: Address, p: Address| #[trigger] self.operator_at(o, p) == before.operator_at(o, p) by {}
            assert forall|id: nat| #[trigger] self.approved_at(id) == before.approved_at(id) by {}
        }
        Ok(token_id)
    }

    /// Why `caller` may not burn token `id`, if so.
    pub open spec fn burn_error(self, caller: Address, token_id: Uint256) -> Option<Erc721Error> {
        if !self.token_exists(token_id.value()) {
            Some(Erc721Error::InvalidTokenId { token_id })
        } else if !self.is_authorized(caller, token_id.value()) {
            Some(Erc721Error::NotOwnerOrApproved { caller, token_id })
        } else {
            None
        }
    }

    /// Destroys token `token_id`: its owner and delegate are cleared and
    /// its owner's count goes down by one. The id is not handed out again.
    pub fn burn(&mut self, caller: Address, token_id: Uint256) -> (r: Result<bool, Erc721Error>)
        requires
            old(self).wf(),
        ensures
            final(self).wf(),
            match old(self).burn_error(caller, token_id) {
                Some(e) => r == Err::<bool, Erc721Error>(e) && *final(self) == *old(self),
                None => {
                    let id = token_id.value();
                    let owner = old(self).owner_at(id);
                    &&& r == Ok::<bool, Erc721Error>(true)
                    &&& old(self).owner_set(*final(self), id, Address::null())
                    &&& old(self).approval_set(*final(self), id, Address::null())
                    &&& old(self).balances_moved(*final(self), owner, Address::null())
                    &&& old(self).same_operators(*final(self))
                    &&& final(self).next_id() == old(self).next_id()
                    &&& final(self).same_metadata(*old(self))
                    &&& final(self).events_view() == old(self).events_view().push(
                        Erc721Event::Transfer { from: owner, to: Address::null(), token_id },
                    )
                },
            },
    {
        proof {
            Address::lemma_null(Address::null());
        }
        let owner = match self.owner_of(token_id) {
            Ok(o) => o,
            Err(e) => {
                return Err(e);
            },
        };
        if !self.is_approved_or_owner(&caller, &token_id) {
            return Err(Erc721Error::NotOwnerOrApproved { caller, token_id });
        }
        let ghost before = *self;
        let ghost n = self.next_id();
        let ghost t = token_id.value();
        self.put_approval(token_id, Address::zero());
        let ghost s1 = *self;
        let balance = self.get_balance(&owner);
        proof {
            before.lemma_count_positive(owner, n, t);
            assert(before.balance_at(owner) == before.count_owned(owner, n));
            assert(s1.balance_at(owner) == before.balance_at(owner));
        }
        let lowered = balance.checked_sub(&Uint256::from_u128(1)).unwrap();
        self.put_balance(owner, lowered);
        let ghost s2 = *self;
        self.put_owner(token_id, Address::zero());
        let ghost s3 = *self;
        self.events.push(Erc721Event::Transfer { from: owner, to: Address::zero(), token_id });
        proof {
            assert forall|id: nat| #[trigger] self.owner_at(id) == if id == t {
                Address::null()
            } else {
                before.owner_at(id)
            } by {
                assert(s3.owner_at(id) == self.owner_at(id));
                assert(s2.owner_at(id) == before.owner_at(id));
            }
            assert forall|id: nat| #[trigger] self.approved_at(id) == if id == t {
                Address::null()
            } else {
                before.approved_at(id)
            } by {
                assert(s1.approved_at(id) == self.approved_at(id));
            }
            assert forall|a: Address| #[trigger] self.balance_at(a) == if a == owner {
                before.balance_at(a) - 1
            } else {
                before.balance_at(a) as int
            } by {
                assert(s2.balance_at(a) == self.balance_at(a));
                assert(s1.balance_at(a) == before.balance_at(a));
            }
            assert forall|id: nat| #[trigger] self.token_exists(id) implies 1 <= id < self.next_id() by {
                assert(before.token_exists(id));
            }
            assert forall|a: Address| !a.is_null() implies #[trigger] self.balance_at(a) == self.count_owned(a, self.next_id()) by {
                Erc721::lemma_count_point(before, *self, a, n, t);
                assert(before.balance_at(a) == before.count_owned(a, n));
            }
            assert forall|o: Address, p: Address| #[trigger] self.operator_at(o, p) == before.operator_at(o, p) by {}
        }
        Ok(true)
    }

    /// Why `caller` may not move token `token_id` from `from` to `to`, if so.
    pub open spec fn transfer_error(self, caller: Address, from: Address, to: Address, token_id: Uint256) -> Option<Erc721Error> {
        if !self.is_authorized(caller, token_id.value()) {
            Some(Erc721Error::NotOwnerOrApproved { caller, token_id })
        } else if to.is_null() {
            Some(Erc721Error::TransferToZeroAddress)
        } else if self.owner_at(token_id.value()) != from {
            Some(Erc721Error::NotOwner { caller: from, token_id })
        } else {
            None
        }
    }

    /// Moves token `token_id` from `from` to `to` and clears its delegate.
    pub fn transfer_from(&mut self, caller: Address, from: Address, to: Address, token_id: Uint256) -> (r: Result<bool, Erc721Error>)
        requires
            old(self).wf(),
        ensures
            final(self).wf(),
            match old(self).transfer_error(caller, from, to, token_id) {
                Some(e) => r == Err::<bool, Erc721Error>(e) && *final(self) == *old(self),
                None => {
                    let id = token_id.value();
                    &&& r == Ok::<bool, Erc721Error>(true)
                    &&& old(self).owner_set(*final(self), id, to)
                    &&& old(self).approval_set(*final(self), id, Address::null())
                    &&& old(self).balances_moved(*final(self), from, to)
                    &&& old(self).same_operators(*final(self))
                    &&& final(self).next_id() == old(self).next_id()
                    &&& final(self).same_metadata(*old(self))
                    &&& final(self).events_view() == old(self).events_view().push(
                        Erc721Event::Transfer { from, to, token_id },
                    )
                },
            },
    {
        if !self.is_approved_or_owner(&caller, &token_id) {
            return Err(Erc721Error::NotOwnerOrApproved { caller, token_id });
        }
        if to.is_zero() {
            return Err(Erc721Error::TransferToZeroAddress);
        }
        let owner = self.get_owner(&token_id);
        if owner != from {
            return Err(Erc721Error::NotOwner { caller: from, token_id });
        }
        let ghost before = *self;
        let ghost n = self.next_id();
        let ghost t = token_id.value();
        self.put_approval(token_id, Address::zero());
        let ghost s1 = *self;
        let from_balance = self.get_balance(&from);
        proof {
            Address::lemma_null(Address::null());
            before.lemma_count_positive(from, n, t);
            if to != from {
                before.lemma_count_two(to, from, n);
            }
            before.lemma_count_two(from, Address::null(), n);
            before.next_token_id.lemma_value_bounds();
            assert(before.balance_at(from) == before.count_owned(from, n));
            assert(before.balance_at(to) == before.count_owned(to, n));
            assert(s1.balance_at(from) == before.balance_at(from));
            assert(s1.balance_at(to) == before.balance_at(to));
        }
        let lowered = from_balance.checked_sub(&Uint256::from_u128(1)).unwrap();
        self.put_balance(from, lowered);
        let ghost s2 = *self;
        let to_balance = self.get_balance(&to);
        let raised = to_balance.checked_add(&Uint256::from_u128(1)).unwrap();
        self.put_balance(to, raised);
        let ghost s3 = *self;
        self.put_owner(token_id, to);
        let ghost s4 = *self;
        self.events.push(Erc721Event::Transfer { from, to, token_id });
        proof {
            assert forall|id: nat| #[trigger] self.owner_at(id) == if id == t {
                to
            } else {
                before.owner_at(id)
            } by {
                assert(s4.owner_at(id) == self.owner_at(id));
                assert(s3.owner_at(id) == before.owner_at(id));
            }
            assert forall|id: nat| #[trigger] self.approved_at(id) == if id == t {
                Address::null()
            } else {
                before.approved_at(id)
            } by {
                assert(s1.approved_at(id) == self.approved_at(id));
            }
            assert forall|a: Address| #[trigger] self.balance_at(a) == before.balance_at(a) - (if a == from {
                1int
            } else {
                0int
            }) + (if a == to {
                1int
            } else {
                0int
            }) by {
                assert(s3.balance_at(a) == self.balance_at(a));
                assert(s2.balance_at(a) == if a == from {
                    before.balance_at(a) - 1
                } else {
                    before.balance_at(a) as int
                });
            }
            assert forall|id: nat| #[trigger] self.token_exists(id) implies 1 <= id < self.next_id() by {
                if id != t {
                    assert(before.token_exists(id));
                }
            }
            assert forall|a: Address| !a.is_null() implies #[trigger] self.balance_at(a) == self.count_owned(a, self.next_id()) by {
                Erc721::lemma_count_point(before, *self, a, n, t);
                assert(before.balance_at(a) == before.count_owned(a, n));
            }
            assert forall|o: Address, p: Address| #[trigger] self.operator_at(o, p) == before.operator_at(o, p) by {}
        }
        Ok(true)
    }

    /// The same as `transfer_from`: the receiver is not asked to accept.
    pub fn safe_transfer_from(&mut self, caller: Address, from: Address, to: Address, token_id: Uint256) -> (r: Result<bool, Erc721Error>)
        requires
            old(self).wf(),
        ensures
            final(self).wf(),
            match old(self).transfer_error(caller, from, to, token_id) {
                Some(e) => r == Err::<bool, Erc721Error>(e) && *final(self) == *old(self),
                None => {
                    let id = token_id.value();
                    &&& r == Ok::<bool, Erc721Error>(true)
                    &&& old(self).owner_set(*final(self), id, to)
                    &&& old(self).approval_set(*final(self), id, Address::null())
                    &&& old(self).balances_moved(*final(self), from, to)
                    &&& old(self).same_operators(*final(self))
                    &&& final(self).next_id() == old(self).next_id()
                    &&& final(self).same_metadata(*old(self))
                    &&& final(self).events_view() == old(self).events_view().push(
                        Erc721Event::Transfer { from, to, token_id },
                    )
                },
            },
    {
        self.transfer_from(caller, from, to, token_id)
    }

    /// Why `caller` may not set the delegate of token `token_id`, if so.
    pub open spec fn approve_error(self, caller: Address, token_id: Uint256) -> Option<Erc721Error> {
        let owner = self.owner_at(token_id.value());
        if !self.token_exists(token_id.value()) {
            Some(Erc721Error::InvalidTokenId { token_id })
        } else if caller != owner && !self.operator_at(owner, caller) {
            Some(Erc721Error::NotOwner { caller, token_id })
        } else {
            None
        }
    }

    /// Makes `to` the one delegate of token `token_id` (null: none).
    pub fn approve(&mut self, caller: Address, to: Address, token_id: Uint256) -> (r: Result<bool, Erc721Error>)
        requires
            old(self).wf(),
        ensures
            final(self).wf(),
            match old(self).approve_error(caller, token_id) {
                Some(e) => r == Err::<bool, Erc721Error>(e) && *final(self) == *old(self),
                None => {
                    &&& r == Ok::<bool, Erc721Error>(true)
                    &&& old(self).approval_set(*final(self), token_id.value(), to)
                    &&& old(self).same_owners(*final(self))
                    &&& old(self).same_balances(*final(self))
                    &&& old(self).same_operators(*final(self))
                    &&& final(self).next_id() == old(self).next_id()
                    &&& final(self).same_metadata(*old(self))
                    &&& final(self).events_view() == old(self).events_view().push(
                        Erc721Event::Approval { owner: old(self).owner_at(token_id.value()), approved: to, token_id },
                    )
                },
            },
    {
        let owner = match self.owner_of(token_id) {
            Ok(o) => o,
            Err(e) => {
                return Err(e);
            },
        };
        if caller != owner && !self.get_operator(&owner, &caller) {
            return Err(Erc721Error::NotOwner { caller, token_id });
        }
        let ghost before = *self;
        self.put_approval(token_id, to);
        let ghost s1 = *self;
        self.events.push(Erc721Event::Approval { owner, approved: to, token_id });
        proof {
            assert forall|id: nat| #[trigger] self.approved_at(id) == if id == token_id.value() {
                to
            } else {
                before.approved_at(id)
            } by {
                assert(s1.approved_at(id) == self.approved_at(id));
            }
            assert forall|id: nat| #[trigger] self.owner_at(id) == before.owner_at(id) by {}
            assert forall|a: Address| #[trigger] self.balance_at(a) == before.balance_at(a) by {}
            assert forall|o: Address, p: Address| #[trigger] self.operator_at(o, p) == before.operator_at(o, p) by {}
            assert forall|id: nat| #[trigger] self.token_exists(id) implies 1 <= id < self.next_id() by {
                assert(before.token_exists(id));
            }
            assert forall|a: Address| !a.is_null() implies #[trigger] self.balance_at(a) == self.count_owned(a, self.next_id()) by {
                Erc721::lemma_count_frame(before, *self, a, self.next_id());
            }
        }
        Ok(true)
    }
}

/// Ownership partition: on every well-formed ledger, which every operation
/// keeps well formed, each existing token has one owner and an id below the
/// next one to be minted, and each account's balance is the number of
/// tokens it owns.
pub proof fn lemma_ownership_partition(ledger: Erc721)
    requires
        ledger.wf(),
    ensures
        forall|id: nat| #[trigger] ledger.token_exists(id) ==> 1 <= id < ledger.next_id(),
        forall|a: Address| !a.is_null() ==> #[trigger] ledger.balance_at(a) == ledger.count_owned(a, ledger.next_id()),
{
}

/// Initializing twice leaves the collection as the first initialization
/// left it, whatever the arguments of the second.
pub proof fn lemma_initialize_idempotent(
    s0: Erc721,
    s1: Erc721,
    s2: Erc721,
    name1: Seq<char>,
    symbol1: Seq<char>,
    base_uri1: Seq<char>,
    creator1: Address,
    name2: Seq<char>,
    symbol2: Seq<char>,
    base_uri2: Seq<char>,
    creator2: Address,
)
    requires
        s0.initialize_post(s1, name1, symbol1, base_uri1, creator1),
        s1.initialize_post(s2, name2, symbol2, base_uri2, creator2),
    ensures
        s2 == s1,
        s1.is_initialized(),
{
}

} // verus!
