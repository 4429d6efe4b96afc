//! Factories that deploy independent, initialized ledger instances for any
//! caller, at addresses fixed by the factory, the implementation and the
//! instance's sequential id.
//!
//! A deployed instance is handed back to the caller, who installs it at the
//! returned address; the factory keeps only the registry.
use vstd::prelude::*;
use crate::address::Address;
use crate::erc20::{Erc20, Erc20Event};
use crate::erc721::Erc721;
use crate::registry::{predicted_address, FactoryError, Registry};
use crate::uint::Uint256;

verus! {

/// Reported when a collection is created.
#[derive(Debug, PartialEq, Eq)]
pub struct CollectionCreated {
    pub creator: Address,
    pub collection_address: Address,
    pub name: String,
    pub symbol: String,
    pub base_uri: String,
    pub collection_id: Uint256,
}

/// Reported when a fungible token is created.
#[derive(Debug, PartialEq, Eq)]
pub struct TokenCreated {
    pub creator: Address,
    pub token_address: Address,
    pub name: String,
    pub symbol: String,
    pub initial_supply: Uint256,
    pub token_id: Uint256,
}

/// A collection as it stands right after deployment: initialized with these
/// values, no token minted, nothing approved, nothing emitted.
pub open spec fn is_fresh_collection(
    c: Erc721,
    name: Seq<char>,
    symbol: Seq<char>,
    base_uri: Seq<char>,
    creator: Address,
) -> bool {
    &&& c.wf()
    &&& c.is_initialized()
    &&& c.name_view() == name
    &&& c.symbol_view() == symbol
    &&& c.base_uri_view() == base_uri
    &&& c.creator_view() == creator
    &&& c.next_id() == 1
    &&& forall|id: nat| !(#[trigger] c.token_exists(id))
    &&& forall|a: Address| #[trigger] c.balance_at(a) == 0
    &&& forall|id: nat| #[trigger] c.approved_at(id) == Address::null()
    &&& forall|o: Address, p: Address| !(#[trigger] c.operator_at(o, p))
    &&& c.events_view() == Seq::<crate::erc721::Erc721Event>::empty()
}

/// A fungible token as it stands right after deployment: initialized with
/// these values, the whole supply with `creator`, no allowance.
pub open spec fn is_fresh_token(
    t: Erc20,
    name: Seq<char>,
    symbol: Seq<char>,
    decimals: Uint256,
    initial_supply: Uint256,
    creator: Address,
) -> bool {
    &&& t.wf()
    &&& t.is_initialized()
    &&& t.name_view() == name
    &&& t.symbol_view() == symbol
    &&& t.decimals_view() == decimals.value()
    &&& t.supply() == initial_supply.value()
    &&& t.creator_view() == creator
    &&& forall|a: Address| #[trigger]
        t.balance_at(a) == if a == creator {
            initial_supply.value()
        } else {
            0
        }
    &&& forall|o: Address, s: Address| #[trigger] t.allowance_at(o, s) == 0
    &&& t.events_view() == seq![
        Erc20Event::Transfer { from: Address::null(), to: creator, value: initial_supply },
    ]
}

/// A factory of non-fungible collections.
pub struct NftFactory {
    registry: Registry,
    events: Vec<CollectionCreated>,
}

impl NftFactory {
    pub closed spec fn registry_view(self) -> Registry {
        self.registry
    }

    /// The creations reported so far, oldest first.
    pub closed spec fn events_view(self) -> Seq<CollectionCreated> {
        self.events@
    }

    pub open spec fn wf(self) -> bool {
        self.registry_view().wf()
    }

    /// A factory at address `address`, with no implementation configured.
    pub fn new(address: Address) -> (r: NftFactory)
        ensures
            r.wf(),
            r.registry_view().factory_view() == address,
            r.registry_view().implementation_view().is_null(),
            r.registry_view().count_view() == 0,
            forall|a: Address| !(#[trigger] r.registry_view().is_registered(a)),
            forall|c: Address| #[trigger] r.registry_view().latest_of(c) == Address::null(),
            r.events_view() == Seq::<CollectionCreated>::empty(),
    {
        NftFactory { registry: Registry::new(address), events: Vec::new() }
    }

    /// The registry of deployed collections.
    pub fn registry(&self) -> (r: &Registry)
        ensures
            *r == self.registry_view(),
    {
        &self.registry
    }

    /// The creations reported so far, oldest first.
    pub fn events(&self) -> (r: &Vec<CollectionCreated>)
        ensures
            r@ == self.events_view(),
    {
        &self.events
    }

    /// Configures the shared collection implementation, once.
    pub fn initialize(&mut self, implementation: Address) -> (r: Result<(), FactoryError>)
        requires
            old(self).wf(),
        ensures
            final(self).wf(),
            final(self).events_view() == old(self).events_view(),
            match old(self).registry_view().set_implementation_error(implementation) {
                Some(e) => r == Err::<(), FactoryError>(e) && *final(self) == *old(self),
                None => {
                    let (reg, next) = (old(self).registry_view(), final(self).registry_view());
                    &&& r is Ok
                    &&& next.implementation_view() == implementation
                    &&& next.factory_view() == reg.factory_view()
                    &&& next.count_view() == reg.count_view()
                    &&& reg.same_entries(next)
                },
            },
    {
        self.registry.set_implementation(implementation)
    }

    /// Deploys a new collection for `caller`, initialized with `caller` as
    /// its creator, records it, and returns its address and the instance.
    /// A failed deployment uses up its id and records nothing.
    pub fn create_collection(&mut self, caller: Address, name: String, symbol: String, base_uri: String) -> (r: Result<(Address, Erc721), FactoryError>)
        requires
            old(self).wf(),
        ensures
            final(self).wf(),
            ({
                let reg = old(self).registry_view();
                let n = reg.count_view();
                let a = predicted_address(reg.factory_view(), reg.implementation_view(), n);
                match reg.reserve_error() {
                    Some(FactoryError::DeploymentFailed) => {
                        &&& r == Err::<(Address, Erc721), FactoryError>(FactoryError::DeploymentFailed)
                        &&& reg.count_set(final(self).registry_view(), n + 1)
                        &&& final(self).events_view() == old(self).events_view()
                    },
                    Some(e) => r == Err::<(Address, Erc721), FactoryError>(e) && *final(self) == *old(self),
                    None => {
                        &&& r is Ok
                        &&& r->Ok_0.0 == a
                        &&& is_fresh_collection(r->Ok_0.1, name@, symbol@, base_uri@, caller)
                        &&& final(self).registry_view().count_view() == n + 1
                        &&& reg.recorded(final(self).registry_view(), n, a, caller)
                        &&& final(self).events_view().len() == old(self).events_view().len() + 1
                        &&& final(self).events_view().drop_last() == old(self).events_view()
                        &&& final(self).events_view().last().creator == caller
                        &&& final(self).events_view().last().collection_address == a
                        &&& final(self).events_view().last().name@ == name@
                        &&& final(self).events_view().last().symbol@ == symbol@
                        &&& final(self).events_view().last().base_uri@ == base_uri@
                        &&& final(self).events_view().last().collection_id == Uint256::of(n)
                    },
                }
            }),
    {
        let (id, address) = match self.registry.reserve() {
            Ok(slot) => slot,
            Err(e) => {
                return Err(e);
            },
        };
        let ghost reg = old(self).registry;
        proof {
            Uint256::lemma_of_nat(reg.count_view());
        }
        let mut collection = Erc721::new();
        let ghost c0 = collection;
        collection.initialize(name.clone(), symbol.clone(), base_uri.clone(), caller);
        proof {
            assert forall|id: nat| !(#[trigger] collection.token_exists(id)) by {
                assert(c0.owner_at(id) == collection.owner_at(id));
                assert(!c0.token_exists(id));
            }
            assert forall|a: Address| #[trigger] collection.balance_at(a) == 0 by {
                assert(c0.balance_at(a) == collection.balance_at(a));
            }
            assert forall|id: nat| #[trigger] collection.approved_at(id) == Address::null() by {
                assert(c0.approved_at(id) == collection.approved_at(id));
            }
            assert forall|o: Address, p: Address| !(#[trigger] collection.operator_at(o, p)) by {
                assert(c0.operator_at(o, p) == collection.operator_at(o, p));
            }
        }
        let ghost mid = self.registry;
        self.registry.record(id, address, caller);
        proof {
            Registry::lemma_recorded_after_count(reg, mid, self.registry, reg.count_view() + 1, id.value(), address, caller);
        }
        let ghost prior = self.events@;
        self.events.push(
            CollectionCreated {
                creator: caller,
                collection_address: address,
                name,
                symbol,
                base_uri,
                collection_id: id,
            },
        );
        assert(self.events@.drop_last() =~= prior);
        Ok((address, collection))
    }

    pub fn get_implementation(&self) -> (r: Address)
        ensures
            r == self.registry_view().implementation_view(),
    {
        self.registry.implementation()
    }

    /// How many collection ids have been handed out.
    pub fn get_collection_count(&self) -> (r: Uint256)
        ensures
            r.value() == self.registry_view().count_view(),
    {
        self.registry.count()
    }

    pub fn get_collection_by_id(&self, collection_id: Uint256) -> (r: Address)
        requires
            self.wf(),
        ensures
            r == self.registry_view().instance_at(collection_id.value()),
    {
        self.registry.instance_by_id(collection_id)
    }

    /// The collection that `creator` created last; null if none.
    pub fn get_collection_by_creator(&self, creator: Address) -> (r: Address)
        requires
            self.wf(),
        ensures
            r == self.registry_view().latest_of(creator),
    {
        self.registry.instance_by_creator(creator)
    }

    pub fn get_collection_id(&self, collection_address: Address) -> (r: Uint256)
        requires
            self.wf(),
        ensures
            r.value() == self.registry_view().id_of(collection_address),
    {
        self.registry.id_by_address(collection_address)
    }

    /// At most `count` collections from id `start` on, never past the count.
    pub fn get_collections(&self, start: Uint256, count: Uint256) -> (r: Vec<Address>)
        requires
            self.wf(),
        ensures
            r@.len() == self.registry_view().page_len(start.value(), count.value()),
            forall|k: int| 0 <= k < r@.len() ==> #[trigger] r@[k] == self.registry_view().instance_at((start.value() + k) as nat),
    {
        self.registry.instances(start, count)
    }
}


/// A factory of fungible tokens.
pub struct TokenFactory {
    registry: Registry,
    events: Vec<TokenCreated>,
}

impl TokenFactory {
    pub closed spec fn registry_view(self) -> Registry {
        self.registry
    }

    /// The creations reported so far, oldest first.
    pub closed spec fn events_view(self) -> Seq<TokenCreated> {
        self.events@
    }

    pub open spec fn wf(self) -> bool {
        self.registry_view().wf()
    }

    /// A factory at address `address`, with no implementation configured.
    pub fn new(address: Address) -> (r: TokenFactory)
        ensures
            r.wf(),
            r.registry_view().factory_view() == address,
            r.registry_view().implementation_view().is_null(),
            r.registry_view().count_view() == 0,
            forall|a: Address| !(#[trigger] r.registry_view().is_registered(a)),
            forall|c: Address| #[trigger] r.registry_view().latest_of(c) == Address::null(),
            r.events_view() == Seq::<TokenCreated>::empty(),
    {
        TokenFactory { registry: Registry::new(address), events: Vec::new() }
    }

    /// The registry of deployed tokens.
    pub fn registry(&self) -> (r: &Registry)
        ensures
            *r == self.registry_view(),
    {
        &self.registry
    }

    /// The creations reported so far, oldest first.
    pub fn events(&self) -> (r: &Vec<TokenCreated>)
        ensures
            r@ == self.events_view(),
    {
        &self.events
    }

    /// Configures the shared token implementation, once.
    pub fn initialize(&mut self, implementation: Address) -> (r: Result<(), FactoryError>)
        requires
            old(self).wf(),
        ensures
            final(self).wf(),
            final(self).events_view() == old(self).events_view(),
            match old(self).registry_view().set_implementation_error(implementation) {
                Some(e) => r == Err::<(), FactoryError>(e) && *final(self) == *old(self),
                None => {
                    let (reg, next) = (old(self).registry_view(), final(self).registry_view());
                    &&& r is Ok
                    &&& next.implementation_view() == implementation
                    &&& next.factory_view() == reg.factory_view()
                    &&& next.count_view() == reg.count_view()
                    &&& reg.same_entries(next)
                },
            },
    {
        self.registry.set_implementation(implementation)
    }

    /// Deploys a new token for `caller`, with the whole supply credited to
    /// `caller`, records it, and returns its address and the instance. A
    /// failed deployment uses up its id and records nothing.
    pub fn create_token(
        &mut self,
        caller: Address,
        name: String,
        symbol: String,
        decimals: Uint256,
        initial_supply: Uint256,
    ) -> (r: Result<(Address, Erc20), FactoryError>)
        requires
            old(self).wf(),
        ensures
            final(self).wf(),
            ({
                let reg = old(self).registry_view();
                let n = reg.count_view();
                let a = predicted_address(reg.factory_view(), reg.implementation_view(), n);
                match reg.reserve_error() {
                    Some(FactoryError::DeploymentFailed) => {
                        &&& r == Err::<(Address, Erc20), FactoryError>(FactoryError::DeploymentFailed)
                        &&& reg.count_set(final(self).registry_view(), n + 1)
                        &&& final(self).events_view() == old(self).events_view()
                    },
                    Some(e) => r == Err::<(Address, Erc20), FactoryError>(e) && *final(self) == *old(self),
                    None => {
                        &&& r is Ok
                        &&& r->Ok_0.0 == a
                        &&& is_fresh_token(r->Ok_0.1, name@, symbol@, decimals, initial_supply, caller)
                        &&& final(self).registry_view().count_view() == n + 1
                        &&& reg.recorded(final(self).registry_view(), n, a, caller)
                        &&& final(self).events_view().len() == old(self).events_view().len() + 1
                        &&& final(self).events_view().drop_last() == old(self).events_view()
                        &&& final(self).events_view().last().creator == caller
                        &&& final(self).events_view().last().token_address == a
                        &&& final(self).events_view().last().name@ == name@
                        &&& final(self).events_view().last().symbol@ == symbol@
                        &&& final(self).events_view().last().initial_supply == initial_supply
                        &&& final(self).events_view().last().token_id == Uint256::of(n)
                    },
                }
            }),
    {
        let (id, address) = match self.registry.reserve() {
            Ok(slot) => slot,
            Err(e) => {
                return Err(e);
            },
        };
        let ghost reg = old(self).registry;
        proof {
            Uint256::lemma_of_nat(reg.count_view());
        }
        let mut token = Erc20::new();
        let ghost t0 = token;
        token.initialize(name.clone(), symbol.clone(), decimals, initial_supply, caller);
        proof {
            assert forall|o: Address, s: Address| #[trigger] token.allowance_at(o, s) == 0 by {
                assert(t0.allowance_at(o, s) == token.allowance_at(o, s));
            }
            assert(token.events_view() =~= seq![
                Erc20Event::Transfer { from: Address::null(), to: caller, value: initial_supply },
            ]);
        }
        let ghost mid = self.registry;
        self.registry.record(id, address, caller);
        proof {
            Registry::lemma_recorded_after_count(reg, mid, self.registry, reg.count_view() + 1, id.value(), address, caller);
        }
        let ghost prior = self.events@;
        self.events.push(
            TokenCreated { creator: caller, token_address: address, name, symbol, initial_supply, token_id: id },
        );
        assert(self.events@.drop_last() =~= prior);
        Ok((address, token))
    }

    pub fn get_implementation(&self) -> (r: Address)
        ensures
            r == self.registry_view().implementation_view(),
    {
        self.registry.implementation()
    }

    /// How many token ids have been handed out.
    pub fn get_token_count(&self) -> (r: Uint256)
        ensures
            r.value() == self.registry_view().count_view(),
    {
        self.registry.count()
    }

    pub fn get_token_by_id(&self, token_id: Uint256) -> (r: Address)
        requires
            self.wf(),
        ensures
            r == self.registry_view().instance_at(token_id.value()),
    {
        self.registry.instance_by_id(token_id)
    }

    /// The token that `creator` created last; null if none.
    pub fn get_token_by_creator(&self, creator: Address) -> (r: Address)
        requires
            self.wf(),
        ensures
            r == self.registry_view().latest_of(creator),
    {
        self.registry.instance_by_creator(creator)
    }

    pub fn get_token_id(&self, token_address: Address) -> (r: Uint256)
        requires
            self.wf(),
        ensures
            r.value() == self.registry_view().id_of(token_address),
    {
        self.registry.id_by_address(token_address)
    }

    /// At most `count` tokens from id `start` on, never past the count.
    pub fn get_tokens(&self, start: Uint256, count: Uint256) -> (r: Vec<Address>)
        requires
            self.wf(),
        ensures
            r@.len() == self.registry_view().page_len(start.value(), count.value()),
            forall|k: int| 0 <= k < r@.len() ==> #[trigger] r@[k] == self.registry_view().instance_at((start.value() + k) as nat),
    {
        self.registry.instances(start, count)
    }
}

} // verus!
