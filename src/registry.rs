//! The registry of a factory: which instance has which sequential id, which
//! address, and which creator, and where the next instance will be deployed.
use vstd::prelude::*;
use crate::address::Address;
use crate::evm::{be_bytes, create2_address, create2_of};
use crate::table::Table;
use crate::uint::{pow256, Uint256};

verus! {

/// The start of an EIP-1167 minimal proxy, up to the implementation address.
pub open spec fn proxy_prefix() -> Seq<u8> {
    seq![0x36u8, 0x3du8, 0x3du8, 0x37u8, 0x3du8, 0x3du8, 0x3du8, 0x36u8, 0x3du8, 0x73u8]
}

/// The end of an EIP-1167 minimal proxy, after the implementation address.
pub open spec fn proxy_suffix() -> Seq<u8> {
    seq![
        0x5au8, 0xf4u8, 0x3du8, 0x82u8, 0x80u8, 0x3eu8, 0x90u8, 0x3du8,
        0x91u8, 0x60u8, 0x2bu8, 0x57u8, 0xfdu8, 0x5bu8, 0xf3u8,
    ]
}

/// The code of a minimal proxy that delegates every call to `implementation`.
pub open spec fn proxy_code(implementation: Seq<u8>) -> Seq<u8> {
    proxy_prefix() + implementation + proxy_suffix()
}

/// `a` is where instance `id` lands: the CREATE2 address for `factory`,
/// the 32-byte big-endian id as salt, and a proxy to `implementation`.
pub open spec fn is_instance_address(a: Address, factory: Address, implementation: Address, id: nat) -> bool {
    a.0@ == create2_of(factory.0@, be_bytes(id, 32), proxy_code(implementation.0@))
}

/// Why a factory operation was refused; the factory is then unchanged,
/// except that a refused deployment still uses up its id.
#[derive(Clone, Copy, Debug, PartialEq, Eq)]
pub enum FactoryError {
    AlreadyInitialized,
    InvalidImplementation,
    DeploymentFailed,
    /// Every instance id below 2^256 - 1 has been used.
    InstanceIdsExhausted,
}

/// Appends the bytes of `src` to `v`.
fn extend_from(v: &mut Vec<u8>, src: &[u8])
    ensures
        final(v)@ == old(v)@ + src@,
{
    let mut i: usize = 0;
    while i < src.len()
        invariant
            0 <= i <= src@.len(),
            v@ == old(v)@ + src@.subrange(0, i as int),
        decreases src@.len() - i,
    {
        v.push(src[i]);
        i = i + 1;
        assert(src@.subrange(0, i as int) =~= src@.subrange(0, (i - 1) as int).push(src@[(i - 1) as int]));
    }
    assert(src@.subrange(0, src@.len() as int) =~= src@);
}

/// The code of a minimal proxy to `implementation`.
pub fn clone_code(implementation: &Address) -> (r: Vec<u8>)
    ensures
        r@ == proxy_code(implementation.0@),
{
    let prefix: [u8; 10] = [0x36, 0x3d, 0x3d, 0x37, 0x3d, 0x3d, 0x3d, 0x36, 0x3d, 0x73];
    let suffix: [u8; 15] = [0x5a, 0xf4, 0x3d, 0x82, 0x80, 0x3e, 0x90, 0x3d, 0x91, 0x60, 0x2b, 0x57, 0xfd, 0x5b, 0xf3];
    assert(prefix@ =~= proxy_prefix());
    assert(suffix@ =~= proxy_suffix());
    let mut code: Vec<u8> = Vec::new();
    extend_from(&mut code, prefix.as_slice());
    extend_from(&mut code, implementation.0.as_slice());
    extend_from(&mut code, suffix.as_slice());
    assert(code@ =~= proxy_code(implementation.0@));
    code
}

/// The address where instance `id` lands (see `is_instance_address`).
pub open spec fn predicted_address(factory: Address, implementation: Address, id: nat) -> Address {
    choose|a: Address| is_instance_address(a, factory, implementation, id)
}

/// Where instance `id` of `factory` with `implementation` is deployed.
pub fn instance_address(factory: &Address, implementation: &Address, id: &Uint256) -> (r: Address)
    ensures
        is_instance_address(r, *factory, *implementation, id.value()),
        r == predicted_address(*factory, *implementation, id.value()),
{
    let salt = id.to_be_bytes();
    let code = clone_code(implementation);
    let r = create2_address(factory, &salt, &code);
    proof {
        let p = predicted_address(*factory, *implementation, id.value());
        lemma_address_deterministic(r, p, *factory, *implementation, id.value());
    }
    r
}

/// The same factory, implementation and id give the same address.
pub proof fn lemma_address_deterministic(a: Address, b: Address, factory: Address, implementation: Address, id: nat)
    requires
        is_instance_address(a, factory, implementation, id),
        is_instance_address(b, factory, implementation, id),
    ensures
        a == b,
{
    assert(a.0 =~= b.0);
}


/// The registry of one factory.
pub struct Registry {
    factory: Address,
    implementation: Address,
    count: Uint256,
    by_id: Table<Uint256, Address>,
    by_address: Table<Address, Uint256>,
    by_creator: Table<Address, Address>,
}

impl Registry {
    /// The factory's own address, the deployer of every instance.
    pub closed spec fn factory_view(self) -> Address {
        self.factory
    }

    /// The shared implementation; null until configured.
    pub closed spec fn implementation_view(self) -> Address {
        self.implementation
    }

    /// How many ids have been handed out, deployed or not.
    pub closed spec fn count_view(self) -> nat {
        self.count.value()
    }

    /// Whether an instance was deployed under id `id`.
    pub closed spec fn has_id(self, id: nat) -> bool {
        id < pow256() && self.by_id@.contains_key(Uint256::of(id))
    }

    /// The instance deployed under id `id`; null if none.
    pub closed spec fn instance_at(self, id: nat) -> Address {
        if self.has_id(id) {
            self.by_id@[Uint256::of(id)]
        } else {
            Address::null()
        }
    }

    pub closed spec fn is_registered(self, a: Address) -> bool {
        self.by_address@.contains_key(a)
    }

    /// The id of the instance at `a`; zero if none.
    pub closed spec fn id_of(self, a: Address) -> nat {
        if self.is_registered(a) {
            self.by_address@[a].value()
        } else {
            0
        }
    }

    /// The instance that `creator` created last; null if none.
    pub closed spec fn latest_of(self, creator: Address) -> Address {
        if self.by_creator@.contains_key(creator) {
            self.by_creator@[creator]
        } else {
            Address::null()
        }
    }

    /// Every id in use is below the count and names one registered address,
    /// which names it back and is where that id's instance lands; creators
    /// point at registered instances; nothing is deployed before an
    /// implementation is configured.
    pub closed spec fn wf(self) -> bool {
        &&& self.by_id.wf()
        &&& self.by_address.wf()
        &&& self.by_creator.wf()
        &&& forall|id: nat| #[trigger]
            self.has_id(id) ==> {
                &&& id < self.count_view()
                &&& self.is_registered(self.instance_at(id))
                &&& self.id_of(self.instance_at(id)) == id
                &&& is_instance_address(self.instance_at(id), self.factory, self.implementation, id)
            }
        &&& forall|a: Address| #[trigger]
            self.is_registered(a) ==> self.has_id(self.id_of(a)) && self.instance_at(self.id_of(a)) == a
        &&& forall|c: Address| #[trigger]
            self.by_creator@.contains_key(c) ==> self.is_registered(self.by_creator@[c])
        &&& self.implementation.is_null() ==> self.count_view() == 0
    }

    /// Each deployed id is below the count and names one address, which
    /// names the id back; each registered address is named by its id.
    pub proof fn lemma_ids_and_addresses_agree(self)
        requires
            self.wf(),
        ensures
            forall|id: nat| #[trigger]
                self.has_id(id) ==> id < self.count_view() && self.is_registered(self.instance_at(id))
                    && self.id_of(self.instance_at(id)) == id,
            forall|a: Address| #[trigger]
                self.is_registered(a) ==> self.has_id(self.id_of(a)) && self.instance_at(self.id_of(a)) == a,
    {
    }

    /// Every registered address is where its id's instance lands.
    pub proof fn lemma_registered_addresses(self)
        requires
            self.wf(),
        ensures
            forall|a: Address| #[trigger]
                self.is_registered(a) ==> a == predicted_address(
                    self.factory_view(),
                    self.implementation_view(),
                    self.id_of(a),
                ),
    {
        assert forall|a: Address| #[trigger] self.is_registered(a) implies a == predicted_address(
            self.factory_view(),
            self.implementation_view(),
            self.id_of(a),
        ) by {
            let id = self.id_of(a);
            assert(self.has_id(id));
            let p = predicted_address(self.factory, self.implementation, id);
            lemma_address_deterministic(a, p, self.factory, self.implementation, id);
        }
    }

    /// Both record the same instances, ids and creators.
    pub open spec fn same_entries(self, other: Registry) -> bool {
        &&& forall|n: nat|
            #![trigger self.has_id(n)]
            #![trigger other.has_id(n)]
            other.has_id(n) == self.has_id(n)
        &&& forall|n: nat|
            #![trigger self.instance_at(n)]
            #![trigger other.instance_at(n)]
            other.instance_at(n) == self.instance_at(n)
        &&& forall|a: Address|
            #![trigger self.is_registered(a)]
            #![trigger other.is_registered(a)]
            other.is_registered(a) == self.is_registered(a)
        &&& forall|a: Address|
            #![trigger self.id_of(a)]
            #![trigger other.id_of(a)]
            other.id_of(a) == self.id_of(a)
        &&& forall|c: Address|
            #![trigger self.latest_of(c)]
            #![trigger other.latest_of(c)]
            other.latest_of(c) == self.latest_of(c)
    }

    /// `other` is `self` with the count set to `count`.
    pub open spec fn count_set(self, other: Registry, count: nat) -> bool {
        &&& other.factory_view() == self.factory_view()
        &&& other.implementation_view() == self.implementation_view()
        &&& other.count_view() == count
        &&& self.same_entries(other)
    }

    /// An empty registry for the factory at `factory`, with no
    /// implementation configured.
    pub fn new(factory: Address) -> (r: Registry)
        ensures
            r.wf(),
            r.factory_view() == factory,
            r.implementation_view().is_null(),
            r.count_view() == 0,
            forall|a: Address| !(#[trigger] r.is_registered(a)),
            forall|c: Address| #[trigger] r.latest_of(c) == Address::null(),
    {
        Registry {
            factory,
            implementation: Address::zero(),
            count: Uint256::zero(),
            by_id: Table::new(),
            by_address: Table::new(),
            by_creator: Table::new(),
        }
    }

    /// Why configuring `implementation` is refused, if it is.
    pub open spec fn set_implementation_error(self, implementation: Address) -> Option<FactoryError> {
        if !self.implementation_view().is_null() {
            Some(FactoryError::AlreadyInitialized)
        } else if implementation.is_null() {
            Some(FactoryError::InvalidImplementation)
        } else {
            None
        }
    }

    /// Configures the shared implementation, once.
    pub fn set_implementation(&mut self, implementation: Address) -> (r: Result<(), FactoryError>)
        requires
            old(self).wf(),
        ensures
            final(self).wf(),
            match old(self).set_implementation_error(implementation) {
                Some(e) => r == Err::<(), FactoryError>(e) && *final(self) == *old(self),
                None => {
                    &&& r is Ok
                    &&& final(self).implementation_view() == implementation
                    &&& final(self).factory_view() == old(self).factory_view()
                    &&& final(self).count_view() == old(self).count_view()
                    &&& old(self).same_entries(*final(self))
                },
            },
    {
        if !self.implementation.is_zero() {
            return Err(FactoryError::AlreadyInitialized);
        }
        if implementation.is_zero() {
            return Err(FactoryError::InvalidImplementation);
        }
        let ghost before = *self;
        self.implementation = implementation;
        proof {
            assert forall|a: Address| #[trigger] before.is_registered(a) implies false by {
                assert(before.has_id(before.id_of(a)));
            }
            assert forall|id: nat| #[trigger] self.has_id(id) implies false by {
                assert(before.has_id(id));
            }
            assert forall|a: Address| #[trigger] self.is_registered(a) implies false by {
                assert(before.is_registered(a));
            }
            assert forall|c: Address| #[trigger] self.by_creator@.contains_key(c) implies self.is_registered(
                self.by_creator@[c],
            ) by {
                assert(before.is_registered(before.by_creator@[c]));
            }
        }
        Ok(())
    }

    pub fn implementation(&self) -> (r: Address)
        ensures
            r == self.implementation_view(),
    {
        self.implementation
    }

    pub fn factory(&self) -> (r: Address)
        ensures
            r == self.factory_view(),
    {
        self.factory
    }

    pub fn count(&self) -> (r: Uint256)
        ensures
            r.value() == self.count_view(),
    {
        self.count
    }

    pub fn instance_by_id(&self, id: Uint256) -> (r: Address)
        requires
            self.wf(),
        ensures
            r == self.instance_at(id.value()),
    {
        proof {
            id.lemma_of_value();
            id.lemma_value_bounds();
        }
        match self.by_id.get(&id) {
            Some(a) => a,
            None => Address::zero(),
        }
    }

    pub fn id_by_address(&self, a: Address) -> (r: Uint256)
        requires
            self.wf(),
        ensures
            r.value() == self.id_of(a),
    {
        match self.by_address.get(&a) {
            Some(id) => id,
            None => Uint256::zero(),
        }
    }

    pub fn instance_by_creator(&self, creator: Address) -> (r: Address)
        requires
            self.wf(),
        ensures
            r == self.latest_of(creator),
    {
        match self.by_creator.get(&creator) {
            Some(a) => a,
            None => Address::zero(),
        }
    }
}


impl Registry {
    /// Why no id and address can be reserved, if so. A deployment that
    /// fails still uses up its id.
    pub open spec fn reserve_error(self) -> Option<FactoryError> {
        let n = self.count_view();
        if self.implementation_view().is_null() {
            Some(FactoryError::InvalidImplementation)
        } else if n + 1 >= pow256() {
            Some(FactoryError::InstanceIdsExhausted)
        } else if self.is_registered(predicted_address(self.factory_view(), self.implementation_view(), n)) {
            Some(FactoryError::DeploymentFailed)
        } else {
            None
        }
    }

    /// Hands out the next id and the address its instance will have. The
    /// count goes up unless the implementation is missing or the ids are
    /// exhausted; the deployment fails if that address is already taken.
    pub fn reserve(&mut self) -> (r: Result<(Uint256, Address), FactoryError>)
        requires
            old(self).wf(),
        ensures
            final(self).wf(),
            ({
                let n = old(self).count_view();
                match old(self).reserve_error() {
                    Some(FactoryError::DeploymentFailed) => {
                        &&& r == Err::<(Uint256, Address), FactoryError>(FactoryError::DeploymentFailed)
                        &&& old(self).count_set(*final(self), n + 1)
                    },
                    Some(e) => r == Err::<(Uint256, Address), FactoryError>(e) && *final(self) == *old(self),
                    None => {
                        &&& r == Ok::<(Uint256, Address), FactoryError>(
                            (
                                Uint256::of(n),
                                predicted_address(old(self).factory_view(), old(self).implementation_view(), n),
                            ),
                        )
                        &&& old(self).count_set(*final(self), n + 1)
                        &&& is_instance_address(
                            r->Ok_0.1,
                            final(self).factory_view(),
                            final(self).implementation_view(),
                            n,
                        )
                        &&& !final(self).has_id(n)
                        &&& !final(self).is_registered(r->Ok_0.1)
                    },
                }
            }),
    {
        if self.implementation.is_zero() {
            return Err(FactoryError::InvalidImplementation);
        }
        let id = self.count;
        proof {
            id.lemma_of_value();
        }
        let following = match id.checked_add(&Uint256::from_u128(1)) {
            Some(v) => v,
            None => {
                return Err(FactoryError::InstanceIdsExhausted);
            },
        };
        let ghost before = *self;
        proof {
            following.lemma_of_value();
            assert(!before.has_id(id.value()));
            Uint256::lemma_of_nat(id.value() + 1);
        }
        self.count = following;
        let address = instance_address(&self.factory, &self.implementation, &id);
        proof {
            assert forall|n: nat| #[trigger] self.has_id(n) implies {
                &&& n < self.count_view()
                &&& self.is_registered(self.instance_at(n))
                &&& self.id_of(self.instance_at(n)) == n
                &&& is_instance_address(self.instance_at(n), self.factory, self.implementation, n)
            } by {
                assert(before.has_id(n));
            }
            assert forall|a: Address| #[trigger] self.is_registered(a) implies self.has_id(self.id_of(a))
                && self.instance_at(self.id_of(a)) == a by {
                assert(before.is_registered(a));
            }
            assert forall|c: Address| #[trigger] self.by_creator@.contains_key(c) implies self.is_registered(
                self.by_creator@[c],
            ) by {
                assert(before.by_creator@.contains_key(c));
            }
        }
        match self.by_address.get(&address) {
            Some(_) => Err(FactoryError::DeploymentFailed),
            None => Ok((id, address)),
        }
    }

    /// `next` is `self` with the instance at `a`, id `id`, recorded as the
    /// latest of `creator`; everything else as it was.
    pub open spec fn recorded(self, next: Registry, id: nat, a: Address, creator: Address) -> bool {
        &&& next.factory_view() == self.factory_view()
        &&& next.implementation_view() == self.implementation_view()
        &&& forall|n: nat| #[trigger] next.has_id(n) == (n == id || self.has_id(n))
        &&& forall|n: nat| #[trigger]
            next.instance_at(n) == if n == id {
                a
            } else {
                self.instance_at(n)
            }
        &&& forall|b: Address| #[trigger] next.is_registered(b) == (b == a || self.is_registered(b))
        &&& forall|b: Address| #[trigger]
            next.id_of(b) == if b == a {
                id
            } else {
                self.id_of(b)
            }
        &&& forall|c: Address| #[trigger]
            next.latest_of(c) == if c == creator {
                a
            } else {
                self.latest_of(c)
            }
    }

    /// Recording after a change of count is recording on the registry as it
    /// was before.
    pub proof fn lemma_recorded_after_count(r0: Registry, r1: Registry, r2: Registry, k: nat, id: nat, a: Address, c: Address)
        requires
            r0.count_set(r1, k),
            r1.recorded(r2, id, a, c),
        ensures
            r0.recorded(r2, id, a, c),
    {
        assert forall|n: nat| #[trigger] r2.has_id(n) == (n == id || r0.has_id(n)) by {
            assert(r1.has_id(n) == r0.has_id(n));
        }
        assert forall|n: nat| #[trigger] r2.instance_at(n) == if n == id {
            a
        } else {
            r0.instance_at(n)
        } by {
            assert(r1.instance_at(n) == r0.instance_at(n));
        }
        assert forall|b: Address| #[trigger] r2.is_registered(b) == (b == a || r0.is_registered(b)) by {
            assert(r1.is_registered(b) == r0.is_registered(b));
        }
        assert forall|b: Address| #[trigger] r2.id_of(b) == if b == a {
            id
        } else {
            r0.id_of(b)
        } by {
            assert(r1.id_of(b) == r0.id_of(b));
        }
        assert forall|x: Address| #[trigger] r2.latest_of(x) == if x == c {
            a
        } else {
            r0.latest_of(x)
        } by {
            assert(r1.latest_of(x) == r0.latest_of(x));
        }
    }

    /// Records the instance deployed at `a` under the reserved id `id`.
    pub fn record(&mut self, id: Uint256, a: Address, creator: Address)
        requires
            old(self).wf(),
            id.value() < old(self).count_view(),
            !old(self).has_id(id.value()),
            !old(self).is_registered(a),
            is_instance_address(a, old(self).factory_view(), old(self).implementation_view(), id.value()),
        ensures
            final(self).wf(),
            final(self).count_view() == old(self).count_view(),
            old(self).recorded(*final(self), id.value(), a, creator),
    {
        let ghost before = *self;
        self.by_id.set(id, a);
        self.by_address.set(a, id);
        self.by_creator.set(creator, a);
        proof {
            id.lemma_of_value();
            id.lemma_value_bounds();
            let t = id.value();
            assert forall|n: nat| #[trigger] self.has_id(n) == (n == t || before.has_id(n)) by {
                if n < pow256() {
                    Uint256::lemma_of_nat(n);
                }
            }
            assert forall|n: nat| #[trigger]
                self.instance_at(n) == if n == t {
                    a
                } else {
                    before.instance_at(n)
                } by {
                if n < pow256() {
                    Uint256::lemma_of_nat(n);
                }
            }
            assert forall|b: Address| #[trigger]
                self.id_of(b) == if b == a {
                    t
                } else {
                    before.id_of(b)
                } by {}
            assert forall|n: nat| #[trigger] self.has_id(n) implies {
                &&& n < self.count_view()
                &&& self.is_registered(self.instance_at(n))
                &&& self.id_of(self.instance_at(n)) == n
                &&& is_instance_address(self.instance_at(n), self.factory, self.implementation, n)
            } by {
                if n != t {
                    assert(before.has_id(n));
                    assert(before.is_registered(before.instance_at(n)));
                    assert(self.instance_at(n) == before.instance_at(n));
                    assert(self.id_of(before.instance_at(n)) == before.id_of(before.instance_at(n)));
                }
            }
            assert forall|b: Address| #[trigger] self.is_registered(b) implies self.has_id(self.id_of(b))
                && self.instance_at(self.id_of(b)) == b by {
                if b != a {
                    assert(before.is_registered(b));
                    let k = before.id_of(b);
                    assert(before.has_id(k));
                    assert(self.has_id(k));
                    assert(self.instance_at(k) == before.instance_at(k));
                }
            }
            assert forall|c: Address| #[trigger] self.by_creator@.contains_key(c) implies self.is_registered(
                self.by_creator@[c],
            ) by {
                if c != creator {
                    assert(before.by_creator@.contains_key(c));
                }
            }
        }
    }

    /// How many ids `instances(start, count)` lists.
    pub open spec fn page_len(self, start: nat, count: nat) -> nat {
        if start >= self.count_view() {
            0
        } else if count < self.count_view() - start {
            count
        } else {
            (self.count_view() - start) as nat
        }
    }

    /// A page never holds more than `count` ids, never reaches past the
    /// count of the registry, and is empty from the count on.
    pub proof fn lemma_page_bounds(self, start: nat, count: nat)
        ensures
            self.page_len(start, count) <= count,
            start >= self.count_view() ==> self.page_len(start, count) == 0,
            start + self.page_len(start, count) <= self.count_view() || self.page_len(start, count) == 0,
    {
    }

    /// The instances under ids `start`, `start + 1`, ... up to `count` of
    /// them and never past the count (null where a deployment failed).
    pub fn instances(&self, start: Uint256, count: Uint256) -> (r: Vec<Address>)
        requires
            self.wf(),
        ensures
            r@.len() == self.page_len(start.value(), count.value()),
            r@.len() <= count.value(),
            start.value() >= self.count_view() ==> r@.len() == 0,
            start.value() < self.count_view() ==> start.value() + r@.len() <= self.count_view(),
            forall|k: int| 0 <= k < r@.len() ==> #[trigger] r@[k] == self.instance_at((start.value() + k) as nat),
    {
        let mut page: Vec<Address> = Vec::new();
        if !start.lt(&self.count) {
            return page;
        }
        let remaining = self.count.checked_sub(&start).unwrap();
        let n = if count.lt(&remaining) {
            count
        } else {
            remaining
        };
        proof {
            self.count.lemma_value_bounds();
        }
        let end = start.checked_add(&n).unwrap();
        let one = Uint256::from_u128(1);
        let mut i = start;
        while i.lt(&end)
            invariant
                self.wf(),
                start.value() <= i.value() <= end.value(),
                end.value() == start.value() + n.value(),
                end.value() <= self.count_view(),
                self.count_view() < pow256(),
                one.value() == 1,
                page@.len() == i.value() - start.value(),
                forall|k: int| 0 <= k < page@.len() ==> #[trigger] page@[k] == self.instance_at((start.value() + k) as nat),
            decreases end.value() - i.value(),
        {
            page.push(self.instance_by_id(i));
            i = i.checked_add(&one).unwrap();
        }
        page
    }
}

} // verus!
