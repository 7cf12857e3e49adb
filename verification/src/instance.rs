//! Instance target resolution: the creation-fixed record a component's
//! address derives, and the registry a routing pass reads targets from.
use std::sync::Arc;
use vstd::prelude::*;

use crate::address::{Address, CallTarget, ComponentAddr};
use crate::cache::share;
use crate::hash::Hash32;
use crate::metadata::PackageHash;
use crate::table::{bytes_precede, Table, TableKey};
use crate::term::same_bytes;
use crate::types::Value;

verus! {

/// Why a call target does not resolve to a method: the chain from an
/// address through its record and package to the named signature, broken
/// at the first absent link.
///
/// One vocabulary for every resolver: admission and routing walk the same
/// chain and refuse it identically.
#[derive(Debug, PartialEq, Eq)]
pub enum ResolveError {
    /// A call target with no registered instance.
    UnknownInstance(Address),
    /// An instance whose package is not in the metadata cache.
    UnknownPackage(PackageHash),
    /// A method the target package does not declare.
    UnknownMethod {
        /// The package consulted.
        package: PackageHash,
        /// The method requested.
        method: String,
    },
}

/// An instance's creation-fixed record: the package it runs, the
/// configuration it was created under, and the salt separating it from
/// every other instance of the same two.
///
/// A presented claim rather than trusted state. A component's address is
/// the hash of exactly these three, so a holder checks the record by
/// recomputing the address rather than by consulting a registry.
#[derive(Debug, PartialEq, Eq)]
pub struct InstanceMeta {
    /// The package the instance runs.
    pub package: PackageHash,
    /// The instance's creation-fixed configuration fields.
    pub config: Vec<Value>,
    /// The creating transaction's fresh id, which separates two instances
    /// made from one package under one configuration.
    pub salt: Hash32,
}

impl InstanceMeta {
    /// Whether a record that derives `derived` derives `address`: nothing
    /// where its configuration does not encode, and a component otherwise.
    pub open spec fn is_derived(derived: Option<ComponentAddr>, address: Address) -> bool {
        derived matches Some(component) && component.as_address() == address
    }

    /// Whether a record that derives `derived` derives `address`.
    ///
    /// The whole of certificate admission: the address commits the
    /// package, the configuration's bytes and the salt, so equality here is
    /// the verification and there is nothing else to consult. The question
    /// is total over every class: an address of any other one is an address
    /// no record derives.
    pub fn derives(derived: Option<ComponentAddr>, address: Address) -> (r: bool)
        ensures
            r == InstanceMeta::is_derived(derived, address),
    {
        match derived {
            Some(component) => component.address() == address,
            None => false,
        }
    }
}

/// A presented certificate that does not derive the address it claims.
#[derive(Clone, Copy, Debug, PartialEq, Eq, Structural)]
pub struct CertificateMismatch;

impl TableKey for Address {
    open spec fn ordinal(self) -> Seq<int> {
        crate::table::byte_ordinal(self.bytes())
    }

    fn precedes(&self, other: &Self) -> (r: bool) {
        let left = self.to_bytes();
        let right = other.to_bytes();
        bytes_precede(left.as_slice(), right.as_slice())
    }

    fn coincides(&self, other: &Self) -> (r: bool) {
        let left = self.to_bytes();
        let right = other.to_bytes();
        proof {
            crate::table::lemma_byte_ordinal(self.bytes(), other.bytes());
        }
        same_bytes(left.as_slice(), right.as_slice())
    }
}

/// Addresses are listed at one place exactly where they are one address.
proof fn lemma_address_ordinal(left: Address, right: Address)
    ensures
        (left.ordinal() == right.ordinal()) == (left == right),
{
    crate::table::lemma_byte_ordinal(left.bytes(), right.bytes());
    if left.bytes() == right.bytes() {
        assert(left.bytes().take(31) =~= left.body@);
        assert(right.bytes().take(31) =~= right.body@);
        assert(left.body =~= right.body);
        assert(left.bytes()[31] == left.class.number());
        assert(right.bytes()[31] == right.class.number());
    }
}

/// Addresses to the creation-fixed record each one derives.
///
/// A verified cache, not an authority: every entry was checked against the
/// address that keys it.
///
/// Principals are not entries. A principal address commits auth material
/// rather than code, and the code serving every principal is
/// protocol-defined, so one record answers for all of them.
#[derive(Debug)]
pub struct InstanceRegistry {
    principal: Option<Arc<InstanceMeta>>,
    instances: Table<Address, Arc<InstanceMeta>>,
}

impl Default for InstanceRegistry {
    fn default() -> (r: InstanceRegistry)
        ensures
            forall|target: CallTarget| #[trigger] r.serving(target) is None,
    {
        InstanceRegistry::new()
    }
}

impl InstanceRegistry {
    /// The record registered at an address.
    pub closed spec fn held(self, address: Address) -> Option<InstanceMeta> {
        match self.instances.under(address.ordinal()) {
            Some(record) => Some(*record),
            None => None,
        }
    }

    /// The record serving every principal, where one is bound.
    pub closed spec fn protocol_record(self) -> Option<InstanceMeta> {
        match self.principal {
            Some(record) => Some(*record),
            None => None,
        }
    }

    /// The record serving a call target: a principal's by its class alone,
    /// and an instance's by its address.
    pub open spec fn serving(self, target: CallTarget) -> Option<InstanceMeta> {
        match target {
            CallTarget::Principal(_) => self.protocol_record(),
            CallTarget::Component(address) => self.held(address.as_address()),
        }
    }

    /// An empty registry.
    pub fn new() -> (r: Self)
        ensures
            r.protocol_record() is None,
            forall|address: Address| #[trigger] r.held(address) is None,
    {
        InstanceRegistry { principal: None, instances: Table::new() }
    }

    /// Bind the package that serves every principal address.
    ///
    /// The protocol's own account blueprint, resolved by class rather than
    /// by certificate: a principal's address derives from a key, so there
    /// is no package hash in it to check a claim against.
    pub fn serve_principals(&mut self, package: PackageHash)
        ensures
            final(self).protocol_record() matches Some(record) && record.package == package
                && record.config@.len() == 0 && record.salt.0@ == Seq::new(32, |i: int| 0u8),
            forall|address: Address|
                #[trigger] final(self).held(address) == old(self).held(address),
    {
        let salt = Hash32([0u8;32]);
        assert(salt.0@ =~= Seq::new(32, |i: int| 0u8));
        self.principal = Some(Arc::new(InstanceMeta { package, config: Vec::new(), salt }));
    }

    /// Keep a record at an address, where none is kept there already: two
    /// records deriving one address is a hash collision, and the first
    /// stands either way.
    fn keep(&mut self, address: Address, meta: InstanceMeta)
        ensures
            final(self).protocol_record() == old(self).protocol_record(),
            final(self).held(address) == (match old(self).held(address) {
                Some(record) => Some(record),
                None => Some(meta),
            }),
            forall|other: Address|
                other != address ==> #[trigger] final(self).held(other) == old(self).held(other),
    {
        self.instances.insert_first(address, Arc::new(meta));
        proof {
            assert forall|other: Address| other != address implies self.instances.under(
                #[trigger] other.ordinal(),
            ) == old(self).instances.under(other.ordinal()) by {
                lemma_address_ordinal(other, address);
            }
        }
    }

    /// Admit a presented record for `address`, verifying that what it
    /// derives is that address.
    ///
    /// # Errors
    ///
    /// [`CertificateMismatch`] when the record derives some other address,
    /// or none: the refusal that replaces a lookup coming back empty.
    pub fn admit_record(
        &mut self,
        address: Address,
        meta: InstanceMeta,
        derived: Option<ComponentAddr>,
    ) -> (r: Result<(), CertificateMismatch>)
        ensures
            r is Ok == InstanceMeta::is_derived(derived, address),
            r is Err ==> *final(self) == *old(self),
            r is Ok ==> final(self).held(address) == (match old(self).held(address) {
                Some(record) => Some(record),
                None => Some(meta),
            }),
            forall|other: Address|
                other != address ==> #[trigger] final(self).held(other) == old(self).held(other),
            final(self).protocol_record() == old(self).protocol_record(),
    {
        if !InstanceMeta::derives(derived, address) {
            return Err(CertificateMismatch);
        }
        self.keep(address, meta);
        Ok(())
    }

    /// Admit a record at the address it derives, and answer that address.
    ///
    /// What creation does: an instance's address is a function of its
    /// package, its configuration and its salt, so the creator computes it
    /// rather than choosing one and recording the association.
    pub fn create(&mut self, meta: InstanceMeta, derived: ComponentAddr) -> (r: ComponentAddr)
        ensures
            r == derived,
            final(self).held(derived.as_address()) == (match old(self).held(
                derived.as_address(),
            ) {
                Some(record) => Some(record),
                None => Some(meta),
            }),
            forall|other: Address|
                other != derived.as_address() ==> #[trigger] final(self).held(other) == old(
                    self,
                ).held(other),
            final(self).protocol_record() == old(self).protocol_record(),
    {
        self.keep(derived.address(), meta);
        derived
    }

    /// Look up the creation-fixed record serving a call target.
    ///
    /// Both classes a target can carry are answered here and nothing else
    /// arrives.
    pub fn get(&self, target: CallTarget) -> (r: Option<&InstanceMeta>)
        ensures
            match r {
                Some(record) => self.serving(target) == Some(*record),
                None => self.serving(target) is None,
            },
    {
        match target {
            CallTarget::Principal(_) => match &self.principal {
                Some(record) => Some(&**record),
                None => None,
            },
            CallTarget::Component(address) => match self.instances.get(&address.address()) {
                Some(record) => Some(&**record),
                None => None,
            },
        }
    }

    /// The shared handle to the record serving a call target.
    pub fn record(&self, target: CallTarget) -> (r: Option<Arc<InstanceMeta>>)
        ensures
            match r {
                Some(record) => self.serving(target) == Some(*record),
                None => self.serving(target) is None,
            },
    {
        match target {
            CallTarget::Principal(_) => match &self.principal {
                Some(record) => Some(share(record)),
                None => None,
            },
            CallTarget::Component(address) => match self.instances.get(&address.address()) {
                Some(record) => Some(share(record)),
                None => None,
            },
        }
    }
}

/// Every principal resolves without an entry: whatever is registered, one
/// record answers for all of them.
pub proof fn law_one_record_serves_every_principal(
    registry: InstanceRegistry,
    one: CallTarget,
    other: CallTarget,
)
    requires
        one is Principal,
        other is Principal,
    ensures
        registry.serving(one) == registry.serving(other),
{
}

/// A record derives a component and nothing else: no address of another
/// class is one a record can be admitted at.
pub proof fn law_only_components_are_derived(derived: Option<ComponentAddr>, address: Address)
    ensures
        InstanceMeta::is_derived(derived, address) ==> address.class
            == crate::address::AddressClass::Component,
        InstanceMeta::is_derived(derived, address) ==> CallTarget::named_by(address) == Some(
            CallTarget::Component(derived->0),
        ),
{
}

} // verus!
