//! Addresses, and what an address of each class names.
use vstd::array::array_as_slice;
use vstd::prelude::*;

use crate::term::{copy_bytes, same_bytes, Term};

verus! {

/// What an address names, which is what may be done with it.
#[derive(Clone, Copy, Debug, PartialEq, Eq, Structural)]
pub enum AddressClass {
    /// An account, committed to by a key.
    Principal,
    /// A component, committed to by the record it was created under.
    Component,
    /// A published package.
    Package,
    /// A resource nothing can stop a movement of.
    Resource,
    /// A resource carrying an entry that can stop a movement of it.
    Restricted,
    /// A role the protocol itself plays.
    Native,
}

impl AddressClass {
    /// The class as the byte an address carries it in.
    pub open spec fn number(self) -> u8 {
        match self {
            AddressClass::Principal => 0,
            AddressClass::Component => 1,
            AddressClass::Package => 2,
            AddressClass::Resource => 3,
            AddressClass::Restricted => 4,
            AddressClass::Native => 5,
        }
    }

    /// The class as the byte an address carries it in.
    pub fn byte(self) -> (r: u8)
        ensures
            r == self.number(),
    {
        match self {
            AddressClass::Principal => 0,
            AddressClass::Component => 1,
            AddressClass::Package => 2,
            AddressClass::Resource => 3,
            AddressClass::Restricted => 4,
            AddressClass::Native => 5,
        }
    }
}

/// An address: thirty-one bytes, and the class they are read under.
#[derive(Clone, Copy, Debug, Eq)]
pub struct Address {
    /// The bytes that tell it from every other address of its class.
    pub body: [u8; 31],
    /// What it names.
    pub class: AddressClass,
}

impl Address {
    /// The address `body` names within `class`.
    pub fn new(body: [u8; 31], class: AddressClass) -> (r: Self)
        ensures
            r.body == body,
            r.class == class,
    {
        Address { body, class }
    }

    /// What the address names.
    pub fn class(&self) -> (r: AddressClass)
        ensures
            r == self.class,
    {
        self.class
    }

    /// The address as bytes: the body, then the class.
    pub open spec fn bytes(self) -> Seq<u8> {
        self.body@.push(self.class.number())
    }

    /// The address as bytes: the body, then the class.
    pub fn to_bytes(&self) -> (r: Vec<u8>)
        ensures
            r@ == self.bytes(),
    {
        let mut r: Vec<u8> = copy_bytes(array_as_slice(&self.body));
        r.push(self.class.byte());
        r
    }

    /// The address as a term.
    pub open spec fn term(self) -> Term {
        Term::Node(
            4,
            seq![Term::Bytes(0, self.body@), Term::Scalar(0, self.class.number() as int)],
        )
    }

    /// Two addresses are one address exactly where their terms are equal.
    pub proof fn lemma_term(self, other: Address)
        ensures
            (self.term() == other.term()) == (self == other),
    {
        Term::lemma_two(
            Term::Bytes(0, self.body@),
            Term::Scalar(0, self.class.number() as int),
            Term::Bytes(0, other.body@),
            Term::Scalar(0, other.class.number() as int),
        );
        if self.term() == other.term() {
            assert(self.body =~= other.body);
            assert(self.class == other.class);
        }
    }
}

impl PartialEq for Address {
    fn eq(&self, other: &Self) -> (r: bool) {
        let r = same_bytes(array_as_slice(&self.body), array_as_slice(&other.body))
            && self.class == other.class;
        proof {
            if self.body@ == other.body@ {
                assert(self.body =~= other.body);
            }
        }
        r
    }
}

impl vstd::std_specs::cmp::PartialEqSpecImpl for Address {
    open spec fn obeys_eq_spec() -> bool {
        true
    }

    open spec fn eq_spec(&self, other: &Self) -> bool {
        *self == *other
    }
}

/// A resource's address, of either class a resource may carry.
#[derive(Clone, Copy, Debug, Eq)]
pub struct ResourceAddr {
    /// The bytes that tell it from every other resource.
    pub body: [u8; 31],
    /// Whether an entry of its own can stop a movement of it.
    pub restricted: bool,
}

impl ResourceAddr {
    /// The resource `body` names, nothing restricting it.
    pub fn new(body: [u8; 31]) -> (r: Self)
        ensures
            r.body == body,
            !r.restricted,
    {
        ResourceAddr { body, restricted: false }
    }

    /// The address the resource goes by.
    pub open spec fn as_address(self) -> Address {
        Address {
            body: self.body,
            class: if self.restricted {
                AddressClass::Restricted
            } else {
                AddressClass::Resource
            },
        }
    }

    /// The address the resource goes by.
    pub fn address(&self) -> (r: Address)
        ensures
            r == self.as_address(),
    {
        Address {
            body: self.body,
            class: if self.restricted {
                AddressClass::Restricted
            } else {
                AddressClass::Resource
            },
        }
    }

    /// The resource an address names, where its class says it names one.
    pub open spec fn named_by(address: Address) -> Option<ResourceAddr> {
        match address.class {
            AddressClass::Resource => Some(ResourceAddr { body: address.body, restricted: false }),
            AddressClass::Restricted => Some(ResourceAddr { body: address.body, restricted: true }),
            _ => None,
        }
    }

    /// The resource an address names, where its class says it names one.
    pub fn try_from(address: Address) -> (r: Option<ResourceAddr>)
        ensures
            r == Self::named_by(address),
    {
        match address.class {
            AddressClass::Resource => Some(ResourceAddr { body: address.body, restricted: false }),
            AddressClass::Restricted => Some(ResourceAddr { body: address.body, restricted: true }),
            _ => None,
        }
    }
}

impl PartialEq for ResourceAddr {
    fn eq(&self, other: &Self) -> (r: bool) {
        let r = same_bytes(array_as_slice(&self.body), array_as_slice(&other.body))
            && self.restricted == other.restricted;
        proof {
            if self.body@ == other.body@ {
                assert(self.body =~= other.body);
            }
        }
        r
    }
}

impl vstd::std_specs::cmp::PartialEqSpecImpl for ResourceAddr {
    open spec fn obeys_eq_spec() -> bool {
        true
    }

    open spec fn eq_spec(&self, other: &Self) -> bool {
        *self == *other
    }
}

/// An account's address.
#[derive(Clone, Copy, Debug, Eq)]
pub struct PrincipalAddr {
    /// The bytes the account's key commits to.
    pub body: [u8; 31],
}

impl PrincipalAddr {
    /// The account `body` names.
    pub fn new(body: [u8; 31]) -> (r: Self)
        ensures
            r.body == body,
    {
        PrincipalAddr { body }
    }

    /// The address the account goes by.
    pub open spec fn as_address(self) -> Address {
        Address { body: self.body, class: AddressClass::Principal }
    }

    /// The address the account goes by.
    pub fn address(&self) -> (r: Address)
        ensures
            r == self.as_address(),
    {
        Address { body: self.body, class: AddressClass::Principal }
    }
}

impl PartialEq for PrincipalAddr {
    fn eq(&self, other: &Self) -> (r: bool) {
        let r = same_bytes(array_as_slice(&self.body), array_as_slice(&other.body));
        proof {
            if self.body@ == other.body@ {
                assert(self.body =~= other.body);
            }
        }
        r
    }
}

impl vstd::std_specs::cmp::PartialEqSpecImpl for PrincipalAddr {
    open spec fn obeys_eq_spec() -> bool {
        true
    }

    open spec fn eq_spec(&self, other: &Self) -> bool {
        *self == *other
    }
}

/// A component's address.
#[derive(Clone, Copy, Debug, Eq)]
pub struct ComponentAddr {
    /// The bytes the component's record derives.
    pub body: [u8; 31],
}

impl ComponentAddr {
    /// The component `body` names.
    pub fn new(body: [u8; 31]) -> (r: Self)
        ensures
            r.body == body,
    {
        ComponentAddr { body }
    }

    /// The address the component goes by.
    pub open spec fn as_address(self) -> Address {
        Address { body: self.body, class: AddressClass::Component }
    }

    /// The address the component goes by.
    pub fn address(&self) -> (r: Address)
        ensures
            r == self.as_address(),
    {
        Address { body: self.body, class: AddressClass::Component }
    }
}

impl PartialEq for ComponentAddr {
    fn eq(&self, other: &Self) -> (r: bool) {
        let r = same_bytes(array_as_slice(&self.body), array_as_slice(&other.body));
        proof {
            if self.body@ == other.body@ {
                assert(self.body =~= other.body);
            }
        }
        r
    }
}

impl vstd::std_specs::cmp::PartialEqSpecImpl for ComponentAddr {
    open spec fn obeys_eq_spec() -> bool {
        true
    }

    open spec fn eq_spec(&self, other: &Self) -> bool {
        *self == *other
    }
}

/// An address a call may be made to: an account or a component, and
/// nothing else.
#[derive(Clone, Copy, Debug, Eq)]
pub enum CallTarget {
    /// An account.
    Principal(PrincipalAddr),
    /// A component.
    Component(ComponentAddr),
}

impl CallTarget {
    /// The address the target goes by.
    pub open spec fn as_address(self) -> Address {
        match self {
            CallTarget::Principal(principal) => principal.as_address(),
            CallTarget::Component(component) => component.as_address(),
        }
    }

    /// The address the target goes by.
    pub fn address(&self) -> (r: Address)
        ensures
            r == self.as_address(),
    {
        match self {
            CallTarget::Principal(principal) => principal.address(),
            CallTarget::Component(component) => component.address(),
        }
    }

    /// The target an address names, where its class says it can be called.
    pub open spec fn named_by(address: Address) -> Option<CallTarget> {
        match address.class {
            AddressClass::Principal => Some(
                CallTarget::Principal(PrincipalAddr { body: address.body }),
            ),
            AddressClass::Component => Some(
                CallTarget::Component(ComponentAddr { body: address.body }),
            ),
            _ => None,
        }
    }

    /// The target an address names, where its class says it can be called.
    pub fn try_from(address: Address) -> (r: Option<CallTarget>)
        ensures
            r == Self::named_by(address),
    {
        match address.class {
            AddressClass::Principal => Some(
                CallTarget::Principal(PrincipalAddr { body: address.body }),
            ),
            AddressClass::Component => Some(
                CallTarget::Component(ComponentAddr { body: address.body }),
            ),
            _ => None,
        }
    }
}

impl PartialEq for CallTarget {
    fn eq(&self, other: &Self) -> (r: bool) {
        match (self, other) {
            (CallTarget::Principal(left), CallTarget::Principal(right)) => *left == *right,
            (CallTarget::Component(left), CallTarget::Component(right)) => *left == *right,
            _ => false,
        }
    }
}

impl vstd::std_specs::cmp::PartialEqSpecImpl for CallTarget {
    open spec fn obeys_eq_spec() -> bool {
        true
    }

    open spec fn eq_spec(&self, other: &Self) -> bool {
        *self == *other
    }
}

} // verus!
