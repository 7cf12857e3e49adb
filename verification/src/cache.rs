//! The content-addressed metadata cache.
use std::sync::Arc;
use vstd::array::array_as_slice;
use vstd::prelude::*;

use crate::metadata::{Name, PackageHash, PackageMetadata};
use crate::publish::package::{CheckedMetadata, MetadataError};
use crate::publish::{check_signature, CheckedSignature, SignatureError};
use crate::shape::ShapeNode;
use crate::signature::MethodSignature;
use crate::table::{bytes_precede, Table, TableKey};
use crate::term::same_bytes;

verus! {

/// Why a record was refused at the cache door.
///
/// The two scopes the publish gate judges in, so a refusal says which
/// question the record failed rather than only that it did.
#[derive(Debug, PartialEq, Eq)]
pub enum PublishRefusal {
    /// One method's signature was refused.
    Method {
        /// The method whose signature was refused.
        method: Name,
        /// The judgment that refused it.
        source: SignatureError,
    },
    /// The package's tables, read together, say more than one thing.
    Package(MetadataError),
}

impl TableKey for PackageHash {
    open spec fn ordinal(self) -> Seq<int> {
        crate::table::byte_ordinal(self.0.0@)
    }

    fn precedes(&self, other: &Self) -> (r: bool) {
        bytes_precede(array_as_slice(&self.0.0), array_as_slice(&other.0.0))
    }

    fn coincides(&self, other: &Self) -> (r: bool) {
        proof {
            crate::table::lemma_byte_ordinal(self.0.0@, other.0.0@);
        }
        same_bytes(array_as_slice(&self.0.0), array_as_slice(&other.0.0))
    }
}

/// The verdicts on each method's signature, in order.
pub open spec fn door_verdicts(methods: Seq<(Name, MethodSignature)>) -> Seq<
    Result<(), PublishRefusal>,
> {
    Seq::new(
        methods.len(),
        |i: int|
            match crate::publish::signature_verdict(methods[i].1) {
                Ok(_) => Ok(()),
                Err(source) => Err(PublishRefusal::Method { method: methods[i].0, source }),
            },
    )
}

/// The verdict at the cache door: every method's signature in order, and
/// then the tables read together.
pub open spec fn door_verdict(metadata: PackageMetadata, reserved: Seq<ShapeNode>) -> Result<
    (),
    PublishRefusal,
> {
    crate::verdict::followed_by(
        crate::verdict::first_refusal(door_verdicts(metadata.methods.listed())),
        match crate::publish::package::package_verdict(metadata, reserved) {
            Ok(_) => Ok(()),
            Err(refusal) => Err(PublishRefusal::Package(refusal)),
        },
    )
}

/// The content-addressed metadata cache. An entry never invalidates, equal
/// hash meaning equal artifact, so publishing is idempotent and
/// first-write-wins.
///
/// Everything in it passed the door: admission and routing read signatures
/// out of it as [`CheckedSignature`] witnesses.
#[derive(Debug)]
pub struct MetadataCache {
    reserved: Vec<ShapeNode>,
    packages: Table<PackageHash, Arc<PackageMetadata>>,
}

/// Another handle to what a shared handle holds.
///
/// Rests on `Arc::clone`: the new handle shares what the old one holds.
#[verifier::external_body]
pub(crate) fn share<T>(held: &Arc<T>) -> (r: Arc<T>)
    ensures
        *r == **held,
{
    Arc::clone(held)
}

impl MetadataCache {
    /// What the cache holds under a package's hash.
    pub closed spec fn held(self, hash: PackageHash) -> Option<PackageMetadata> {
        match self.packages.under(hash.ordinal()) {
            Some(record) => Some(*record),
            None => None,
        }
    }

    /// The protocol's own shapes, which every record is judged beside.
    pub closed spec fn pinned(self) -> Seq<ShapeNode> {
        self.reserved@
    }

    /// Everything in the cache passed the door.
    #[verifier::type_invariant]
    spec fn all_passed(self) -> bool {
        forall|key: Seq<int>|
            (#[trigger] self.packages.under(key)) matches Some(record) ==> door_verdict(
                *record,
                self.reserved@,
            ) is Ok
    }

    /// An empty cache, judging beside the protocol's own shapes.
    pub fn new(reserved: Vec<ShapeNode>) -> (r: Self)
        ensures
            r.pinned() == reserved@,
            forall|hash: PackageHash| #[trigger] r.held(hash) is None,
    {
        MetadataCache { reserved, packages: Table::new() }
    }

    /// Add a package's metadata under its content address, judging every
    /// method's signature and the tables at the door.
    ///
    /// Both scopes, because a package is more than its methods one at a
    /// time: what two of them say a slot holds is a question only the
    /// whole metadata answers. The hash is the content address, so a
    /// divergent re-publish is a collision or a caller's defect; the first
    /// record stands either way.
    ///
    /// # Errors
    ///
    /// [`PublishRefusal`], naming the first refused method or the table
    /// the package disagrees with itself about.
    #[verifier::rlimit(60)]
    pub fn publish(&mut self, hash: PackageHash, metadata: PackageMetadata) -> (r: Result<
        (),
        PublishRefusal,
    >)
        ensures
            r == door_verdict(metadata, old(self).pinned()),
            final(self).pinned() == old(self).pinned(),
            r is Ok ==> final(self).held(hash) == (match old(self).held(hash) {
                Some(record) => Some(record),
                None => Some(metadata),
            }),
            r is Err ==> final(self).held(hash) == old(self).held(hash),
            forall|other: PackageHash|
                other != hash ==> #[trigger] final(self).held(other) == old(self).held(other),
    {
        let ghost rows = metadata.methods.listed();
        let ghost verdicts = door_verdicts(rows);
        proof {
            crate::verdict::lemma_all(verdicts);
        }
        let mut i: usize = 0;
        while i < metadata.methods.len()
            invariant
                i <= rows.len(),
                rows == metadata.methods.listed(),
                verdicts == door_verdicts(rows),
                crate::verdict::first_refusal(verdicts.take(i as int)) is Ok,
                *self == *old(self),
            decreases rows.len() - i,
        {
            proof {
                crate::verdict::lemma_one_more(verdicts, i as int);
            }
            match check_signature(metadata.methods.value(i)) {
                Ok(_) => {},
                Err(source) => {
                    return Err(
                        PublishRefusal::Method { method: metadata.methods.key(i).clone(), source },
                    );
                },
            }
            i = i + 1;
        }
        proof {
            crate::verdict::lemma_all(verdicts);
        }
        let judged = match CheckedMetadata::judge(metadata, &self.reserved) {
            Ok(checked) => checked.into_metadata(),
            Err(refusal) => {
                return Err(PublishRefusal::Package(refusal));
            },
        };
        self.store(hash, judged);
        Ok(())
    }

    /// Seed a record whose signatures and tables are already judged.
    pub fn publish_unchecked(&mut self, hash: PackageHash, metadata: PackageMetadata)
        requires
            door_verdict(metadata, old(self).pinned()) is Ok,
        ensures
            final(self).pinned() == old(self).pinned(),
            final(self).held(hash) == (match old(self).held(hash) {
                Some(record) => Some(record),
                None => Some(metadata),
            }),
            forall|other: PackageHash|
                other != hash ==> #[trigger] final(self).held(other) == old(self).held(other),
    {
        self.store(hash, metadata);
    }

    /// Keep a judged record, where none is kept under its hash already.
    fn store(&mut self, hash: PackageHash, metadata: PackageMetadata)
        requires
            door_verdict(metadata, old(self).pinned()) is Ok,
        ensures
            final(self).pinned() == old(self).pinned(),
            final(self).held(hash) == (match old(self).held(hash) {
                Some(record) => Some(record),
                None => Some(metadata),
            }),
            forall|other: PackageHash|
                other != hash ==> #[trigger] final(self).held(other) == old(self).held(other),
    {
        proof {
            use_type_invariant(&*self);
        }
        let mut packages: Table<PackageHash, Arc<PackageMetadata>> = Table::new();
        std::mem::swap(&mut packages, &mut self.packages);
        let ghost before = packages;
        packages.insert_first(hash, Arc::new(metadata));
        proof {
            assert forall|key: Seq<int>|
                (#[trigger] packages.under(key)) is Some implies door_verdict(
                *packages.under(key)->0,
                self.reserved@,
            ) is Ok by {
                if key != hash.ordinal() {
                    assert(packages.under(key) == before.under(key));
                }
            }
            assert forall|other: PackageHash| other != hash implies packages.under(
                #[trigger] other.ordinal(),
            ) == before.under(other.ordinal()) by {
                crate::table::lemma_byte_ordinal(other.0.0@, hash.0.0@);
                if other.ordinal() == hash.ordinal() {
                    assert(other.0.0 =~= hash.0.0);
                }
            }
        }
        self.packages = packages;
    }

    /// The checked signature of `package`'s `method`.
    ///
    /// The witness is the cache's invariant: everything behind the door
    /// passed the composed signature check when it entered.
    pub fn method(&self, package: PackageHash, method: &str) -> (r: Option<CheckedSignature<'_>>)
        ensures
            match r {
                Some(checked) => self.held(package) matches Some(record) && record.methods.under(
                    crate::table::text_ordinal(method@),
                ) == Some(checked.judged()),
                None => match self.held(package) {
                    Some(record) => record.methods.under(crate::table::text_ordinal(method@)) is None,
                    None => true,
                },
            },
    {
        proof {
            use_type_invariant(self);
        }
        let record: &PackageMetadata = match self.packages.get(&package) {
            Some(record) => &**record,
            None => {
                return None;
            },
        };
        let named = method.to_owned();
        match record.methods.get(&named) {
            Some(signature) => {
                proof {
                    let rows = record.methods.listed();
                    let at = crate::table::lemma_value_stands(rows, named.ordinal());
                    let verdicts = door_verdicts(rows);
                    crate::verdict::lemma_accepted(verdicts);
                    assert(verdicts[at] is Ok);
                }
                Some(CheckedSignature::trusted(signature))
            },
            None => None,
        }
    }

    /// Look up a package's metadata.
    pub fn get(&self, hash: PackageHash) -> (r: Option<&PackageMetadata>)
        ensures
            match r {
                Some(record) => self.held(hash) == Some(*record) && door_verdict(
                    *record,
                    self.pinned(),
                ) is Ok,
                None => self.held(hash) is None,
            },
    {
        proof {
            use_type_invariant(self);
        }
        match self.packages.get(&hash) {
            Some(record) => Some(&**record),
            None => None,
        }
    }

    /// The shared handle to a package's metadata.
    pub fn record(&self, hash: PackageHash) -> (r: Option<Arc<PackageMetadata>>)
        ensures
            match r {
                Some(record) => self.held(hash) == Some(*record) && door_verdict(
                    *record,
                    self.pinned(),
                ) is Ok,
                None => self.held(hash) is None,
            },
    {
        proof {
            use_type_invariant(self);
        }
        match self.packages.get(&hash) {
            Some(record) => Some(share(record)),
            None => None,
        }
    }
}

} // verus!
