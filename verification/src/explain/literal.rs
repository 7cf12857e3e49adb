//! Values, addresses, claims and shapes, as text.
use vstd::array::array_as_slice;
use vstd::prelude::*;

use crate::address::{Address, AddressClass};
use crate::effect::{EffectTarget, Presence};
use crate::metadata::SlotKind;
use crate::presented::Claim;
use crate::resource::ResourceKind;
use crate::rule::Judged;
use crate::shape::{ShapeField, ShapeVariant, TypeShape};
use crate::signature::Totality;
use crate::text::{
    cat2, cat3, cat4, cat5, cat6, decimal, hex, join, prints, quoted, u256_decimal, utf8_text,
};
use crate::types::{EdgeContent, SubstateKey, Value};

verus! {

/// What an address's class is called.
pub open spec fn class_label(class: AddressClass) -> Seq<char> {
    match class {
        AddressClass::Principal => "principal"@,
        AddressClass::Component => "component"@,
        AddressClass::Package => "package"@,
        AddressClass::Resource => "resource"@,
        AddressClass::Restricted => "restricted"@,
        AddressClass::Native => "native"@,
    }
}

/// What an address's class is called.
pub fn class_text(class: AddressClass) -> (r: &'static str)
    ensures
        r@ == class_label(class),
{
    match class {
        AddressClass::Principal => "principal",
        AddressClass::Component => "component",
        AddressClass::Package => "package",
        AddressClass::Resource => "resource",
        AddressClass::Restricted => "restricted",
        AddressClass::Native => "native",
    }
}

/// An address, spelled: its class, and all its bytes.
pub open spec fn address_spelling(address: Address) -> Seq<char> {
    class_label(address.class) + ":"@ + crate::text::hex_text(address.bytes())
}

/// An address as its class and its whole body: a declaration's literals
/// are few, and a truncated one names something a reader cannot check.
pub fn address_text(address: Address) -> (r: String)
    ensures
        r@ == address_spelling(address),
{
    let raw = address.to_bytes();
    cat3(class_text(address.class()), ":", hex(raw.as_slice()).as_str())
}

/// The instance half of a claim, spelled, where it names one.
pub open spec fn instance_spelling(claim: Claim) -> Seq<char> {
    match claim.instance {
        Some(id) => ", instance "@ + crate::text::decimal_text(id as nat),
        None => Seq::empty(),
    }
}

/// The instance half of a claim, where it names one.
pub fn instance_text(claim: &Claim) -> (r: String)
    ensures
        r@ == instance_spelling(*claim),
{
    match claim.instance {
        Some(id) => cat2(", instance ", decimal(id as u128).as_str()),
        None => String::new(),
    }
}

/// A claim, spelled: its subject, and its instance where it names one.
pub open spec fn claim_spelling(claim: Claim) -> Seq<char> {
    address_spelling(claim.subject) + instance_spelling(claim)
}

/// One claim, subject and instance both.
///
/// The instance is half of what a claim names: a rendering that drops it
/// says the right badge was presented and mysteriously refused.
pub fn claim_text(claim: &Claim) -> (r: String)
    ensures
        r@ == claim_spelling(*claim),
{
    cat2(address_text(claim.subject).as_str(), instance_text(claim).as_str())
}

/// Bytes, spelled: quoted where they are printed text, and in hexadecimal
/// otherwise.
pub open spec fn bytes_spelling(raw: Seq<u8>) -> Seq<char> {
    if vstd::utf8::valid_utf8(raw) && crate::text::is_printed(vstd::utf8::decode_utf8(raw)) {
        crate::text::quoted_text(vstd::utf8::decode_utf8(raw))
    } else {
        "0x"@ + crate::text::hex_text(raw)
    }
}

/// A byte string as its author most likely wrote it: a mark is a name, and
/// anything that is not printable text is its own bytes.
pub fn bytes(raw: &[u8]) -> (r: String)
    ensures
        r@ == bytes_spelling(raw@),
{
    match utf8_text(raw) {
        Some(text) => {
            if prints(text.as_str()) {
                return quoted(text.as_str());
            }
        },
        None => {},
    }
    cat2("0x", hex(raw).as_str())
}

/// A substate key, spelled: the address it sits under, and where.
pub open spec fn key_spelling(key: SubstateKey) -> Seq<char> {
    address_spelling(key.owner) + "/"@ + crate::text::hex_text(key.local.0@)
}

/// One substate key: the owner it sits under, which is an address, and the
/// local part, which is not.
pub fn key_text(key: &SubstateKey) -> (r: String)
    ensures
        r@ == key_spelling(*key),
{
    cat3(
        address_text(key.owner).as_str(),
        "/",
        hex(array_as_slice(&key.local.0)).as_str(),
    )
}

/// Numbers, spelled.
pub open spec fn numbers_spelling(numbers: Seq<u64>) -> Seq<Seq<char>> {
    Seq::new(numbers.len(), |i: int| crate::text::decimal_text(numbers[i] as nat))
}

/// Numbers, spelled, in brackets.
fn numbers_text(numbers: &Vec<u64>) -> (r: String)
    ensures
        r@ == "["@ + crate::text::joined_text(numbers_spelling(numbers@), ", "@) + "]"@,
{
    let mut listed: Vec<String> = Vec::new();
    let mut i: usize = 0;
    while i < numbers.len()
        invariant
            i <= numbers.len(),
            listed.len() == i,
            forall|j: int|
                0 <= j < i ==> (#[trigger] listed@[j])@ == crate::text::decimal_text(
                    numbers@[j] as nat,
                ),
        decreases numbers.len() - i,
    {
        listed.push(decimal(numbers[i] as u128));
        i = i + 1;
    }
    assert(crate::text::texts(listed@) =~= numbers_spelling(numbers@));
    cat3("[", join(&listed, ", ").as_str(), "]")
}

/// What an edge carries beside its resource, spelled.
pub open spec fn content_spelling(content: EdgeContent) -> Seq<char> {
    match content {
        EdgeContent::Fungible => "an amount"@,
        EdgeContent::NonFungible { ids } => "["@ + crate::text::joined_text(
            numbers_spelling(ids@),
            ", "@,
        ) + "]"@,
    }
}

/// A literal, spelled. The saturated widths go by their names.
pub open spec fn value_spelling(value: Value) -> Seq<char>
    decreases value,
{
    match value {
        Value::U64(number) => if number == u64::MAX {
            "u64::MAX"@
        } else {
            crate::text::decimal_text(number as nat)
        },
        Value::U128(number) => if number == u128::MAX {
            "u128::MAX"@
        } else {
            crate::text::decimal_text(number as nat)
        },
        Value::U256(scaled) => crate::text::decimal_text(scaled.number()),
        Value::Bytes(raw) => bytes_spelling(raw@),
        Value::Address(address) => address_spelling(address),
        Value::Key(key) => key_spelling(key),
        Value::Bucket { resource, content } => "edge("@ + address_spelling(resource.as_address())
            + " × "@ + content_spelling(content) + ")"@,
        Value::Tuple(fields) => "("@ + crate::text::joined_text(
            value_spellings(fields@),
            ", "@,
        ) + ")"@,
        Value::List(elements) => "["@ + crate::text::joined_text(
            value_spellings(elements@),
            ", "@,
        ) + "]"@,
        Value::Bool(judgment) => if judgment {
            "true"@
        } else {
            "false"@
        },
    }
}

/// Literals, each spelled.
pub open spec fn value_spellings(values: Seq<Value>) -> Seq<Seq<char>>
    decreases values,
{
    Seq::new(
        values.len(),
        |i: int|
            if 0 <= i < values.len() {
                value_spelling(values[i])
            } else {
                Seq::empty()
            },
    )
}

/// A literal, in the form the kind reads best in.
pub fn value_text(value: &Value) -> (r: String)
    ensures
        r@ == value_spelling(*value),
    decreases value,
{
    match value {
        // The saturated widths are named rather than spelled: a range over
        // the whole order space is a common declaration, and thirty-nine
        // digits of it says less than the name does.
        Value::U64(number) => {
            if *number == u64::MAX {
                "u64::MAX".to_owned()
            } else {
                decimal(*number as u128)
            }
        },
        Value::U128(number) => {
            if *number == u128::MAX {
                "u128::MAX".to_owned()
            } else {
                decimal(*number)
            }
        },
        Value::U256(scaled) => u256_decimal(*scaled),
        Value::Bytes(raw) => bytes(raw.as_slice()),
        Value::Address(address) => address_text(*address),
        Value::Key(key) => key_text(key),
        Value::Bucket { resource, content } => {
            let carried = match content {
                EdgeContent::Fungible => "an amount".to_owned(),
                EdgeContent::NonFungible { ids } => numbers_text(ids),
            };
            cat5(
                "edge(",
                address_text(resource.address()).as_str(),
                " × ",
                carried.as_str(),
                ")",
            )
        },
        Value::Tuple(fields) => cat3("(", values_text(fields).as_str(), ")"),
        Value::List(elements) => cat3("[", values_text(elements).as_str(), "]"),
        Value::Bool(judgment) => {
            if *judgment {
                "true".to_owned()
            } else {
                "false".to_owned()
            }
        },
    }
}

/// Literals, separated by commas.
fn values_text(values: &Vec<Value>) -> (r: String)
    ensures
        r@ == crate::text::joined_text(value_spellings(values@), ", "@),
    decreases values,
{
    let mut rendered: Vec<String> = Vec::new();
    let mut i: usize = 0;
    while i < values.len()
        invariant
            i <= values.len(),
            rendered.len() == i,
            forall|j: int|
                0 <= j < i ==> (#[trigger] rendered@[j])@ == value_spelling(values@[j]),
        decreases values.len() - i,
    {
        rendered.push(value_text(&values[i]));
        i = i + 1;
    }
    assert(crate::text::texts(rendered@) =~= value_spellings(values@));
    join(&rendered, ", ")
}

/// A type, spelled.
pub open spec fn shape_spelling(shape: TypeShape) -> Seq<char>
    decreases shape,
{
    match shape {
        TypeShape::Bool => "bool"@,
        TypeShape::U8 => "u8"@,
        TypeShape::U16 => "u16"@,
        TypeShape::U32 => "u32"@,
        TypeShape::U64 => "u64"@,
        TypeShape::U128 => "u128"@,
        TypeShape::I8 => "i8"@,
        TypeShape::I16 => "i16"@,
        TypeShape::I32 => "i32"@,
        TypeShape::I64 => "i64"@,
        TypeShape::I128 => "i128"@,
        TypeShape::Text => "text"@,
        TypeShape::ByteArray(width) => "[u8; "@ + crate::text::decimal_text(width as nat) + "]"@,
        TypeShape::List(element) => "["@ + shape_spelling(*element) + "]"@,
        TypeShape::Distinct(element) => "set["@ + shape_spelling(*element) + "]"@,
        TypeShape::Pairs { key, value } => "map["@ + shape_spelling(*key) + " → "@
            + shape_spelling(*value) + "]"@,
        TypeShape::Maybe(inner) => shape_spelling(*inner) + "?"@,
        TypeShape::Tuple(fields) => "("@ + crate::text::joined_text(
            shape_spellings(fields@),
            ", "@,
        ) + ")"@,
        TypeShape::Struct(fields) => "{ "@ + crate::text::joined_text(
            field_spellings(fields@),
            ", "@,
        ) + " }"@,
        TypeShape::Enum(variants) => "< "@ + crate::text::joined_text(
            variant_spellings(variants@),
            " | "@,
        ) + " >"@,
        TypeShape::Ref(name) => name@,
    }
}

/// Types, each spelled.
pub open spec fn shape_spellings(shapes: Seq<TypeShape>) -> Seq<Seq<char>>
    decreases shapes,
{
    Seq::new(
        shapes.len(),
        |i: int|
            if 0 <= i < shapes.len() {
                shape_spelling(shapes[i])
            } else {
                Seq::empty()
            },
    )
}

/// The fields of a struct, each spelled by its name and its type.
pub open spec fn field_spellings(fields: Seq<ShapeField>) -> Seq<Seq<char>>
    decreases fields,
{
    Seq::new(
        fields.len(),
        |i: int|
            if 0 <= i < fields.len() {
                fields[i].name@ + ": "@ + shape_spelling(fields[i].shape)
            } else {
                Seq::empty()
            },
    )
}

/// The forms of an enum, each spelled by its number, its name and what it
/// carries.
pub open spec fn variant_spellings(variants: Seq<ShapeVariant>) -> Seq<Seq<char>>
    decreases variants,
{
    Seq::new(
        variants.len(),
        |i: int|
            if 0 <= i < variants.len() {
                crate::text::decimal_text(variants[i].discriminant as nat) + " "@
                    + variants[i].name@ + shape_spelling(variants[i].content)
            } else {
                Seq::empty()
            },
    )
}

/// A type, in the vocabulary the encoding admits.
pub fn shape_of(shape: &TypeShape) -> (r: String)
    ensures
        r@ == shape_spelling(*shape),
    decreases shape,
{
    match shape {
        TypeShape::Bool => "bool".to_owned(),
        TypeShape::U8 => "u8".to_owned(),
        TypeShape::U16 => "u16".to_owned(),
        TypeShape::U32 => "u32".to_owned(),
        TypeShape::U64 => "u64".to_owned(),
        TypeShape::U128 => "u128".to_owned(),
        TypeShape::I8 => "i8".to_owned(),
        TypeShape::I16 => "i16".to_owned(),
        TypeShape::I32 => "i32".to_owned(),
        TypeShape::I64 => "i64".to_owned(),
        TypeShape::I128 => "i128".to_owned(),
        TypeShape::Text => "text".to_owned(),
        TypeShape::ByteArray(width) => cat3("[u8; ", decimal(*width as u128).as_str(), "]"),
        TypeShape::List(element) => cat3("[", shape_of(element).as_str(), "]"),
        TypeShape::Distinct(element) => cat3("set[", shape_of(element).as_str(), "]"),
        TypeShape::Pairs { key, value } => cat5(
            "map[",
            shape_of(key).as_str(),
            " → ",
            shape_of(value).as_str(),
            "]",
        ),
        TypeShape::Maybe(inner) => cat2(shape_of(inner).as_str(), "?"),
        TypeShape::Tuple(fields) => {
            let mut rendered: Vec<String> = Vec::new();
            let mut i: usize = 0;
            while i < fields.len()
                invariant
                    i <= fields.len(),
                    rendered.len() == i,
                    *shape matches TypeShape::Tuple(held) && held == *fields,
                    forall|j: int|
                        0 <= j < i ==> (#[trigger] rendered@[j])@ == shape_spelling(fields@[j]),
                decreases fields.len() - i,
            {
                rendered.push(shape_of(&fields[i]));
                i = i + 1;
            }
            assert(crate::text::texts(rendered@) =~= shape_spellings(fields@));
            cat3("(", join(&rendered, ", ").as_str(), ")")
        },
        TypeShape::Struct(fields) => {
            let mut rendered: Vec<String> = Vec::new();
            let mut i: usize = 0;
            while i < fields.len()
                invariant
                    i <= fields.len(),
                    rendered.len() == i,
                    *shape matches TypeShape::Struct(held) && held == *fields,
                    forall|j: int|
                        0 <= j < i ==> (#[trigger] rendered@[j])@ == fields@[j].name@ + ": "@
                            + shape_spelling(fields@[j].shape),
                decreases fields.len() - i,
            {
                rendered.push(
                    cat3(fields[i].name.as_str(), ": ", shape_of(&fields[i].shape).as_str()),
                );
                i = i + 1;
            }
            assert(crate::text::texts(rendered@) =~= field_spellings(fields@));
            cat3("{ ", join(&rendered, ", ").as_str(), " }")
        },
        TypeShape::Enum(variants) => {
            let mut rendered: Vec<String> = Vec::new();
            let mut i: usize = 0;
            while i < variants.len()
                invariant
                    i <= variants.len(),
                    rendered.len() == i,
                    *shape matches TypeShape::Enum(held) && held == *variants,
                    forall|j: int|
                        0 <= j < i ==> (#[trigger] rendered@[j])@ == crate::text::decimal_text(
                            variants@[j].discriminant as nat,
                        ) + " "@ + variants@[j].name@ + shape_spelling(variants@[j].content),
                decreases variants.len() - i,
            {
                rendered.push(
                    cat4(
                        decimal(variants[i].discriminant as u128).as_str(),
                        " ",
                        variants[i].name.as_str(),
                        shape_of(&variants[i].content).as_str(),
                    ),
                );
                i = i + 1;
            }
            assert(crate::text::texts(rendered@) =~= variant_spellings(variants@));
            cat3("< ", join(&rendered, " | ").as_str(), " >")
        },
        TypeShape::Ref(name) => name.clone(),
    }
}

/// What shape of state a slot holds, spelled.
pub open spec fn slot_kind_spelling(kind: SlotKind) -> Seq<char> {
    match kind {
        SlotKind::Cell => "one leaf"@,
        SlotKind::Keyed => "a leaf per key"@,
        SlotKind::Ordered => "an ordered collection"@,
        SlotKind::Unordered => "an unordered collection"@,
    }
}

/// What shape of state a slot holds.
pub fn slot_kind(kind: SlotKind) -> (r: &'static str)
    ensures
        r@ == slot_kind_spelling(kind),
{
    match kind {
        SlotKind::Cell => "one leaf",
        SlotKind::Keyed => "a leaf per key",
        SlotKind::Ordered => "an ordered collection",
        SlotKind::Unordered => "an unordered collection",
    }
}

/// How completely a method returns, spelled.
pub open spec fn totality_spelling(totality: Totality) -> Seq<char> {
    match totality {
        Totality::Fallible => "fallible"@,
        Totality::Infallible => "infallible"@,
        Totality::Total => "total"@,
    }
}

/// How completely a method returns.
pub fn returns_text(totality: Totality) -> (r: &'static str)
    ensures
        r@ == totality_spelling(totality),
{
    match totality {
        Totality::Fallible => "fallible",
        Totality::Infallible => "infallible",
        Totality::Total => "total",
    }
}

/// What a resource is, spelled.
pub open spec fn kind_spelling(kind: ResourceKind) -> Seq<char> {
    match kind {
        ResourceKind::Fungible => "fungible"@,
        ResourceKind::NonFungible => "non-fungible"@,
    }
}

/// What a resource is, folded into its derivation.
pub fn resource_kind(kind: ResourceKind) -> (r: &'static str)
    ensures
        r@ == kind_spelling(kind),
{
    match kind {
        ResourceKind::Fungible => "fungible",
        ResourceKind::NonFungible => "non-fungible",
    }
}

/// When a verdict lands, spelled.
pub open spec fn heard_spelling(judged: Judged) -> Seq<char> {
    match judged {
        Judged::AtAdmission => "before it is a transaction"@,
        Judged::AtMaterialization => "before any body runs"@,
        Judged::InTheLeg => "inside the call, after a caller may have committed"@,
    }
}

/// When a verdict reached at this stage lands, in what it costs the party
/// it lands on.
pub fn heard(judged: Judged) -> (r: &'static str)
    ensures
        r@ == heard_spelling(judged),
{
    match judged {
        // Never included, so it costs a refused sender nothing at all.
        Judged::AtAdmission => "before it is a transaction",
        // The whole transaction aborts, and no caller committed on it.
        Judged::AtMaterialization => "before any body runs",
        // Inside the declaring node's own leg, which a caller may already
        // have committed without waiting for.
        Judged::InTheLeg => "inside the call, after a caller may have committed",
    }
}

/// What a condition required of a leaf, spelled.
pub open spec fn presence_spelling(required: Presence) -> Seq<char> {
    match required {
        Presence::Present => "there"@,
        Presence::Absent => "not there"@,
        Presence::Either => "either way"@,
    }
}

/// What a condition required of a leaf.
pub fn presence_text(required: Presence) -> (r: &'static str)
    ensures
        r@ == presence_spelling(required),
{
    match required {
        Presence::Present => "there",
        Presence::Absent => "not there",
        Presence::Either => "either way",
    }
}

/// One effect target, spelled.
pub open spec fn target_spelling(target: EffectTarget) -> Seq<char> {
    match target {
        EffectTarget::Point(key) => key_spelling(key),
        EffectTarget::Entry { owner, collection, order } => address_spelling(owner)
            + "'s collection "@ + crate::text::hex_text(collection.0@) + " at "@
            + crate::text::decimal_text(order as nat),
        EffectTarget::Range { owner, collection, lo, hi, cap } => address_spelling(owner)
            + "'s collection "@ + crate::text::hex_text(collection.0@) + " over "@ + (if lo == 0
            && hi == u128::MAX {
            "the whole order space"@
        } else {
            crate::text::decimal_text(lo as nat) + "..="@ + crate::text::decimal_text(hi as nat)
        }) + (", at most "@ + crate::text::decimal_text(cap as nat) + " entries"@),
    }
}

/// One effect target, as far as a hash can be read.
pub fn target_text(target: &EffectTarget) -> (r: String)
    ensures
        r@ == target_spelling(*target),
{
    match target {
        EffectTarget::Point(key) => key_text(key),
        EffectTarget::Entry { owner, collection, order } => cat5(
            address_text(*owner).as_str(),
            "'s collection ",
            hex(array_as_slice(&collection.0)).as_str(),
            " at ",
            decimal(*order).as_str(),
        ),
        EffectTarget::Range { owner, collection, lo, hi, cap } => {
            let over = if *lo == 0 && *hi == u128::MAX {
                "the whole order space".to_owned()
            } else {
                cat3(decimal(*lo).as_str(), "..=", decimal(*hi).as_str())
            };
            let most = cat3(", at most ", decimal(*cap as u128).as_str(), " entries");
            cat6(
                address_text(*owner).as_str(),
                "'s collection ",
                hex(array_as_slice(&collection.0)).as_str(),
                " over ",
                over.as_str(),
                most.as_str(),
            )
        },
    }
}

} // verus!
