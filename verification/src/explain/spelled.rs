//! What a spelled value, shape or target says, and that a reader can tell
//! it from another.
use vstd::prelude::*;

use crate::address::Address;
use crate::effect::EffectTarget;
use crate::explain::names::Lexicon;
use crate::shape::TypeShape;
use crate::types::{EdgeContent, Value};

verus! {

/// Two addresses read alike exactly where they are one: the class and every
/// byte are shown.
pub proof fn law_addresses_read_apart(one: Address, other: Address)
    ensures
        crate::explain::literal::address_spelling(one)
            == crate::explain::literal::address_spelling(other) <==> one == other,
{
    let left = crate::presented::Claim { subject: one, instance: None };
    let right = crate::presented::Claim { subject: other, instance: None };
    crate::explain::laws::law_claims_render_apart(left, right);
    assert(crate::explain::literal::claim_spelling(left)
        =~= crate::explain::literal::address_spelling(one));
    assert(crate::explain::literal::claim_spelling(right)
        =~= crate::explain::literal::address_spelling(other));
}

/// A number reads in decimal, the greatest of its width by its name, so
/// two of one width read alike exactly where they are one.
pub proof fn law_numbers_read_apart(one: u64, other: u64, wide: u128, wider: u128)
    ensures
        crate::explain::literal::value_spelling(Value::U64(one))
            == crate::explain::literal::value_spelling(Value::U64(other)) <==> one == other,
        crate::explain::literal::value_spelling(Value::U128(wide))
            == crate::explain::literal::value_spelling(Value::U128(wider)) <==> wide == wider,
        one < u64::MAX ==> crate::explain::literal::value_spelling(Value::U64(one))
            == crate::text::decimal_text(one as nat),
        one == u64::MAX ==> crate::explain::literal::value_spelling(Value::U64(one))
            == "u64::MAX"@,
        wide < u128::MAX ==> crate::explain::literal::value_spelling(Value::U128(wide))
            == crate::text::decimal_text(wide as nat),
        wide == u128::MAX ==> crate::explain::literal::value_spelling(Value::U128(wide))
            == "u128::MAX"@,
{
    reveal_strlit("u64::MAX");
    reveal_strlit("u128::MAX");
    crate::text::lemma_decimal_text(one as nat, other as nat);
    crate::text::lemma_decimal_text(wide as nat, wider as nat);
    lemma_opens_with_a_digit(one as nat);
    lemma_opens_with_a_digit(other as nat);
    lemma_opens_with_a_digit(wide as nat);
    lemma_opens_with_a_digit(wider as nat);
    assert("u64::MAX"@[0] == 'u');
    assert("u128::MAX"@[0] == 'u');
}

/// A number in decimal opens with a digit.
proof fn lemma_opens_with_a_digit(number: nat)
    ensures
        crate::text::decimal_text(number).len() > 0,
        crate::text::decimal_text(number)[0] != 'u',
    decreases number,
{
    reveal_strlit("0");
    reveal_strlit("1");
    reveal_strlit("2");
    reveal_strlit("3");
    reveal_strlit("4");
    reveal_strlit("5");
    reveal_strlit("6");
    reveal_strlit("7");
    reveal_strlit("8");
    reveal_strlit("9");
    if number >= 10 {
        lemma_opens_with_a_digit(number / 10);
    }
}

/// A judgment reads as it is, and an address and a key in full.
pub proof fn law_plain_values_read_as_they_are(
    judgment: bool,
    address: Address,
    key: crate::types::SubstateKey,
)
    ensures
        crate::explain::literal::value_spelling(Value::Bool(judgment)) == (if judgment {
            "true"@
        } else {
            "false"@
        }),
        crate::explain::literal::value_spelling(Value::Address(address))
            == crate::explain::literal::address_spelling(address),
        crate::explain::literal::value_spelling(Value::Key(key))
            == crate::explain::literal::address_spelling(key.owner) + "/"@
            + crate::text::hex_text(key.local.0@),
{
}

/// An edge shows the resource it carries, in full, and what of it: an
/// amount, or every instance by its id.
#[verifier::rlimit(60)]
pub proof fn law_an_edge_shows_what_it_carries(
    resource: crate::address::ResourceAddr,
    ids: Vec<u64>,
    i: int,
)
    ensures
        crate::explain::literal::value_spelling(
            Value::Bucket { resource, content: EdgeContent::Fungible },
        ) == "edge("@ + crate::explain::literal::address_spelling(resource.as_address()) + " × "@
            + "an amount"@ + ")"@,
        ("edge("@ + crate::explain::literal::address_spelling(resource.as_address())
            + " × ["@).is_prefix_of(
            crate::explain::literal::value_spelling(
                Value::Bucket { resource, content: EdgeContent::NonFungible { ids } },
            ),
        ),
        0 <= i < ids@.len() ==> crate::explain::content::shows(
            crate::explain::literal::value_spelling(
                Value::Bucket { resource, content: EdgeContent::NonFungible { ids } },
            ),
            crate::text::decimal_text(ids@[i] as nat),
        ),
{
    let text = crate::explain::literal::value_spelling(
        Value::Bucket { resource, content: EdgeContent::NonFungible { ids } },
    );
    let named = crate::explain::literal::address_spelling(resource.as_address());
    let parts = crate::explain::literal::numbers_spelling(ids@);
    let list = crate::text::joined_text(parts, ", "@);
    reveal_strlit(" × [");
    reveal_strlit(" × ");
    reveal_strlit("[");
    assert(" × "@ + "["@ =~= " × ["@);
    let lead = "edge("@ + named + " × ["@;
    assert(text =~= "edge("@ + named + (" × "@ + "["@) + list + "]"@ + ")"@);
    assert(text =~= lead + list + ("]"@ + ")"@));
    assert(text.subrange(0, lead.len() as int) =~= lead);
    if 0 <= i < ids@.len() {
        crate::explain::content::lemma_list_shows(parts, ", "@, i);
        crate::explain::content::lemma_shows(lead, list, "]"@ + ")"@);
        crate::explain::content::lemma_shows_within(text, list, parts[i]);
    }
}

/// A tuple and a list show everything they hold, a tuple in round brackets
/// and a list in square ones.
pub proof fn law_values_show_what_they_hold(parts: Vec<Value>, i: int)
    requires
        0 <= i < parts@.len(),
    ensures
        ({
            let tuple = crate::explain::literal::value_spelling(Value::Tuple(parts));
            let list = crate::explain::literal::value_spelling(Value::List(parts));
            let part = crate::explain::literal::value_spelling(parts@[i]);
            &&& crate::explain::content::shows(tuple, part)
            &&& crate::explain::content::shows(list, part)
            &&& "("@.is_prefix_of(tuple) && ")"@.is_suffix_of(tuple)
            &&& "["@.is_prefix_of(list) && "]"@.is_suffix_of(list)
        }),
{
    let tuple = crate::explain::literal::value_spelling(Value::Tuple(parts));
    let list = crate::explain::literal::value_spelling(Value::List(parts));
    let texts = crate::explain::literal::value_spellings(parts@);
    let run = crate::text::joined_text(texts, ", "@);
    assert(texts[i] == crate::explain::literal::value_spelling(parts@[i]));
    crate::explain::content::lemma_list_shows(texts, ", "@, i);
    crate::explain::content::lemma_shows("("@, run, ")"@);
    crate::explain::content::lemma_shows("["@, run, "]"@);
    crate::explain::content::lemma_shows_within(tuple, run, texts[i]);
    crate::explain::content::lemma_shows_within(list, run, texts[i]);
}

/// Bytes read as text where they are text with nothing unprintable in it,
/// and byte by byte in hexadecimal otherwise.
pub proof fn law_bytes_read_as_text_where_they_are(raw: Seq<u8>)
    ensures
        ({
            let text = crate::explain::literal::bytes_spelling(raw);
            let decoded = vstd::utf8::decode_utf8(raw);
            let printable = vstd::utf8::valid_utf8(raw) && decoded.len() > 0 && forall|i: int|
                0 <= i < decoded.len() ==> !((#[trigger] decoded[i]) as int <= 0x1f || 0x7f
                    <= decoded[i] as int <= 0x9f);
            &&& printable ==> text == crate::text::quoted_text(decoded)
            &&& !printable ==> text == "0x"@ + crate::text::hex_text(raw)
        }),
{
    let decoded = vstd::utf8::decode_utf8(raw);
    assert(forall|i: int|
        0 <= i < decoded.len() ==> crate::text::is_control_code(#[trigger] decoded[i]) == (
        decoded[i] as int <= 0x1f || 0x7f <= decoded[i] as int <= 0x9f));
}

/// A layout reads as it is, each plain one by its own word, and one made
/// of others around them.
pub proof fn law_layouts_read_as_they_are(
    width: u32,
    inner: Box<TypeShape>,
    other: Box<TypeShape>,
    name: String,
)
    ensures
        crate::explain::literal::shape_spelling(TypeShape::Bool) == "bool"@,
        crate::explain::literal::shape_spelling(TypeShape::U8) == "u8"@,
        crate::explain::literal::shape_spelling(TypeShape::U16) == "u16"@,
        crate::explain::literal::shape_spelling(TypeShape::U32) == "u32"@,
        crate::explain::literal::shape_spelling(TypeShape::U64) == "u64"@,
        crate::explain::literal::shape_spelling(TypeShape::U128) == "u128"@,
        crate::explain::literal::shape_spelling(TypeShape::I8) == "i8"@,
        crate::explain::literal::shape_spelling(TypeShape::I16) == "i16"@,
        crate::explain::literal::shape_spelling(TypeShape::I32) == "i32"@,
        crate::explain::literal::shape_spelling(TypeShape::I64) == "i64"@,
        crate::explain::literal::shape_spelling(TypeShape::I128) == "i128"@,
        crate::explain::literal::shape_spelling(TypeShape::Text) == "text"@,
        crate::explain::literal::shape_spelling(TypeShape::ByteArray(width)) == "[u8; "@
            + crate::text::decimal_text(width as nat) + "]"@,
        crate::explain::literal::shape_spelling(TypeShape::List(inner)) == "["@
            + crate::explain::literal::shape_spelling(*inner) + "]"@,
        crate::explain::literal::shape_spelling(TypeShape::Distinct(inner)) == "set["@
            + crate::explain::literal::shape_spelling(*inner) + "]"@,
        crate::explain::literal::shape_spelling(TypeShape::Pairs { key: inner, value: other })
            == "map["@ + crate::explain::literal::shape_spelling(*inner) + " → "@
            + crate::explain::literal::shape_spelling(*other) + "]"@,
        crate::explain::literal::shape_spelling(TypeShape::Maybe(inner))
            == crate::explain::literal::shape_spelling(*inner) + "?"@,
        crate::explain::literal::shape_spelling(TypeShape::Ref(name)) == name@,
{
}

/// A struct shows every field by its name and layout, an enum every
/// variant by its number, name and content, and a tuple every part.
pub proof fn law_layouts_show_what_they_hold(
    fields: Vec<crate::shape::ShapeField>,
    variants: Vec<crate::shape::ShapeVariant>,
    parts: Vec<TypeShape>,
    i: int,
)
    ensures
        0 <= i < fields@.len() ==> crate::explain::content::shows(
            crate::explain::literal::shape_spelling(TypeShape::Struct(fields)),
            fields@[i].name@ + ": "@ + crate::explain::literal::shape_spelling(fields@[i].shape),
        ),
        0 <= i < variants@.len() ==> crate::explain::content::shows(
            crate::explain::literal::shape_spelling(TypeShape::Enum(variants)),
            crate::text::decimal_text(variants@[i].discriminant as nat) + " "@
                + variants@[i].name@ + crate::explain::literal::shape_spelling(
                variants@[i].content,
            ),
        ),
        0 <= i < parts@.len() ==> crate::explain::content::shows(
            crate::explain::literal::shape_spelling(TypeShape::Tuple(parts)),
            crate::explain::literal::shape_spelling(parts@[i]),
        ),
{
    if 0 <= i < fields@.len() {
        let texts = crate::explain::literal::field_spellings(fields@);
        let run = crate::text::joined_text(texts, ", "@);
        crate::explain::content::lemma_list_shows(texts, ", "@, i);
        crate::explain::content::lemma_shows("{ "@, run, " }"@);
        crate::explain::content::lemma_shows_within("{ "@ + run + " }"@, run, texts[i]);
    }
    if 0 <= i < variants@.len() {
        let texts = crate::explain::literal::variant_spellings(variants@);
        let run = crate::text::joined_text(texts, " | "@);
        crate::explain::content::lemma_list_shows(texts, " | "@, i);
        crate::explain::content::lemma_shows("< "@, run, " >"@);
        crate::explain::content::lemma_shows_within("< "@ + run + " >"@, run, texts[i]);
    }
    if 0 <= i < parts@.len() {
        let texts = crate::explain::literal::shape_spellings(parts@);
        let run = crate::text::joined_text(texts, ", "@);
        crate::explain::content::lemma_list_shows(texts, ", "@, i);
        crate::explain::content::lemma_shows("("@, run, ")"@);
        crate::explain::content::lemma_shows_within("("@ + run + ")"@, run, texts[i]);
    }
}

/// An evaluated target reads as what it reaches: a leaf by its key, an
/// entry by its collection and order, an interval by its collection, both
/// ends unless they are the whole order space, and its cap.
pub proof fn law_evaluated_targets_read_as_they_reach(target: EffectTarget)
    ensures
        ({
            let text = crate::explain::literal::target_spelling(target);
            match target {
                EffectTarget::Point(key) => text == crate::explain::literal::address_spelling(
                    key.owner,
                ) + "/"@ + crate::text::hex_text(key.local.0@),
                EffectTarget::Entry { owner, collection, order } => text
                    == crate::explain::literal::address_spelling(owner) + "'s collection "@
                    + crate::text::hex_text(collection.0@) + " at "@ + crate::text::decimal_text(
                    order as nat,
                ),
                EffectTarget::Range { owner, collection, lo, hi, cap } => text == (
                crate::explain::literal::address_spelling(owner) + "'s collection "@
                    + crate::text::hex_text(collection.0@) + " over "@) + (if lo == 0 && hi
                    == u128::MAX {
                    "the whole order space"@
                } else {
                    crate::text::decimal_text(lo as nat) + "..="@ + crate::text::decimal_text(
                        hi as nat,
                    )
                }) + (", at most "@ + crate::text::decimal_text(cap as nat) + " entries"@),
            }
        }),
{
}

/// A package's tables list every slot of its state by number, name, kind
/// and what it holds; every configured field, event and error by its place
/// and name; and every type it names with its layout.
#[verifier::rlimit(60)]
pub proof fn law_tables_list_every_row(lexicon: Lexicon, i: int)
    ensures
        ({
            let text = lexicon.tables();
            let rows = lexicon.metadata.state.listed();
            let types = lexicon.metadata.types.held();
            &&& 0 <= i < rows.len() ==> crate::explain::content::shows(
                text,
                "  "@ + crate::text::right_text(crate::text::decimal_text(rows[i].0.0 as nat), 5)
                    + "  "@ + rows[i].1.name@ + " — "@
                    + crate::explain::literal::slot_kind_spelling(rows[i].1.kind),
            )
            &&& 0 <= i < lexicon.metadata.config@.len() ==> crate::explain::content::shows(
                text,
                row_of(i, lexicon.metadata.config@[i]@),
            )
            &&& 0 <= i < lexicon.metadata.events@.len() ==> crate::explain::content::shows(
                text,
                row_of(i, lexicon.metadata.events@[i]@),
            )
            &&& 0 <= i < lexicon.metadata.errors@.len() ==> crate::explain::content::shows(
                text,
                row_of(i, lexicon.metadata.errors@[i]@),
            )
            &&& 0 <= i < types.len() && types[i].name is Some ==> crate::explain::content::shows(
                text,
                "  "@ + types[i].name->Some_0@ + " = "@ + crate::explain::literal::shape_spelling(
                    types[i].shape,
                ) + "\n"@,
            )
        }),
{
    let state = lexicon.metadata.state.listed();
    let types = lexicon.metadata.types.held();
    let one = if state.len() == 0 {
        Seq::<char>::empty()
    } else {
        "state\n"@ + crate::text::run_on(lexicon.state_lines(state))
    };
    let two = crate::explain::package::name_table_spelling(
        "config"@,
        lexicon.metadata.config@,
    );
    let three = if lexicon.census.len() == 0 {
        Seq::<char>::empty()
    } else {
        "resources\n"@ + crate::text::run_on(
            crate::explain::package::resource_lines(lexicon.census),
        )
    };
    let four = crate::explain::package::name_table_spelling(
        "events"@,
        lexicon.metadata.events@,
    );
    let five = crate::explain::package::name_table_spelling(
        "errors"@,
        lexicon.metadata.errors@,
    );
    let six = if crate::explain::package::any_named(types) {
        "types\n"@ + crate::text::run_on(crate::explain::package::type_lines(types))
    } else {
        Seq::<char>::empty()
    };
    let text = lexicon.tables();
    assert(text == one + two + three + four + five + six);
    lemma_six_show(one, two, three, four, five, six);
    if 0 <= i < state.len() {
        let lines = lexicon.state_lines(state);
        let said = "  "@ + crate::text::right_text(
            crate::text::decimal_text(state[i].0.0 as nat),
            5,
        ) + "  "@ + state[i].1.name@ + " — "@ + crate::explain::literal::slot_kind_spelling(
            state[i].1.kind,
        );
        let rest = lines[i].skip(said.len() as int);
        assert(lines[i] =~= Seq::<char>::empty() + said + rest);
        crate::explain::content::lemma_shows(Seq::empty(), said, rest);
        lemma_titled("state\n"@, lines, i);
        crate::explain::content::lemma_shows_within(text, one, lines[i]);
        crate::explain::content::lemma_shows_within(text, lines[i], said);
    }
    lemma_named_row("config"@, lexicon.metadata.config@, i);
    lemma_named_row("events"@, lexicon.metadata.events@, i);
    lemma_named_row("errors"@, lexicon.metadata.errors@, i);
    if 0 <= i < lexicon.metadata.config@.len() {
        crate::explain::content::lemma_shows_within(
            text,
            two,
            row_of(i, lexicon.metadata.config@[i]@),
        );
    }
    if 0 <= i < lexicon.metadata.events@.len() {
        crate::explain::content::lemma_shows_within(
            text,
            four,
            row_of(i, lexicon.metadata.events@[i]@),
        );
    }
    if 0 <= i < lexicon.metadata.errors@.len() {
        crate::explain::content::lemma_shows_within(
            text,
            five,
            row_of(i, lexicon.metadata.errors@[i]@),
        );
    }
    if 0 <= i < types.len() && types[i].name is Some {
        assert(crate::explain::package::any_named(types));
        let lines = crate::explain::package::type_lines(types);
        lemma_titled("types\n"@, lines, i);
        crate::explain::content::lemma_shows_within(text, six, lines[i]);
    }
}

/// A row of a table of names: its place, then the name.
pub open spec fn row_of(place: int, name: Seq<char>) -> Seq<char> {
    "  "@ + crate::text::right_text(crate::text::decimal_text(place as nat), 5) + "  "@ + name
        + "\n"@
}

/// A table of names shows every row.
proof fn lemma_named_row(title: Seq<char>, names: Seq<String>, i: int)
    ensures
        0 <= i < names.len() ==> crate::explain::content::shows(
            crate::explain::package::name_table_spelling(title, names),
            row_of(i, names[i]@),
        ),
{
    if 0 <= i < names.len() {
        let lines = crate::explain::package::name_lines(names);
        lemma_titled(title + "\n"@, lines, i);
        assert(lines[i] == row_of(i, names[i]@));
    }
}

/// A titled run shows every line of it.
proof fn lemma_titled(title: Seq<char>, lines: Seq<Seq<char>>, i: int)
    requires
        0 <= i < lines.len(),
    ensures
        crate::explain::content::shows(title + crate::text::run_on(lines), lines[i]),
{
    let run = crate::text::run_on(lines);
    crate::explain::content::lemma_run_shows(lines, i);
    crate::explain::content::lemma_shows(title, run, Seq::empty());
    assert(title + run + Seq::<char>::empty() =~= title + run);
    crate::explain::content::lemma_shows_within(title + run, run, lines[i]);
}

/// Each of six texts stands in the six put together.
proof fn lemma_six_show(
    a: Seq<char>,
    b: Seq<char>,
    c: Seq<char>,
    d: Seq<char>,
    e: Seq<char>,
    f: Seq<char>,
)
    ensures
        ({
            let whole = a + b + c + d + e + f;
            &&& crate::explain::content::shows(whole, a)
            &&& crate::explain::content::shows(whole, b)
            &&& crate::explain::content::shows(whole, c)
            &&& crate::explain::content::shows(whole, d)
            &&& crate::explain::content::shows(whole, e)
            &&& crate::explain::content::shows(whole, f)
        }),
{
    let whole = a + b + c + d + e + f;
    let none = Seq::<char>::empty();
    assert(whole =~= none + a + (b + c + d + e + f));
    assert(whole =~= a + b + (c + d + e + f));
    assert(whole =~= (a + b) + c + (d + e + f));
    assert(whole =~= (a + b + c) + d + (e + f));
    assert(whole =~= (a + b + c + d) + e + f);
    assert(whole =~= (a + b + c + d + e) + f + none);
    crate::explain::content::lemma_shows(none, a, b + c + d + e + f);
    crate::explain::content::lemma_shows(a, b, c + d + e + f);
    crate::explain::content::lemma_shows(a + b, c, d + e + f);
    crate::explain::content::lemma_shows(a + b + c, d, e + f);
    crate::explain::content::lemma_shows(a + b + c + d, e, f);
    crate::explain::content::lemma_shows(a + b + c + d + e, f, none);
}

} // verus!
