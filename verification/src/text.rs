//! Building the text a rendering is made of.
use vstd::prelude::*;
use vstd::string::StringExecFns;

use crate::types::U256;

verus! {

/// Two texts, one after the other.
pub fn cat2(a: &str, b: &str) -> (r: String)
    ensures
        r@ == a@ + b@,
{
    let mut r = a.to_owned();
    r.append(b);
    r
}

/// Three texts, one after the other.
pub fn cat3(a: &str, b: &str, c: &str) -> (r: String)
    ensures
        r@ == a@ + b@ + c@,
{
    let mut r = a.to_owned();
    r.append(b);
    r.append(c);
    r
}

/// Four texts, one after the other.
pub fn cat4(a: &str, b: &str, c: &str, d: &str) -> (r: String)
    ensures
        r@ == a@ + b@ + c@ + d@,
{
    let mut r = a.to_owned();
    r.append(b);
    r.append(c);
    r.append(d);
    r
}

/// Five texts, one after the other.
pub fn cat5(a: &str, b: &str, c: &str, d: &str, e: &str) -> (r: String)
    ensures
        r@ == a@ + b@ + c@ + d@ + e@,
{
    let mut r = a.to_owned();
    r.append(b);
    r.append(c);
    r.append(d);
    r.append(e);
    r
}

/// Six texts, one after the other.
pub fn cat6(a: &str, b: &str, c: &str, d: &str, e: &str, f: &str) -> (r: String)
    ensures
        r@ == a@ + b@ + c@ + d@ + e@ + f@,
{
    let mut r = a.to_owned();
    r.append(b);
    r.append(c);
    r.append(d);
    r.append(e);
    r.append(f);
    r
}

/// Texts one after the other, another between each two.
pub open spec fn joined_text(parts: Seq<Seq<char>>, between: Seq<char>) -> Seq<char>
    decreases parts.len(),
{
    if parts.len() == 0 {
        Seq::empty()
    } else if parts.len() == 1 {
        parts[0]
    } else {
        joined_text(parts.drop_last(), between) + between + parts.last()
    }
}

/// The texts a run of strings holds.
pub open spec fn texts(parts: Seq<String>) -> Seq<Seq<char>> {
    Seq::new(parts.len(), |i: int| parts[i]@)
}

/// Texts one after the other, another between each two.
pub fn join(parts: &Vec<String>, between: &str) -> (r: String)
    ensures
        r@ == joined_text(texts(parts@), between@),
{
    let ghost all = texts(parts@);
    if parts.len() == 0 {
        return String::new();
    }
    let mut r = parts[0].clone();
    let mut i: usize = 1;
    assert(all.take(1).len() == 1);
    while i < parts.len()
        invariant
            1 <= i <= parts.len(),
            all == texts(parts@),
            r@ == joined_text(all.take(i as int), between@),
        decreases parts.len() - i,
    {
        r.append(between);
        r.append(parts[i].as_str());
        proof {
            assert(all.take(i as int + 1).drop_last() =~= all.take(i as int));
            assert(all.take(i as int + 1).last() == parts@[i as int]@);
        }
        i = i + 1;
    }
    assert(all.take(i as int) =~= all);
    r
}

/// One decimal digit.
pub open spec fn digit_text(digit: nat) -> Seq<char> {
    if digit == 0 {
        "0"@
    } else if digit == 1 {
        "1"@
    } else if digit == 2 {
        "2"@
    } else if digit == 3 {
        "3"@
    } else if digit == 4 {
        "4"@
    } else if digit == 5 {
        "5"@
    } else if digit == 6 {
        "6"@
    } else if digit == 7 {
        "7"@
    } else if digit == 8 {
        "8"@
    } else {
        "9"@
    }
}

/// One decimal digit.
fn digit(value: u8) -> (r: &'static str)
    requires
        value < 10,
    ensures
        r@ == digit_text(value as nat),
{
    match value {
        0 => "0",
        1 => "1",
        2 => "2",
        3 => "3",
        4 => "4",
        5 => "5",
        6 => "6",
        7 => "7",
        8 => "8",
        _ => "9",
    }
}

/// A number in decimal, with no leading zero.
pub open spec fn decimal_text(number: nat) -> Seq<char>
    decreases number,
{
    if number < 10 {
        digit_text(number)
    } else {
        decimal_text(number / 10) + digit_text(number % 10)
    }
}

/// A number in decimal, with no leading zero.
pub fn decimal(number: u128) -> (r: String)
    ensures
        r@ == decimal_text(number as nat),
    decreases number,
{
    if number < 10 {
        digit(number as u8).to_owned()
    } else {
        let mut r = decimal(number / 10);
        r.append(digit((number % 10) as u8));
        r
    }
}

/// A 256-bit number in decimal, with no leading zero.
pub fn u256_decimal(number: U256) -> (r: String)
    ensures
        r@ == decimal_text(number.number()),
    decreases number.number(),
{
    if number.hi == 0 {
        return decimal(number.lo);
    }
    // The upper half leaves a remainder below ten, and each of those is
    // worth two to the hundred-and-twenty-eighth in the lower half: ten
    // times this, and six over.
    let tenth: u128 = 34028236692093846346337460743176821145;
    let hi = number.hi / 10;
    let carried = number.hi % 10;
    let over = 6 * carried + number.lo % 10;
    proof {
        assert(number.number() == 10 * (hi * 0x1_0000_0000_0000_0000_0000_0000_0000_0000nat + (
        carried * tenth + number.lo / 10 + over / 10)) + over % 10);
    }
    let lo = carried * tenth + number.lo / 10 + over / 10;
    let rest = U256 { hi, lo };
    let mut r = u256_decimal(rest);
    r.append(digit((over % 10) as u8));
    r
}

/// One hexadecimal digit.
pub open spec fn nibble_text(value: nat) -> Seq<char> {
    if value < 10 {
        digit_text(value)
    } else if value == 10 {
        "a"@
    } else if value == 11 {
        "b"@
    } else if value == 12 {
        "c"@
    } else if value == 13 {
        "d"@
    } else if value == 14 {
        "e"@
    } else {
        "f"@
    }
}

/// One hexadecimal digit.
fn nibble(value: u8) -> (r: &'static str)
    requires
        value < 16,
    ensures
        r@ == nibble_text(value as nat),
{
    match value {
        10 => "a",
        11 => "b",
        12 => "c",
        13 => "d",
        14 => "e",
        15 => "f",
        _ => digit(value),
    }
}

/// Bytes in lowercase hexadecimal, two digits each, with no separator.
pub open spec fn hex_text(raw: Seq<u8>) -> Seq<char>
    decreases raw.len(),
{
    if raw.len() == 0 {
        Seq::empty()
    } else {
        hex_text(raw.drop_last()) + nibble_text(raw.last() as nat / 16) + nibble_text(
            raw.last() as nat % 16,
        )
    }
}

/// Lowercase hex, with no separator.
pub fn hex(raw: &[u8]) -> (r: String)
    ensures
        r@ == hex_text(raw@),
{
    let mut r = String::new();
    let mut i: usize = 0;
    assert(raw@.take(0) =~= Seq::empty());
    while i < raw.len()
        invariant
            i <= raw.len(),
            r@ == hex_text(raw@.take(i as int)),
        decreases raw.len() - i,
    {
        r.append(nibble(raw[i] / 16));
        r.append(nibble(raw[i] % 16));
        proof {
            assert(raw@.take(i as int + 1).drop_last() =~= raw@.take(i as int));
            assert(raw@.take(i as int + 1).last() == raw@[i as int]);
        }
        i = i + 1;
    }
    assert(raw@.take(i as int) =~= raw@);
    r
}

/// Blanks, this many.
pub open spec fn blanks_text(count: nat) -> Seq<char>
    decreases count,
{
    if count == 0 {
        Seq::empty()
    } else {
        blanks_text((count - 1) as nat) + " "@
    }
}

/// Blanks, this many.
pub fn blanks(count: usize) -> (r: String)
    ensures
        r@ == blanks_text(count as nat),
{
    let mut r = String::new();
    let mut i: usize = 0;
    while i < count
        invariant
            i <= count,
            r@ == blanks_text(i as nat),
        decreases count - i,
    {
        r.append(" ");
        i = i + 1;
    }
    r
}

/// Text standing at the right of a field this wide.
pub open spec fn right_text(text: Seq<char>, width: nat) -> Seq<char> {
    if text.len() >= width {
        text
    } else {
        blanks_text((width - text.len()) as nat) + text
    }
}

/// Text standing at the right of a field this wide.
pub fn to_the_right(text: &str, width: usize) -> (r: String)
    ensures
        r@ == right_text(text@, width as nat),
{
    let len = text.unicode_len();
    if len >= width {
        return text.to_owned();
    }
    let mut r = blanks(width - len);
    r.append(text);
    r
}

/// Text standing at the left of a field this wide.
pub open spec fn left_text(text: Seq<char>, width: nat) -> Seq<char> {
    if text.len() >= width {
        text
    } else {
        text + blanks_text((width - text.len()) as nat)
    }
}

/// Text standing at the left of a field this wide.
pub fn to_the_left(text: &str, width: usize) -> (r: String)
    ensures
        r@ == left_text(text@, width as nat),
{
    let len = text.unicode_len();
    if len >= width {
        return text.to_owned();
    }
    cat2(text, blanks(width - len).as_str())
}

/// Whether two texts are the same text.
pub fn same_text(left: &str, right: &str) -> (r: bool)
    ensures
        r == (left@ == right@),
{
    left.to_owned() == right.to_owned()
}

/// Texts one after the other, with nothing between.
pub open spec fn run_on(parts: Seq<Seq<char>>) -> Seq<char>
    decreases parts.len(),
{
    if parts.len() == 0 {
        Seq::empty()
    } else {
        run_on(parts.drop_last()) + parts.last()
    }
}

/// Texts one after the other, with nothing between.
pub fn concat(parts: &Vec<String>) -> (r: String)
    ensures
        r@ == run_on(texts(parts@)),
{
    let ghost all = texts(parts@);
    let mut r = String::new();
    let mut i: usize = 0;
    while i < parts.len()
        invariant
            i <= parts.len(),
            all == texts(parts@),
            r@ == run_on(all.take(i as int)),
        decreases parts.len() - i,
    {
        r.append(parts[i].as_str());
        proof {
            assert(all.take(i as int + 1).drop_last() =~= all.take(i as int));
            assert(all.take(i as int + 1).last() == parts@[i as int]@);
        }
        i = i + 1;
    }
    assert(all.take(i as int) =~= all);
    r
}

/// Whether a character is a control code.
pub open spec fn is_control_code(c: char) -> bool {
    c as int <= 0x1F || 0x7F <= c as int <= 0x9F
}

/// Whether text is there, and none of it a control code.
pub open spec fn is_printed(text: Seq<char>) -> bool {
    text.len() > 0 && forall|i: int|
        0 <= i < text.len() ==> !is_control_code(#[trigger] text[i])
}

/// Whether text is there, and none of it a control code.
pub fn prints(text: &str) -> (r: bool)
    ensures
        r == is_printed(text@),
{
    let len = text.unicode_len();
    let mut i: usize = 0;
    while i < len
        invariant
            i <= len,
            len == text@.len(),
            forall|j: int| 0 <= j < i ==> !is_control_code(#[trigger] text@[j]),
        decreases len - i,
    {
        let c = text.get_char(i) as u32;
        if c <= 0x1F || (0x7F <= c && c <= 0x9F) {
            assert(is_control_code(text@[i as int]));
            return false;
        }
        i = i + 1;
    }
    len > 0
}

/// Whether a character is whitespace.
pub open spec fn is_blank(c: char) -> bool {
    let code = c as int;
    ||| 0x09 <= code <= 0x0D
    ||| code == 0x20
    ||| code == 0x85
    ||| code == 0xA0
    ||| code == 0x1680
    ||| 0x2000 <= code <= 0x200A
    ||| code == 0x2028
    ||| code == 0x2029
    ||| code == 0x202F
    ||| code == 0x205F
    ||| code == 0x3000
}

/// Text without the whitespace it ends in.
pub open spec fn trimmed_text(text: Seq<char>) -> Seq<char>
    decreases text.len(),
{
    if text.len() > 0 && is_blank(text.last()) {
        trimmed_text(text.drop_last())
    } else {
        text
    }
}

/// Text without the whitespace it ends in.
pub fn trimmed(text: &str) -> (r: String)
    ensures
        r@ == trimmed_text(text@),
{
    let mut len = text.unicode_len();
    assert(text@.take(len as int) =~= text@);
    while len > 0
        invariant
            len <= text@.len(),
            trimmed_text(text@.take(len as int)) == trimmed_text(text@),
        decreases len,
    {
        let ghost kept = text@.take(len as int);
        let c = text.get_char(len - 1) as u32;
        let blank = (0x09 <= c && c <= 0x0D) || c == 0x20 || c == 0x85 || c == 0xA0 || c == 0x1680
            || (0x2000 <= c && c <= 0x200A) || c == 0x2028 || c == 0x2029 || c == 0x202F || c
            == 0x205F || c == 0x3000;
        assert(kept.last() == text@[len as int - 1]);
        assert(kept.drop_last() =~= text@.take(len as int - 1));
        if !blank {
            assert(text@.subrange(0, len as int) =~= kept);
            return text.substring_char(0, len).to_owned();
        }
        len = len - 1;
    }
    assert(text@.take(0) =~= Seq::empty());
    String::new()
}

/// Text as a string literal: in quotation marks, and escaped.
///
/// A name for what `str`'s `Debug` writes.
pub uninterp spec fn quoted_text(text: Seq<char>) -> Seq<char>;

/// Text as a string literal: in quotation marks, and escaped.
///
/// Rests on the standard `Debug` of `str`: what it writes depends on the
/// text alone. Which characters it escapes, and how, is not said here.
#[verifier::external_body]
pub(crate) fn quoted(text: &str) -> (r: String)
    ensures
        r@ == quoted_text(text@),
{
    format!("{text:?}")
}

/// The text bytes spell, where they spell any.
///
/// Rests on `core::str::from_utf8`: it answers for exactly the byte
/// strings that are valid UTF-8, and what it answers with is those bytes
/// decoded.
#[verifier::external_body]
pub(crate) fn utf8_text(raw: &[u8]) -> (r: Option<String>)
    ensures
        match r {
            Some(text) => vstd::utf8::valid_utf8(raw@) && text@ == vstd::utf8::decode_utf8(raw@),
            None => !vstd::utf8::valid_utf8(raw@),
        },
{
    core::str::from_utf8(raw).ok().map(str::to_owned)
}

/// Hexadecimal digits are one character each, and told apart.
proof fn lemma_nibble_text(left: nat, right: nat)
    requires
        left < 16,
        right < 16,
    ensures
        nibble_text(left).len() == 1,
        nibble_text(left) == nibble_text(right) ==> left == right,
{
    reveal_strlit("0");
    reveal_strlit("1");
    reveal_strlit("2");
    reveal_strlit("3");
    reveal_strlit("4");
    reveal_strlit("5");
    reveal_strlit("6");
    reveal_strlit("7");
    reveal_strlit("8");
    reveal_strlit("9");
    reveal_strlit("a");
    reveal_strlit("b");
    reveal_strlit("c");
    reveal_strlit("d");
    reveal_strlit("e");
    reveal_strlit("f");
    if nibble_text(left) == nibble_text(right) {
        assert(nibble_text(left)[0] == nibble_text(right)[0]);
    }
}

/// Two numbers that read alike in decimal are one number, and none reads
/// as nothing.
pub proof fn lemma_decimal_text(left: nat, right: nat)
    ensures
        decimal_text(left).len() > 0,
        decimal_text(left) == decimal_text(right) ==> left == right,
    decreases left,
{
    lemma_nibble_text(left % 10, right % 10);
    lemma_nibble_text(right % 10, left % 10);
    if left >= 10 {
        lemma_decimal_text(left / 10, right / 10);
    }
    if right >= 10 {
        lemma_decimal_something(right / 10);
    }
    let one = decimal_text(left);
    let two = decimal_text(right);
    assert(one.last() == nibble_text(left % 10)[0]);
    assert(two.last() == nibble_text(right % 10)[0]);
    if one == two {
        assert(nibble_text(left % 10) =~= nibble_text(right % 10));
        if left >= 10 && right >= 10 {
            assert(one.drop_last() =~= decimal_text(left / 10));
            assert(two.drop_last() =~= decimal_text(right / 10));
        }
    }
}

/// No number reads as nothing.
proof fn lemma_decimal_something(number: nat)
    ensures
        decimal_text(number).len() > 0,
{
    lemma_nibble_text(number % 10, 0);
}

/// Two byte strings that read alike in hexadecimal are one byte string,
/// two characters for each byte.
pub proof fn lemma_hex_text(left: Seq<u8>, right: Seq<u8>)
    ensures
        hex_text(left).len() == 2 * left.len(),
        hex_text(left) == hex_text(right) ==> left == right,
    decreases left.len(),
{
    if left.len() > 0 {
        lemma_hex_text(left.drop_last(), right.drop_last());
        let here = left.last() as nat;
        lemma_nibble_text(here / 16, 0);
        lemma_nibble_text(here % 16, 0);
        if right.len() > 0 && hex_text(left) == hex_text(right) {
            let there = right.last() as nat;
            lemma_nibble_text(there / 16, 0);
            lemma_nibble_text(there % 16, 0);
            let one = hex_text(left);
            let two = hex_text(right);
            let len = one.len() as int;
            assert(one.take(len - 2) =~= hex_text(left.drop_last()));
            assert(two.take(len - 2) =~= hex_text(right.drop_last()));
            assert(one[len - 2] == nibble_text(here / 16)[0]);
            assert(two[len - 2] == nibble_text(there / 16)[0]);
            assert(one[len - 1] == nibble_text(here % 16)[0]);
            assert(two[len - 1] == nibble_text(there % 16)[0]);
            assert(nibble_text(here / 16) =~= nibble_text(there / 16));
            assert(nibble_text(here % 16) =~= nibble_text(there % 16));
            lemma_nibble_text(here / 16, there / 16);
            lemma_nibble_text(here % 16, there % 16);
            assert(here == there);
            assert(left =~= left.drop_last().push(left.last()));
            assert(right =~= right.drop_last().push(right.last()));
        }
    }
    if left.len() == 0 && right.len() > 0 {
        let there = right.last() as nat;
        lemma_nibble_text(there / 16, 0);
        assert(hex_text(right).len() > 0);
    } else if left.len() == 0 {
        assert(left =~= right);
    }
}

} // verus!
