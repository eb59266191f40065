//! Slate identifiers and the text of transaction references.
//!
//! A slate id is a UUID, held as the 128-bit number that its sixteen bytes
//! spell in big-endian order.

use vstd::prelude::*;
use vstd::string::*;

verus! {

/// The number that `bytes` spell in big-endian order.
pub open spec fn be_value(bytes: Seq<u8>) -> nat
    decreases bytes.len(),
{
    if bytes.len() == 0 {
        0
    } else {
        be_value(bytes.drop_last()) * 256 + bytes.last() as nat
    }
}

/// The lower-case hexadecimal digit for `n`, where `0 <= n < 16`.
pub open spec fn hex_digit(n: int) -> char {
    "0123456789abcdef"@[n]
}

/// The `k`-th hexadecimal digit of `id`, counted from the most significant.
pub open spec fn nibble(id: u128, k: int) -> int {
    ((id >> ((4 * (31 - k)) as u128)) & 0xf) as int
}

/// How many hyphens stand before position `p` of a hyphenated UUID.
pub open spec fn hyphens_before(p: int) -> int {
    (if p > 8 { 1int } else { 0 }) + (if p > 13 { 1int } else { 0 })
        + (if p > 18 { 1int } else { 0 }) + (if p > 23 { 1int } else { 0 })
}

/// The hyphenated lower-case text of a UUID, in groups of 8, 4, 4, 4 and 12
/// digits.
pub open spec fn hyphenated(id: u128) -> Seq<char> {
    Seq::new(
        36,
        |p: int|
            if p == 8 || p == 13 || p == 18 || p == 23 {
                '-'
            } else {
                hex_digit(nibble(id, p - hyphens_before(p)))
            },
    )
}

/// The decimal digit for `n`, where `0 <= n < 10`.
pub open spec fn decimal_digit(n: int) -> char {
    "0123456789"@[n]
}

/// The decimal text of `n`, without leading zeros.
pub open spec fn decimal_text(n: nat) -> Seq<char>
    decreases n,
{
    if n < 10 {
        seq![decimal_digit(n as int)]
    } else {
        decimal_text(n / 10).push(decimal_digit((n % 10) as int))
    }
}

/// The text by which errors name a transaction: the log entry id where one
/// is given, else the slate id, else nothing.
pub open spec fn tx_ref_text(tx_id: Option<u32>, tx_slate_id: Option<u128>) -> Seq<char> {
    match tx_id {
        Some(id) => decimal_text(id as nat),
        None => match tx_slate_id {
            Some(slate_id) => hyphenated(slate_id),
            None => Seq::<char>::empty(),
        },
    }
}

/// The first fifteen bytes of the ids of a numbered sequence.
pub open spec fn sequence_prefix() -> Seq<u8> {
    seq![4u8, 54u8, 67u8, 12u8, 43u8, 2u8, 98u8, 76u8, 32u8, 50u8, 87u8, 5u8, 1u8, 33u8, 43u8]
}

/// The id with the given number in the numbered sequence.
pub open spec fn sequence_id(counter: u8) -> nat {
    be_value(sequence_prefix().push(counter))
}

/// The error of the `uuid` crate.
#[verifier::external_type_specification]
#[verifier::external_body]
pub struct ExUuidError(uuid::Error);

/// `uuid::Uuid::from_slice`, read as a number by `Uuid::as_u128`: succeeds
/// exactly on sixteen bytes, and then gives their big-endian value.
#[verifier::external_body]
fn uuid_from_slice(bytes: &[u8]) -> (r: Result<u128, uuid::Error>)
    ensures
        r is Ok <==> bytes@.len() == 16,
        r is Ok ==> r->Ok_0 as nat == be_value(bytes@),
{
    match uuid::Uuid::from_slice(bytes) {
        Ok(id) => Ok(id.as_u128()),
        Err(e) => Err(e),
    }
}

/// The `Display` text of the `uuid::Uuid` made by `Uuid::from_u128`: the
/// thirty-two lower-case hexadecimal digits of the number, most significant
/// first, with hyphens after the 8th, 12th, 16th and 20th.
#[verifier::external_body]
fn uuid_to_string(id: u128) -> (text: String)
    ensures
        text@ == hyphenated(id),
{
    uuid::Uuid::from_u128(id).to_string()
}

/// `uuid::Uuid::new_v4`, read as a number: sixteen bytes from the operating
/// system's random source, with the version set to 4 and the variant to
/// RFC 4122. It panics if the system cannot give random bytes.
#[verifier::external_body]
fn uuid_new_v4() -> (id: u128)
    ensures
        (id >> 76) & 0xf == 4,
        (id >> 62) & 0x3 == 2,
{
    uuid::Uuid::new_v4().as_u128()
}

/// Whether `id` carries the version and variant of a random UUID.
pub open spec fn is_random_id(id: u128) -> bool {
    (id >> 76) & 0xf == 4 && (id >> 62) & 0x3 == 2
}

/// Where new slates get their ids from.
#[derive(Clone, Copy, PartialEq, Eq, Structural, Debug)]
pub enum SlateIdSource {
    /// Ids are random UUIDs.
    Random,
    /// Ids are numbered: each one ends in the counter, which then advances
    /// and wraps after 255.
    Sequence { next: u8 },
}

/// The number that the first fifteen bytes of the ids of a numbered
/// sequence spell, with a zero byte after them.
pub const SEQUENCE_BASE: u128 = 0x0436430c2b02624c2032570501212b00;

proof fn lemma_be_value_push(bytes: Seq<u8>, b: u8)
    ensures
        be_value(bytes.push(b)) == be_value(bytes) * 256 + b as nat,
{
    assert(bytes.push(b).drop_last() =~= bytes);
}

/// The ids of a numbered sequence are the base plus the counter.
pub proof fn lemma_sequence_id(counter: u8)
    ensures
        sequence_id(counter) == SEQUENCE_BASE + counter,
{
    let s0 = Seq::<u8>::empty();
    let s1 = s0.push(4u8);
    lemma_be_value_push(s0, 4u8);
    assert(be_value(s1) == 4);
    let s2 = s1.push(54u8);
    lemma_be_value_push(s1, 54u8);
    assert(be_value(s2) == 1078);
    let s3 = s2.push(67u8);
    lemma_be_value_push(s2, 67u8);
    assert(be_value(s3) == 276035);
    let s4 = s3.push(12u8);
    lemma_be_value_push(s3, 12u8);
    assert(be_value(s4) == 70664972);
    let s5 = s4.push(43u8);
    lemma_be_value_push(s4, 43u8);
    assert(be_value(s5) == 18090232875);
    let s6 = s5.push(2u8);
    lemma_be_value_push(s5, 2u8);
    assert(be_value(s6) == 4631099616002);
    let s7 = s6.push(98u8);
    lemma_be_value_push(s6, 98u8);
    assert(be_value(s7) == 1185561501696610);
    let s8 = s7.push(76u8);
    lemma_be_value_push(s7, 76u8);
    assert(be_value(s8) == 303503744434332236);
    let s9 = s8.push(32u8);
    lemma_be_value_push(s8, 32u8);
    assert(be_value(s9) == 77696958575189052448);
    let s10 = s9.push(50u8);
    lemma_be_value_push(s9, 50u8);
    assert(be_value(s10) == 19890421395248397426738);
    let s11 = s10.push(87u8);
    lemma_be_value_push(s10, 87u8);
    assert(be_value(s11) == 5091947877183589741245015);
    let s12 = s11.push(5u8);
    lemma_be_value_push(s11, 5u8);
    assert(be_value(s12) == 1303538656558998973758723845);
    let s13 = s12.push(1u8);
    lemma_be_value_push(s12, 1u8);
    assert(be_value(s13) == 333705896079103737282233304321);
    let s14 = s13.push(33u8);
    lemma_be_value_push(s13, 33u8);
    assert(be_value(s14) == 85428709396250556744251725906209);
    let s15 = s14.push(43u8);
    lemma_be_value_push(s14, 43u8);
    assert(be_value(s15) == 21869749605440142526528441831989547);
    assert(s15 =~= sequence_prefix());
    lemma_be_value_push(sequence_prefix(), counter);
}

impl SlateIdSource {
    /// Gives the next id and advances the source.
    pub fn next_id(&mut self) -> (id: u128)
        ensures
            match *old(self) {
                SlateIdSource::Random => is_random_id(id) && *final(self) == *old(self),
                SlateIdSource::Sequence { next } => {
                    &&& id == SEQUENCE_BASE + next
                    &&& *final(self) == (SlateIdSource::Sequence {
                        next: if next == 255 {
                            0u8
                        } else {
                            (next + 1) as u8
                        },
                    })
                },
            },
    {
        match *self {
            SlateIdSource::Random => uuid_new_v4(),
            SlateIdSource::Sequence { next } => {
                let mut bytes: Vec<u8> = Vec::new();
                bytes.push(4);
                bytes.push(54);
                bytes.push(67);
                bytes.push(12);
                bytes.push(43);
                bytes.push(2);
                bytes.push(98);
                bytes.push(76);
                bytes.push(32);
                bytes.push(50);
                bytes.push(87);
                bytes.push(5);
                bytes.push(1);
                bytes.push(33);
                bytes.push(43);
                bytes.push(next);
                assert(bytes@ =~= sequence_prefix().push(next));
                proof {
                    lemma_sequence_id(next);
                }
                *self = SlateIdSource::Sequence { next: next.wrapping_add(1) };
                match uuid_from_slice(bytes.as_slice()) {
                    Ok(id) => id,
                    Err(_) => 0,
                }
            },
        }
    }
}

fn digit_str(d: u32) -> (s: &'static str)
    requires
        d < 10,
    ensures
        s@ == seq![decimal_digit(d as int)],
{
    proof {
        reveal_strlit("0123456789");
        reveal_strlit("0");
        reveal_strlit("1");
        reveal_strlit("2");
        reveal_strlit("3");
        reveal_strlit("4");
        reveal_strlit("5");
        reveal_strlit("6");
        reveal_strlit("7");
        reveal_strlit("8");
        reveal_strlit("9");
    }
    let s = if d == 0 {
        "0"
    } else if d == 1 {
        "1"
    } else if d == 2 {
        "2"
    } else if d == 3 {
        "3"
    } else if d == 4 {
        "4"
    } else if d == 5 {
        "5"
    } else if d == 6 {
        "6"
    } else if d == 7 {
        "7"
    } else if d == 8 {
        "8"
    } else {
        "9"
    };
    assert(s@ =~= seq![decimal_digit(d as int)]);
    s
}

/// The decimal text of a log entry id.
pub fn decimal_string(n: u32) -> (text: String)
    ensures
        text@ == decimal_text(n as nat),
    decreases n,
{
    if n < 10 {
        String::from_str(digit_str(n))
    } else {
        let mut text = decimal_string(n / 10);
        text.append(digit_str(n % 10));
        assert(text@ =~= decimal_text(n as nat));
        text
    }
}

/// The hyphenated text of a slate id.
pub fn slate_id_string(id: u128) -> (text: String)
    ensures
        text@ == hyphenated(id),
{
    uuid_to_string(id)
}

/// The text by which errors name a transaction.
pub fn tx_ref_string(tx_id: Option<u32>, tx_slate_id: Option<u128>) -> (text: String)
    ensures
        text@ == tx_ref_text(tx_id, tx_slate_id),
{
    match tx_id {
        Some(id) => decimal_string(id),
        None => match tx_slate_id {
            Some(slate_id) => slate_id_string(slate_id),
            None => String::new(),
        },
    }
}

} // verus!
