//! The header by which the two ends of a stream agree on padding.

use http::header::{HeaderValue, InvalidHeaderValue};
use vstd::prelude::*;

use crate::random::{random_below, Draws};

verus! {

/// The name of the header, in requests and in responses.
pub const HEADER_NAME: &'static str = "padding";

/// The least number of characters in the header of a response.
pub const RESPONSE_HEADER_MIN_SIZE: usize = 30;

/// How many different numbers of characters a response can have.
pub const RESPONSE_HEADER_LENGTH_RANGE: usize = 33;

/// How many characters of a response are drawn at random.
pub const RESPONSE_HEADER_RANDOM_PREFIX_SIZE: usize = 16;

/// The characters that are drawn from: ``!#$()+<>?@[]^`{}``.
pub const HEADER_RANDOM_CHARACTERS: [u8; 16] = [
    0x21, 0x23, 0x24, 0x28, 0x29, 0x2b, 0x3c, 0x3e, 0x3f, 0x40, 0x5b, 0x5d, 0x5e, 0x60, 0x7b, 0x7d,
];

/// The character that fills up the header of a response.
pub const HEADER_TAIL_CHARACTER: u8 = 0x7e;

/// `http::header::HeaderValue`, the value of a header.
#[verifier::external_type_specification]
#[verifier::external_body]
pub struct ExHeaderValue(http::header::HeaderValue);

/// `http::header::InvalidHeaderValue`, a refusal to make a header's value.
#[verifier::external_type_specification]
#[verifier::external_body]
pub struct ExInvalidHeaderValue(http::header::InvalidHeaderValue);

/// The bytes of a header's value.
pub uninterp spec fn value_bytes(value: HeaderValue) -> Seq<u8>;

/// Whether a header's value is marked as sensitive.
pub uninterp spec fn value_sensitive(value: HeaderValue) -> bool;

/// A byte that may stand in a header's value: a tab, or one that is not a
/// control character.
pub open spec fn valid_in_value(byte: u8) -> bool {
    byte == 9 || byte >= 32 && byte != 127
}

/// `HeaderValue::from_bytes` makes a value of bytes that may all stand in one,
/// and refuses others. The value is not marked as sensitive.
pub assume_specification[ HeaderValue::from_bytes ](src: &[u8]) -> (result: Result<
    HeaderValue,
    InvalidHeaderValue,
>)
    ensures
        result is Ok <==> forall|i: int| 0 <= i < src@.len() ==> valid_in_value(#[trigger] src@[i]),
        result matches Ok(value) ==> value_bytes(value) == src@ && !value_sensitive(value),
;

/// `HeaderValue::set_sensitive` marks a value as sensitive, or removes the
/// mark, and leaves its bytes alone.
pub assume_specification[ HeaderValue::set_sensitive ](value: &mut HeaderValue, val: bool)
    ensures
        value_sensitive(*final(value)) == val,
        value_bytes(*final(value)) == value_bytes(*old(value)),
;

/// The characters of a response of `length` characters, where `choices` are
/// the positions of the first ones among the characters that are drawn from.
pub open spec fn response_characters(length: nat, choices: Seq<usize>) -> Seq<u8> {
    Seq::new(
        length,
        |i: int|
            if i < choices.len() {
                HEADER_RANDOM_CHARACTERS@[choices[i] as int]
            } else {
                HEADER_TAIL_CHARACTER
            },
    )
}

/// The characters that are drawn from are sixteen different ones, each of them
/// punctuation that may stand in a header's value, and none of them the one
/// that fills up: the end of the random prefix can be told from the filling.
pub proof fn law_random_characters()
    ensures
        HEADER_RANDOM_CHARACTERS@ == seq![
            33u8,
            35u8,
            36u8,
            40u8,
            41u8,
            43u8,
            60u8,
            62u8,
            63u8,
            64u8,
            91u8,
            93u8,
            94u8,
            96u8,
            123u8,
            125u8,
        ],
        forall|i: int, j: int|
            0 <= i < j < 16 ==> #[trigger] HEADER_RANDOM_CHARACTERS@[i]
                < #[trigger] HEADER_RANDOM_CHARACTERS@[j],
        forall|i: int|
            0 <= i < 16 ==> valid_in_value(#[trigger] HEADER_RANDOM_CHARACTERS@[i])
                && HEADER_RANDOM_CHARACTERS@[i] != HEADER_TAIL_CHARACTER,
{
}

/// Every value that a response may have: a random prefix, and `~` up to one of
/// the permitted lengths.
pub open spec fn is_response(characters: Seq<u8>) -> bool {
    &&& RESPONSE_HEADER_MIN_SIZE <= characters.len() < RESPONSE_HEADER_MIN_SIZE
        + RESPONSE_HEADER_LENGTH_RANGE
    &&& forall|i: int|
        0 <= i < RESPONSE_HEADER_RANDOM_PREFIX_SIZE ==> HEADER_RANDOM_CHARACTERS@.contains(
            #[trigger] characters[i],
        )
    &&& forall|i: int|
        RESPONSE_HEADER_RANDOM_PREFIX_SIZE <= i < characters.len() ==> #[trigger] characters[i]
            == HEADER_TAIL_CHARACTER
}

/// Makes the header of a response of `length` characters, the first of which
/// are those at `choices`.
pub fn response_header_from(length: usize, choices: &Vec<usize>) -> (value: HeaderValue)
    requires
        RESPONSE_HEADER_MIN_SIZE <= length < RESPONSE_HEADER_MIN_SIZE
            + RESPONSE_HEADER_LENGTH_RANGE,
        choices@.len() == RESPONSE_HEADER_RANDOM_PREFIX_SIZE,
        forall|i: int| 0 <= i < choices@.len() ==> #[trigger] choices@[i] < 16,
    ensures
        value_bytes(value) == response_characters(length as nat, choices@),
        value_bytes(value).len() == length,
        forall|i: int|
            0 <= i < 16 ==> #[trigger] value_bytes(value)[i]
                == HEADER_RANDOM_CHARACTERS@[choices@[i] as int],
        forall|i: int| 16 <= i < length ==> #[trigger] value_bytes(value)[i] == 0x7e,
        value_sensitive(value),
{
    let mut bytes: Vec<u8> = vec![HEADER_TAIL_CHARACTER; length];
    let mut i: usize = 0;
    while i < choices.len()
        invariant
            i <= choices@.len() == RESPONSE_HEADER_RANDOM_PREFIX_SIZE <= length,
            forall|j: int| 0 <= j < choices@.len() ==> #[trigger] choices@[j] < 16,
            bytes@.len() == length,
            bytes@ == response_characters(length as nat, choices@.take(i as int)),
        decreases choices@.len() - i,
    {
        bytes[i] = HEADER_RANDOM_CHARACTERS[choices[i]];
        i += 1;
        assert(bytes@ =~= response_characters(length as nat, choices@.take(i as int)));
    }
    assert(choices@.take(i as int) =~= choices@);
    let mut value = HeaderValue::from_bytes(bytes.as_slice()).expect(
        "the padding header contains only valid ASCII",
    );
    value.set_sensitive(true);
    value
}

/// Generates the server's padding negotiation header, and records in `draws`
/// what was drawn for it: how much longer than the least length it is, and the
/// position of each of its first characters among those that are drawn from.
pub fn response_header_drawn(draws: &mut Draws) -> (value: HeaderValue)
    ensures
        is_response(value_bytes(value)),
        value_sensitive(value),
        final(draws).id() == old(draws).id(),
        final(draws)@.len() == old(draws)@.len() + 17,
        final(draws)@.take(old(draws)@.len() as int) == old(draws)@,
        ({
            let made = final(draws)@.skip(old(draws)@.len() as int);
            &&& made[0].bound == 33
            &&& value_bytes(value).len() == 30 + made[0].value
            &&& forall|i: int| 1 <= i < 17 ==> (#[trigger] made[i]).bound == 16
            &&& forall|i: int|
                0 <= i < 16 ==> #[trigger] value_bytes(value)[i]
                    == HEADER_RANDOM_CHARACTERS@[made[i + 1].value]
            &&& forall|i: int|
                16 <= i < value_bytes(value).len() ==> #[trigger] value_bytes(value)[i] == 0x7e
        }),
{
    let ghost before = draws@;
    let extra: usize = random_below(draws, RESPONSE_HEADER_LENGTH_RANGE);
    let length: usize = RESPONSE_HEADER_MIN_SIZE + extra;
    let mut choices: Vec<usize> = Vec::new();
    while choices.len() < RESPONSE_HEADER_RANDOM_PREFIX_SIZE
        invariant
            before == old(draws)@,
            draws.id() == old(draws).id(),
            draws@.len() == before.len() + 1 + choices@.len(),
            draws@.take(before.len() as int) == before,
            draws@[before.len() as int].bound == 33,
            draws@[before.len() as int].value == extra,
            choices@.len() <= RESPONSE_HEADER_RANDOM_PREFIX_SIZE,
            forall|i: int| 0 <= i < choices@.len() ==> #[trigger] choices@[i] < 16,
            forall|i: int|
                before.len() < i < draws@.len() ==> (#[trigger] draws@[i]).bound == 16,
            forall|i: int|
                0 <= i < choices@.len() ==> #[trigger] choices@[i] == draws@[before.len() + 1
                    + i].value,
        decreases RESPONSE_HEADER_RANDOM_PREFIX_SIZE - choices@.len(),
    {
        let ghost so_far = draws@;
        let choice: usize = random_below(draws, HEADER_RANDOM_CHARACTERS.len());
        choices.push(choice);
        assert(draws@.take(before.len() as int) =~= so_far.take(before.len() as int));
    }
    let value = response_header_from(length, &choices);
    proof {
        let made = draws@.skip(before.len() as int);
        assert forall|i: int| 0 <= i < 16 implies #[trigger] value_bytes(value)[i]
            == HEADER_RANDOM_CHARACTERS@[made[i + 1].value] by {
            assert(choices@[i] == draws@[before.len() + 1 + i].value);
        }
        assert(made[0] == draws@[before.len() as int]);
    }
    value
}

/// Generates the server's padding negotiation header. Its length and its first
/// characters are drawn at random.
pub fn response_header() -> (value: HeaderValue)
    ensures
        is_response(value_bytes(value)),
        30 <= value_bytes(value).len() <= 62,
        forall|i: int|
            0 <= i < 16 ==> HEADER_RANDOM_CHARACTERS@.contains(#[trigger] value_bytes(value)[i]),
        forall|i: int|
            16 <= i < value_bytes(value).len() ==> #[trigger] value_bytes(value)[i] == 0x7e,
        value_sensitive(value),
{
    let mut draws = Draws::new();
    response_header_drawn(&mut draws)
}

} // verus!
