//! What holds of the wire codec: decoding undoes encoding, whatever follows
//! the message in the frame, and a frame decodes to a message only if it
//! starts with the bytes of that message.

use crate::errors::DecodeError;
use crate::messages::{ResponseView, SwapRequest};
use crate::models::CoinView;
use crate::wire::{
    coin_bytes, coins_bytes, parse_request, parse_response, request_bytes, request_tag,
    response_bytes, response_fits, take_coin, take_coins, take_text, take_u32, take_u64,
    text_bytes, text_fits,
};
use vstd::bytes::{
    lemma_auto_spec_u32_to_from_le_bytes, lemma_auto_spec_u64_to_from_le_bytes,
    spec_u32_to_le_bytes, spec_u64_to_le_bytes,
};
use vstd::prelude::*;
use vstd::utf8::{
    decode_utf8_encode_utf8, encode_utf8, encode_utf8_decode_utf8, encode_utf8_valid_utf8,
};

verus! {

/// Whether `bytes` holds exactly `part` from position `at` on.
pub open spec fn holds_at(bytes: Seq<u8>, at: int, part: Seq<u8>) -> bool {
    0 <= at && at + part.len() <= bytes.len() && bytes.subrange(at, at + part.len()) == part
}

/// Where two parts stand one after the other, each stands at its own place.
proof fn lemma_split(bytes: Seq<u8>, at: int, left: Seq<u8>, right: Seq<u8>)
    requires
        holds_at(bytes, at, left + right),
    ensures
        holds_at(bytes, at, left),
        holds_at(bytes, at + left.len(), right),
{
    let whole = left + right;
    assert(bytes.subrange(at, at + left.len()) =~= whole.subrange(0, left.len() as int));
    assert(whole.subrange(0, left.len() as int) =~= left);
    assert(bytes.subrange(at + left.len(), at + left.len() + right.len()) =~= whole.subrange(
        left.len() as int,
        whole.len() as int,
    ));
    assert(whole.subrange(left.len() as int, whole.len() as int) =~= right);
}

/// Two parts that stand one after the other stand there as one.
proof fn lemma_join(bytes: Seq<u8>, at: int, left: Seq<u8>, right: Seq<u8>)
    requires
        holds_at(bytes, at, left),
        holds_at(bytes, at + left.len(), right),
    ensures
        holds_at(bytes, at, left + right),
{
    let whole = left + right;
    assert(bytes.subrange(at, at + whole.len()) =~= bytes.subrange(at, at + left.len())
        + bytes.subrange(at + left.len(), at + left.len() + right.len()));
}

proof fn lemma_take_u32_at(bytes: Seq<u8>, at: int, value: u32)
    requires
        holds_at(bytes, at, spec_u32_to_le_bytes(value)),
    ensures
        take_u32(bytes, at) == Ok::<(u32, int), DecodeError>((value, at + 4)),
{
    lemma_auto_spec_u32_to_from_le_bytes();
}

proof fn lemma_take_u64_at(bytes: Seq<u8>, at: int, value: u64)
    requires
        holds_at(bytes, at, spec_u64_to_le_bytes(value)),
    ensures
        take_u64(bytes, at) == Ok::<(u64, int), DecodeError>((value, at + 8)),
        spec_u64_to_le_bytes(value).len() == 8,
{
    lemma_auto_spec_u64_to_from_le_bytes();
}

proof fn lemma_take_text_at(bytes: Seq<u8>, at: int, text: Seq<char>)
    requires
        text_fits(text),
        holds_at(bytes, at, text_bytes(text)),
    ensures
        take_text(bytes, at) == Ok::<(Seq<char>, int), DecodeError>(
            (text, at + text_bytes(text).len()),
        ),
{
    let raw = encode_utf8(text);
    let length = raw.len() as u64;
    lemma_split(bytes, at, spec_u64_to_le_bytes(length), raw);
    lemma_take_u64_at(bytes, at, length);
    encode_utf8_valid_utf8(text);
    encode_utf8_decode_utf8(text);
}

proof fn lemma_take_coin_at(bytes: Seq<u8>, at: int, entry: (Seq<char>, CoinView))
    requires
        text_fits(entry.0),
        text_fits(entry.1.symbol),
        holds_at(bytes, at, coin_bytes(entry)),
    ensures
        take_coin(bytes, at) == Ok::<((Seq<char>, CoinView), int), DecodeError>(
            (entry, at + coin_bytes(entry).len()),
        ),
{
    let b1 = text_bytes(entry.0);
    let b2 = spec_u64_to_le_bytes(entry.1.confidence);
    let b3 = spec_u64_to_le_bytes(entry.1.decimals);
    let b4 = spec_u64_to_le_bytes(entry.1.price);
    let b5 = text_bytes(entry.1.symbol);
    let b6 = spec_u64_to_le_bytes(entry.1.timestamp);
    lemma_split(bytes, at, b1 + b2 + b3 + b4 + b5, b6);
    lemma_split(bytes, at, b1 + b2 + b3 + b4, b5);
    lemma_split(bytes, at, b1 + b2 + b3, b4);
    lemma_split(bytes, at, b1 + b2, b3);
    lemma_split(bytes, at, b1, b2);
    let past_address = at + b1.len();
    lemma_take_text_at(bytes, at, entry.0);
    lemma_take_u64_at(bytes, past_address, entry.1.confidence);
    lemma_take_u64_at(bytes, past_address + 8, entry.1.decimals);
    lemma_take_u64_at(bytes, past_address + 16, entry.1.price);
    lemma_take_text_at(bytes, past_address + 24, entry.1.symbol);
    lemma_take_u64_at(bytes, past_address + 24 + b5.len(), entry.1.timestamp);
    let back = take_coin(bytes, at)->Ok_0.0;
    assert(back.1 == entry.1);
    assert(back == entry);
}

proof fn lemma_take_coins_at(bytes: Seq<u8>, at: int, coins: Seq<(Seq<char>, CoinView)>)
    requires
        forall|i: int|
            0 <= i < coins.len() ==> text_fits((#[trigger] coins[i]).0) && text_fits(
                coins[i].1.symbol,
            ),
        holds_at(bytes, at, coins_bytes(coins)),
    ensures
        take_coins(bytes, at, coins.len()) == Ok::<(Seq<(Seq<char>, CoinView)>, int), DecodeError>(
            (coins, at + coins_bytes(coins).len()),
        ),
    decreases coins.len(),
{
    if coins.len() == 0 {
        assert(coins =~= Seq::empty());
    } else {
        let init = coins.drop_last();
        let last = coins.last();
        lemma_split(bytes, at, coins_bytes(init), coin_bytes(last));
        assert forall|i: int| 0 <= i < init.len() implies text_fits((#[trigger] init[i]).0)
            && text_fits(init[i].1.symbol) by {
            assert(init[i] == coins[i]);
        }
        lemma_take_coins_at(bytes, at, init);
        lemma_take_coin_at(bytes, at + coins_bytes(init).len(), last);
        assert(init.push(last) =~= coins);
        assert(init.len() == (coins.len() - 1) as nat);
    }
}

/// Decoding undoes encoding: a frame that starts with the bytes of a
/// request decodes to that request, whatever follows them.
pub proof fn lemma_request_round_trip(message: SwapRequest, tail: Seq<u8>)
    ensures
        parse_request(request_bytes(message) + tail) == Ok::<SwapRequest, DecodeError>(message),
{
    let bytes = request_bytes(message) + tail;
    lemma_auto_spec_u32_to_from_le_bytes();
    assert(bytes.subrange(0, 4) =~= request_bytes(message));
    lemma_take_u32_at(bytes, 0, request_tag(message));
}

/// Decoding undoes encoding: a frame that starts with the bytes of a
/// response decodes to that response, whatever follows them.
pub proof fn lemma_response_round_trip(message: ResponseView, tail: Seq<u8>)
    requires
        response_fits(message),
    ensures
        parse_response(response_bytes(message) + tail) == Ok::<ResponseView, DecodeError>(message),
{
    let bytes = response_bytes(message) + tail;
    assert(bytes.subrange(0, response_bytes(message).len() as int) =~= response_bytes(message));
    lemma_auto_spec_u32_to_from_le_bytes();
    lemma_auto_spec_u64_to_from_le_bytes();
    match message {
        ResponseView::WhichToken(token) => {
            lemma_split(bytes, 0, spec_u32_to_le_bytes(0), text_bytes(token));
            lemma_take_u32_at(bytes, 0, 0);
            lemma_take_text_at(bytes, 4, token);
        },
        ResponseView::TokenPrice(coins) => {
            let count = coins.len() as u64;
            lemma_split(
                bytes,
                0,
                spec_u32_to_le_bytes(1) + spec_u64_to_le_bytes(count),
                coins_bytes(coins),
            );
            lemma_split(bytes, 0, spec_u32_to_le_bytes(1), spec_u64_to_le_bytes(count));
            lemma_take_u32_at(bytes, 0, 1);
            lemma_take_u64_at(bytes, 4, count);
            lemma_take_coins_at(bytes, 12, coins);
        },
    }
}

proof fn lemma_taken_u64(bytes: Seq<u8>, at: int)
    requires
        0 <= at,
        take_u64(bytes, at) is Ok,
    ensures
        take_u64(bytes, at)->Ok_0.1 == at + 8,
        holds_at(bytes, at, spec_u64_to_le_bytes(take_u64(bytes, at)->Ok_0.0)),
{
    lemma_auto_spec_u64_to_from_le_bytes();
    assert(bytes.subrange(at, at + 8).len() == 8);
}

proof fn lemma_taken_text(bytes: Seq<u8>, at: int)
    requires
        0 <= at,
        take_text(bytes, at) is Ok,
    ensures
        text_fits(take_text(bytes, at)->Ok_0.0),
        take_text(bytes, at)->Ok_0.1 == at + text_bytes(take_text(bytes, at)->Ok_0.0).len(),
        holds_at(bytes, at, text_bytes(take_text(bytes, at)->Ok_0.0)),
{
    lemma_taken_u64(bytes, at);
    lemma_auto_spec_u64_to_from_le_bytes();
    let length = take_u64(bytes, at)->Ok_0.0;
    let raw = bytes.subrange(at + 8, at + 8 + length);
    decode_utf8_encode_utf8(raw);
    lemma_join(bytes, at, spec_u64_to_le_bytes(length), raw);
}

proof fn lemma_taken_coin(bytes: Seq<u8>, at: int)
    requires
        0 <= at,
        take_coin(bytes, at) is Ok,
    ensures
        text_fits(take_coin(bytes, at)->Ok_0.0.0),
        text_fits(take_coin(bytes, at)->Ok_0.0.1.symbol),
        take_coin(bytes, at)->Ok_0.1 == at + coin_bytes(take_coin(bytes, at)->Ok_0.0).len(),
        holds_at(bytes, at, coin_bytes(take_coin(bytes, at)->Ok_0.0)),
{
    let entry = take_coin(bytes, at)->Ok_0.0;
    let b1 = text_bytes(entry.0);
    let b2 = spec_u64_to_le_bytes(entry.1.confidence);
    let b3 = spec_u64_to_le_bytes(entry.1.decimals);
    let b4 = spec_u64_to_le_bytes(entry.1.price);
    let b5 = text_bytes(entry.1.symbol);
    let b6 = spec_u64_to_le_bytes(entry.1.timestamp);
    lemma_auto_spec_u64_to_from_le_bytes();
    lemma_taken_text(bytes, at);
    let past_address = take_text(bytes, at)->Ok_0.1;
    lemma_taken_u64(bytes, past_address);
    lemma_taken_u64(bytes, past_address + 8);
    lemma_taken_u64(bytes, past_address + 16);
    lemma_taken_text(bytes, past_address + 24);
    let past_symbol = take_text(bytes, past_address + 24)->Ok_0.1;
    lemma_taken_u64(bytes, past_symbol);
    lemma_join(bytes, at, b1, b2);
    lemma_join(bytes, at, b1 + b2, b3);
    lemma_join(bytes, at, b1 + b2 + b3, b4);
    lemma_join(bytes, at, b1 + b2 + b3 + b4, b5);
    lemma_join(bytes, at, b1 + b2 + b3 + b4 + b5, b6);
}

proof fn lemma_taken_coins(bytes: Seq<u8>, at: int, count: nat)
    requires
        0 <= at <= bytes.len(),
        take_coins(bytes, at, count) is Ok,
    ensures
        take_coins(bytes, at, count)->Ok_0.0.len() == count,
        forall|i: int|
            0 <= i < count ==> text_fits((#[trigger] take_coins(bytes, at, count)->Ok_0.0[i]).0)
                && text_fits(take_coins(bytes, at, count)->Ok_0.0[i].1.symbol),
        take_coins(bytes, at, count)->Ok_0.1 == at + coins_bytes(
            take_coins(bytes, at, count)->Ok_0.0,
        ).len(),
        holds_at(bytes, at, coins_bytes(take_coins(bytes, at, count)->Ok_0.0)),
    decreases count,
{
    let coins = take_coins(bytes, at, count)->Ok_0.0;
    if count == 0 {
        assert(bytes.subrange(at, at) =~= Seq::<u8>::empty());
    } else {
        let before = (count - 1) as nat;
        lemma_taken_coins(bytes, at, before);
        let init = take_coins(bytes, at, before)->Ok_0.0;
        let p = take_coins(bytes, at, before)->Ok_0.1;
        lemma_taken_coin(bytes, p);
        let last = take_coin(bytes, p)->Ok_0.0;
        assert(coins == init.push(last));
        assert(coins.drop_last() =~= init);
        assert(coins.last() == last);
        lemma_join(bytes, at, coins_bytes(init), coin_bytes(last));
        assert forall|i: int| 0 <= i < count implies text_fits((#[trigger] coins[i]).0)
            && text_fits(coins[i].1.symbol) by {
            if i < before {
                assert(coins[i] == init[i]);
            }
        }
    }
}

/// A frame decodes to a request only if it starts with the bytes of that
/// request.
pub proof fn lemma_request_parse_is_encoding(bytes: Seq<u8>, message: SwapRequest)
    requires
        parse_request(bytes) == Ok::<SwapRequest, DecodeError>(message),
    ensures
        holds_at(bytes, 0, request_bytes(message)),
{
    lemma_auto_spec_u32_to_from_le_bytes();
    assert(bytes.subrange(0, 4).len() == 4);
}

/// A frame decodes to a response only if it starts with the bytes of that
/// response; and the lengths in such a response fit their fields.
pub proof fn lemma_response_parse_is_encoding(bytes: Seq<u8>, message: ResponseView)
    requires
        parse_response(bytes) == Ok::<ResponseView, DecodeError>(message),
    ensures
        response_fits(message),
        holds_at(bytes, 0, response_bytes(message)),
{
    lemma_auto_spec_u32_to_from_le_bytes();
    lemma_auto_spec_u64_to_from_le_bytes();
    assert(bytes.subrange(0, 4).len() == 4);
    let tag = take_u32(bytes, 0)->Ok_0.0;
    assert(holds_at(bytes, 0, spec_u32_to_le_bytes(tag)));
    match message {
        ResponseView::WhichToken(token) => {
            lemma_taken_text(bytes, 4);
            lemma_join(bytes, 0, spec_u32_to_le_bytes(0), text_bytes(token));
        },
        ResponseView::TokenPrice(coins) => {
            lemma_taken_u64(bytes, 4);
            let count = take_u64(bytes, 4)->Ok_0.0;
            lemma_taken_coins(bytes, 12, count as nat);
            lemma_join(bytes, 0, spec_u32_to_le_bytes(1), spec_u64_to_le_bytes(count));
            lemma_join(
                bytes,
                0,
                spec_u32_to_le_bytes(1) + spec_u64_to_le_bytes(count),
                coins_bytes(coins),
            );
        },
    }
}

} // verus!
