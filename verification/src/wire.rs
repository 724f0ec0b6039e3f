//! The wire codec: messages to and from the bytes of a binary frame.
//!
//! A message travels as the number of its variant, four bytes, followed by
//! the variant's fields in the order of their declaration. Every integer is
//! little-endian and of fixed width. A text is its length in bytes, eight
//! bytes, followed by its UTF-8 bytes. A report is the number of its
//! entries, eight bytes, followed by the entries. A real number travels as
//! the eight bytes of its bit pattern. Bytes that follow a complete message
//! are ignored.

use crate::errors::DecodeError;
use crate::messages::{ResponseView, SwapRequest, SwapResponse};
use crate::models::{entry_view, CoinView, TimeStamp, TokenInfoInnerResponse, TokenInfoResponse};
use vstd::bytes::{
    spec_u32_from_le_bytes, spec_u32_to_le_bytes, spec_u64_from_le_bytes, spec_u64_to_le_bytes,
    u32_from_le_bytes, u32_to_le_bytes, u64_from_le_bytes, u64_to_le_bytes,
};
use vstd::prelude::*;
use vstd::slice::{slice_subrange, slice_to_vec};
use vstd::string::StringSliceAdditionalSpecFns;
use vstd::utf8::{decode_utf8, encode_utf8, valid_utf8};

verus! {

// ---------------------------------------------------------------------------
// What the bytes of a message are
// ---------------------------------------------------------------------------
/// The bytes of a text: its length in bytes, then its UTF-8 bytes.
pub open spec fn text_bytes(text: Seq<char>) -> Seq<u8> {
    spec_u64_to_le_bytes(encode_utf8(text).len() as u64) + encode_utf8(text)
}

/// The bytes of one entry of a report.
pub open spec fn coin_bytes(entry: (Seq<char>, CoinView)) -> Seq<u8> {
    text_bytes(entry.0) + spec_u64_to_le_bytes(entry.1.confidence) + spec_u64_to_le_bytes(
        entry.1.decimals,
    ) + spec_u64_to_le_bytes(entry.1.price) + text_bytes(entry.1.symbol) + spec_u64_to_le_bytes(
        entry.1.timestamp,
    )
}

/// The bytes of the entries of a report, one after the other.
pub open spec fn coins_bytes(coins: Seq<(Seq<char>, CoinView)>) -> Seq<u8>
    decreases coins.len(),
{
    if coins.len() == 0 {
        Seq::empty()
    } else {
        coins_bytes(coins.drop_last()) + coin_bytes(coins.last())
    }
}

/// The number that stands for a request on the wire.
pub open spec fn request_tag(message: SwapRequest) -> u32 {
    match message {
        SwapRequest::WhichToken => 0,
        SwapRequest::ValidToken => 1,
        SwapRequest::RepeatedToken => 2,
        SwapRequest::TokenPrice => 3,
    }
}

/// The bytes of a request.
pub open spec fn request_bytes(message: SwapRequest) -> Seq<u8> {
    spec_u32_to_le_bytes(request_tag(message))
}

/// The bytes of a response.
pub open spec fn response_bytes(message: ResponseView) -> Seq<u8> {
    match message {
        ResponseView::WhichToken(token) => spec_u32_to_le_bytes(0) + text_bytes(token),
        ResponseView::TokenPrice(coins) => spec_u32_to_le_bytes(1) + spec_u64_to_le_bytes(
            coins.len() as u64,
        ) + coins_bytes(coins),
    }
}

/// A text whose length in bytes fits the length field.
pub open spec fn text_fits(text: Seq<char>) -> bool {
    encode_utf8(text).len() <= u64::MAX
}

/// A response whose lengths and counts fit their fields. Every response
/// that a machine can hold does.
pub open spec fn response_fits(message: ResponseView) -> bool {
    match message {
        ResponseView::WhichToken(token) => text_fits(token),
        ResponseView::TokenPrice(coins) => coins.len() <= u64::MAX && forall|i: int|
            0 <= i < coins.len() ==> text_fits((#[trigger] coins[i]).0) && text_fits(coins[i].1.symbol),
    }
}

// ---------------------------------------------------------------------------
// What a sequence of bytes decodes to
// ---------------------------------------------------------------------------
/// Reads four bytes at `at` as a number; gives the number and the position
/// after it.
pub open spec fn take_u32(bytes: Seq<u8>, at: int) -> Result<(u32, int), DecodeError> {
    if at + 4 <= bytes.len() {
        Ok((spec_u32_from_le_bytes(bytes.subrange(at, at + 4)), at + 4))
    } else {
        Err(DecodeError::UnexpectedEnd)
    }
}

/// Reads eight bytes at `at` as a number.
pub open spec fn take_u64(bytes: Seq<u8>, at: int) -> Result<(u64, int), DecodeError> {
    if at + 8 <= bytes.len() {
        Ok((spec_u64_from_le_bytes(bytes.subrange(at, at + 8)), at + 8))
    } else {
        Err(DecodeError::UnexpectedEnd)
    }
}

/// Reads a text at `at`: a length, then so many bytes, which must be UTF-8.
pub open spec fn take_text(bytes: Seq<u8>, at: int) -> Result<(Seq<char>, int), DecodeError> {
    match take_u64(bytes, at) {
        Err(e) => Err(e),
        Ok((length, start)) => {
            if start + length > bytes.len() {
                Err(DecodeError::UnexpectedEnd)
            } else if !valid_utf8(bytes.subrange(start, start + length)) {
                Err(DecodeError::InvalidText)
            } else {
                Ok((decode_utf8(bytes.subrange(start, start + length)), start + length))
            }
        },
    }
}

/// Reads one entry of a report at `at`.
pub open spec fn take_coin(bytes: Seq<u8>, at: int) -> Result<
    ((Seq<char>, CoinView), int),
    DecodeError,
> {
    match take_text(bytes, at) {
        Err(e) => Err(e),
        Ok((address, past_address)) => match take_u64(bytes, past_address) {
            Err(e) => Err(e),
            Ok((confidence, past_confidence)) => match take_u64(bytes, past_confidence) {
                Err(e) => Err(e),
                Ok((decimals, past_decimals)) => match take_u64(bytes, past_decimals) {
                    Err(e) => Err(e),
                    Ok((price, past_price)) => match take_text(bytes, past_price) {
                        Err(e) => Err(e),
                        Ok((symbol, past_symbol)) => match take_u64(bytes, past_symbol) {
                            Err(e) => Err(e),
                            Ok((timestamp, past_timestamp)) => Ok(
                                (
                                    (
                                        address,
                                        CoinView { confidence, decimals, price, symbol, timestamp },
                                    ),
                                    past_timestamp,
                                ),
                            ),
                        },
                    },
                },
            },
        },
    }
}

/// Reads `count` entries of a report, the first of them at `at`.
pub open spec fn take_coins(bytes: Seq<u8>, at: int, count: nat) -> Result<
    (Seq<(Seq<char>, CoinView)>, int),
    DecodeError,
>
    decreases count,
{
    if count == 0 {
        Ok((Seq::empty(), at))
    } else {
        match take_coins(bytes, at, (count - 1) as nat) {
            Err(e) => Err(e),
            Ok((init, p)) => match take_coin(bytes, p) {
                Err(e) => Err(e),
                Ok((coin, q)) => Ok((init.push(coin), q)),
            },
        }
    }
}

/// What a frame from the hub decodes to.
pub open spec fn parse_request(bytes: Seq<u8>) -> Result<SwapRequest, DecodeError> {
    match take_u32(bytes, 0) {
        Err(e) => Err(e),
        Ok((tag, _)) => {
            if tag == 0 {
                Ok(SwapRequest::WhichToken)
            } else if tag == 1 {
                Ok(SwapRequest::ValidToken)
            } else if tag == 2 {
                Ok(SwapRequest::RepeatedToken)
            } else if tag == 3 {
                Ok(SwapRequest::TokenPrice)
            } else {
                Err(DecodeError::UnknownVariant(tag))
            }
        },
    }
}

/// What a frame from an agent decodes to.
pub open spec fn parse_response(bytes: Seq<u8>) -> Result<ResponseView, DecodeError> {
    match take_u32(bytes, 0) {
        Err(e) => Err(e),
        Ok((tag, p)) => {
            if tag == 0 {
                match take_text(bytes, p) {
                    Err(e) => Err(e),
                    Ok((token, _)) => Ok(ResponseView::WhichToken(token)),
                }
            } else if tag == 1 {
                match take_u64(bytes, p) {
                    Err(e) => Err(e),
                    Ok((count, q)) => match take_coins(bytes, q, count as nat) {
                        Err(e) => Err(e),
                        Ok((coins, _)) => Ok(ResponseView::TokenPrice(coins)),
                    },
                }
            } else {
                Err(DecodeError::UnknownVariant(tag))
            }
        },
    }
}

// ---------------------------------------------------------------------------
// Encoding
// ---------------------------------------------------------------------------
/// Appends `source` to `out`.
fn append_bytes(out: &mut Vec<u8>, source: &[u8])
    ensures
        final(out)@ == old(out)@ + source@,
{
    let mut i: usize = 0;
    while i < source.len()
        invariant
            i <= source@.len(),
            out@ == old(out)@ + source@.subrange(0, i as int),
        decreases source@.len() - i,
    {
        out.push(source[i]);
        i += 1;
        assert(out@ =~= old(out)@ + source@.subrange(0, i as int));
    }
    assert(source@.subrange(0, source@.len() as int) =~= source@);
}

/// Appends the eight bytes of `value` to `out`.
fn put_u64(out: &mut Vec<u8>, value: u64)
    ensures
        final(out)@ == old(out)@ + spec_u64_to_le_bytes(value),
{
    let mut bytes = u64_to_le_bytes(value);
    out.append(&mut bytes);
}

/// Appends the bytes of `text` to `out`.
fn put_text(out: &mut Vec<u8>, text: &String)
    ensures
        final(out)@ == old(out)@ + text_bytes(text@),
        text_fits(text@),
{
    let raw = text.as_str().as_bytes();
    let length: usize = raw.len();
    put_u64(out, length as u64);
    append_bytes(out, raw);
    assert(out@ =~= old(out)@ + text_bytes(text@));
}

/// The frame that carries `message` to an agent.
pub fn encode_request(message: SwapRequest) -> (bytes: Vec<u8>)
    ensures
        bytes@ == request_bytes(message),
        bytes@.len() == 4,
{
    let tag: u32 = match message {
        SwapRequest::WhichToken => 0,
        SwapRequest::ValidToken => 1,
        SwapRequest::RepeatedToken => 2,
        SwapRequest::TokenPrice => 3,
    };
    u32_to_le_bytes(tag)
}

/// Appends the bytes of one entry of a report to `out`.
fn put_coin(out: &mut Vec<u8>, entry: &(String, TokenInfoInnerResponse))
    ensures
        final(out)@ == old(out)@ + coin_bytes(entry_view(*entry)),
        text_fits(entry.0@),
        text_fits(entry.1.symbol@),
{
    put_text(out, &entry.0);
    put_u64(out, entry.1.confidence);
    put_u64(out, entry.1.decimals);
    put_u64(out, entry.1.price);
    put_text(out, &entry.1.symbol);
    put_u64(out, entry.1.timestamp.0);
    assert(out@ =~= old(out)@ + coin_bytes(entry_view(*entry)));
}

/// The frame that carries `message` to the hub.
pub fn encode_response(message: &SwapResponse) -> (bytes: Vec<u8>)
    ensures
        bytes@ == response_bytes(message@),
        response_fits(message@),
{
    match message {
        SwapResponse::WhichToken(token) => {
            let mut out = u32_to_le_bytes(0);
            put_text(&mut out, token);
            out
        },
        SwapResponse::TokenPrice(report) => {
            let mut out = u32_to_le_bytes(1);
            let count: usize = report.coins.len();
            put_u64(&mut out, count as u64);
            let ghost head = out@;
            let ghost coins = report@;
            let mut i: usize = 0;
            while i < count
                invariant
                    i <= count,
                    count == report.coins@.len(),
                    coins == report@,
                    out@ == head + coins_bytes(coins.subrange(0, i as int)),
                    forall|k: int|
                        0 <= k < i ==> text_fits((#[trigger] coins[k]).0) && text_fits(
                            coins[k].1.symbol,
                        ),
                decreases count - i,
            {
                let ghost before = out@;
                put_coin(&mut out, &report.coins[i]);
                proof {
                    let upto = coins.subrange(0, i as int + 1);
                    assert(upto.drop_last() =~= coins.subrange(0, i as int));
                    assert(upto.last() == coins[i as int]);
                    assert(coins[i as int] == entry_view(report.coins@[i as int]));
                    assert(out@ =~= head + coins_bytes(upto));
                }
                i += 1;
            }
            proof {
                assert(coins.subrange(0, count as int) =~= coins);
            }
            out
        },
    }
}

// ---------------------------------------------------------------------------
// Decoding
// ---------------------------------------------------------------------------
/// Calls `String::from_utf8`: the text that `bytes` encode, or nothing
/// where they are not UTF-8.
#[verifier::external_body]
fn text_from_utf8(bytes: Vec<u8>) -> (text: Option<String>)
    ensures
        match text {
            Some(s) => valid_utf8(bytes@) && s@ == decode_utf8(bytes@),
            None => !valid_utf8(bytes@),
        },
{
    String::from_utf8(bytes).ok()
}

fn read_u32(bytes: &[u8], at: usize) -> (r: Result<(u32, usize), DecodeError>)
    requires
        at <= bytes@.len(),
    ensures
        match r {
            Ok((value, next)) => take_u32(bytes@, at as int) == Ok::<(u32, int), DecodeError>(
                (value, next as int),
            ) && next <= bytes@.len(),
            Err(e) => take_u32(bytes@, at as int) == Err::<(u32, int), DecodeError>(e),
        },
{
    if bytes.len() - at < 4 {
        Err(DecodeError::UnexpectedEnd)
    } else {
        let value = u32_from_le_bytes(slice_subrange(bytes, at, at + 4));
        Ok((value, at + 4))
    }
}

fn read_u64(bytes: &[u8], at: usize) -> (r: Result<(u64, usize), DecodeError>)
    requires
        at <= bytes@.len(),
    ensures
        match r {
            Ok((value, next)) => take_u64(bytes@, at as int) == Ok::<(u64, int), DecodeError>(
                (value, next as int),
            ) && next <= bytes@.len(),
            Err(e) => take_u64(bytes@, at as int) == Err::<(u64, int), DecodeError>(e),
        },
{
    if bytes.len() - at < 8 {
        Err(DecodeError::UnexpectedEnd)
    } else {
        let value = u64_from_le_bytes(slice_subrange(bytes, at, at + 8));
        Ok((value, at + 8))
    }
}

fn read_text(bytes: &[u8], at: usize) -> (r: Result<(String, usize), DecodeError>)
    requires
        at <= bytes@.len(),
    ensures
        match r {
            Ok((text, next)) => take_text(bytes@, at as int) == Ok::<(Seq<char>, int), DecodeError>(
                (text@, next as int),
            ) && next <= bytes@.len(),
            Err(e) => take_text(bytes@, at as int) == Err::<(Seq<char>, int), DecodeError>(e),
        },
{
    match read_u64(bytes, at) {
        Err(e) => Err(e),
        Ok((length, start)) => {
            let left: usize = bytes.len() - start;
            if length > left as u64 {
                Err(DecodeError::UnexpectedEnd)
            } else {
                let end: usize = start + length as usize;
                let raw = slice_to_vec(slice_subrange(bytes, start, end));
                match text_from_utf8(raw) {
                    Some(text) => Ok((text, end)),
                    None => Err(DecodeError::InvalidText),
                }
            }
        },
    }
}

fn read_coin(bytes: &[u8], at: usize) -> (r: Result<
    ((String, TokenInfoInnerResponse), usize),
    DecodeError,
>)
    requires
        at <= bytes@.len(),
    ensures
        match r {
            Ok((entry, next)) => take_coin(bytes@, at as int) == Ok::<
                ((Seq<char>, CoinView), int),
                DecodeError,
            >((entry_view(entry), next as int)) && next <= bytes@.len(),
            Err(e) => take_coin(bytes@, at as int) == Err::<
                ((Seq<char>, CoinView), int),
                DecodeError,
            >(e),
        },
{
    let (address, past_address) = match read_text(bytes, at) {
        Err(e) => { return Err(e); },
        Ok(found) => found,
    };
    let (confidence, past_confidence) = match read_u64(bytes, past_address) {
        Err(e) => { return Err(e); },
        Ok(found) => found,
    };
    let (decimals, past_decimals) = match read_u64(bytes, past_confidence) {
        Err(e) => { return Err(e); },
        Ok(found) => found,
    };
    let (price, past_price) = match read_u64(bytes, past_decimals) {
        Err(e) => { return Err(e); },
        Ok(found) => found,
    };
    let (symbol, past_symbol) = match read_text(bytes, past_price) {
        Err(e) => { return Err(e); },
        Ok(found) => found,
    };
    let (timestamp, past_timestamp) = match read_u64(bytes, past_symbol) {
        Err(e) => { return Err(e); },
        Ok(found) => found,
    };
    let coin = TokenInfoInnerResponse {
        confidence,
        decimals,
        price,
        symbol,
        timestamp: TimeStamp(timestamp),
    };
    Ok(((address, coin), past_timestamp))
}

/// Once the entries cannot be read up to some count, they cannot be read up
/// to any larger count, and for the same reason.
proof fn lemma_take_coins_stays_failed(
    bytes: Seq<u8>,
    at: int,
    failed: nat,
    count: nat,
    e: DecodeError,
)
    requires
        take_coins(bytes, at, failed) == Err::<(Seq<(Seq<char>, CoinView)>, int), DecodeError>(e),
        failed <= count,
    ensures
        take_coins(bytes, at, count) == Err::<(Seq<(Seq<char>, CoinView)>, int), DecodeError>(e),
    decreases count,
{
    if failed < count {
        lemma_take_coins_stays_failed(bytes, at, failed, (count - 1) as nat, e);
    }
}

/// Decodes a frame from an agent. Decoding fails where the frame ends
/// before the message does, where its first four bytes name no response,
/// or where a text in it is not UTF-8.
pub fn decode_response(bytes: &[u8]) -> (r: Result<SwapResponse, DecodeError>)
    ensures
        match r {
            Ok(message) => parse_response(bytes@) == Ok::<ResponseView, DecodeError>(message@),
            Err(e) => parse_response(bytes@) == Err::<ResponseView, DecodeError>(e),
        },
{
    let (tag, p) = match read_u32(bytes, 0) {
        Err(e) => { return Err(e); },
        Ok(found) => found,
    };
    if tag == 0 {
        match read_text(bytes, p) {
            Err(e) => Err(e),
            Ok((token, _)) => Ok(SwapResponse::WhichToken(token)),
        }
    } else if tag == 1 {
        let (count, q) = match read_u64(bytes, p) {
            Err(e) => { return Err(e); },
            Ok(found) => found,
        };
        let mut coins: Vec<(String, TokenInfoInnerResponse)> = Vec::new();
        let mut at: usize = q;
        let mut k: u64 = 0;
        assert(coins@.map_values(|entry: (String, TokenInfoInnerResponse)| entry_view(entry))
            =~= Seq::<(Seq<char>, CoinView)>::empty());
        while k < count
            invariant
                k <= count,
                at <= bytes@.len(),
                take_u32(bytes@, 0) == Ok::<(u32, int), DecodeError>((1u32, p as int)),
                take_u64(bytes@, p as int) == Ok::<(u64, int), DecodeError>((count, q as int)),
                take_coins(bytes@, q as int, k as nat) == Ok::<
                    (Seq<(Seq<char>, CoinView)>, int),
                    DecodeError,
                >(
                    (
                        coins@.map_values(
                            |entry: (String, TokenInfoInnerResponse)| entry_view(entry),
                        ),
                        at as int,
                    ),
                ),
            decreases count - k,
        {
            match read_coin(bytes, at) {
                Err(e) => {
                    proof {
                        lemma_take_coins_stays_failed(
                            bytes@,
                            q as int,
                            (k + 1) as nat,
                            count as nat,
                            e,
                        );
                    }
                    return Err(e);
                },
                Ok((entry, next)) => {
                    let ghost before = coins@;
                    coins.push(entry);
                    proof {
                        assert(coins@.map_values(
                            |entry: (String, TokenInfoInnerResponse)| entry_view(entry),
                        ) =~= before.map_values(
                            |entry: (String, TokenInfoInnerResponse)| entry_view(entry),
                        ).push(entry_view(entry)));
                    }
                    at = next;
                    k += 1;
                },
            }
        }
        Ok(SwapResponse::TokenPrice(TokenInfoResponse { coins }))
    } else {
        Err(DecodeError::UnknownVariant(tag))
    }
}

/// Decodes a frame from the hub. Decoding fails where the frame has fewer
/// than four bytes, or where they name no request.
pub fn decode_request(bytes: &[u8]) -> (r: Result<SwapRequest, DecodeError>)
    ensures
        r == parse_request(bytes@),
{
    match read_u32(bytes, 0) {
        Err(e) => Err(e),
        Ok((tag, _)) => {
            if tag == 0 {
                Ok(SwapRequest::WhichToken)
            } else if tag == 1 {
                Ok(SwapRequest::ValidToken)
            } else if tag == 2 {
                Ok(SwapRequest::RepeatedToken)
            } else if tag == 3 {
                Ok(SwapRequest::TokenPrice)
            } else {
                Err(DecodeError::UnknownVariant(tag))
            }
        },
    }
}

} // verus!
