use futures_channel::mpsc::unbounded;
use swap_relay::client::{Client, ClientEvent, Plan};
use swap_relay::errors::{DecodeError, SwapError};
use swap_relay::messages::{Frame, SwapRequest, SwapResponse};
use swap_relay::models::{date_time_or_invalid, TimeStamp, TokenInfoResponse};
use swap_relay::wire::{decode_response, encode_request};
use tokio_tungstenite::tungstenite::protocol::Message;

fn agent() -> Client {
    Client::new(
        "ws://127.0.0.1:8080".to_string(),
        "SUI".to_string(),
        "https://coins.example/prices/current/sui:".to_string(),
    )
}

fn request(message: SwapRequest) -> Frame {
    Frame::Binary(encode_request(message))
}

#[test]
fn new_agent_keeps_what_it_was_given() {
    let client = agent();
    assert_eq!(client.url(), "ws://127.0.0.1:8080");
    assert_eq!(client.token(), "SUI");
    assert_eq!(client.token_balance_url(), "https://coins.example/prices/current/sui:");
}

#[test]
fn price_url_is_source_then_address() {
    assert_eq!(agent().price_url("0xabc"), "https://coins.example/prices/current/sui:0xabc");
    assert_eq!(agent().price_url(""), "https://coins.example/prices/current/sui:");
}

#[test]
fn the_plan_follows_the_request() {
    assert_eq!(Client::plan(&request(SwapRequest::TokenPrice)), Plan::FetchPrice);
    assert_eq!(Client::plan(&request(SwapRequest::WhichToken)), Plan::SendToken);
    assert_eq!(Client::plan(&request(SwapRequest::ValidToken)), Plan::Continue);
    assert_eq!(Client::plan(&request(SwapRequest::RepeatedToken)), Plan::Terminate);
    assert_eq!(Client::plan(&Frame::Other), Plan::SkipNonBinary);
    assert_eq!(
        Client::plan(&Frame::Binary(vec![1, 2])),
        Plan::SkipMalformed(DecodeError::UnexpectedEnd)
    );
    assert_eq!(
        Client::plan(&Frame::Binary(vec![4, 0, 0, 0])),
        Plan::SkipMalformed(DecodeError::UnknownVariant(4))
    );
}

#[test]
fn which_token_is_answered_with_the_token() {
    let (tx, mut rx) = unbounded::<Message>();
    let event = agent().on_frame(&tx, &request(SwapRequest::WhichToken));
    assert_eq!(event, ClientEvent::TokenSent(SwapResponse::WhichToken("SUI".to_string())));
    match rx.try_recv().unwrap() {
        Message::Binary(bytes) => {
            assert_eq!(decode_response(&bytes), Ok(SwapResponse::WhichToken("SUI".to_string())))
        }
        other => panic!("unexpected frame {:?}", other),
    }
    assert!(rx.try_recv().is_err());
}

#[test]
fn other_requests_send_nothing() {
    let (tx, mut rx) = unbounded::<Message>();
    let client = agent();
    assert_eq!(client.on_frame(&tx, &request(SwapRequest::TokenPrice)), ClientEvent::PriceWanted);
    assert_eq!(client.on_frame(&tx, &request(SwapRequest::ValidToken)), ClientEvent::Accepted);
    assert_eq!(client.on_frame(&tx, &request(SwapRequest::RepeatedToken)), ClientEvent::Refused);
    assert_eq!(client.on_frame(&tx, &Frame::Other), ClientEvent::NonBinary);
    assert_eq!(
        client.on_frame(&tx, &Frame::Binary(vec![])),
        ClientEvent::Malformed(DecodeError::UnexpectedEnd)
    );
    assert!(rx.try_recv().is_err());
}

#[test]
fn a_token_that_cannot_be_sent_is_a_send_error() {
    let (tx, rx) = unbounded::<Message>();
    drop(rx);
    let event = agent().on_frame(&tx, &request(SwapRequest::WhichToken));
    assert_eq!(
        event,
        ClientEvent::SendFailed(SwapError::SendRequestError(
            "send failed because receiver is gone".to_string()
        ))
    );
}

#[test]
fn send_swap_response_message_queues_the_encoded_message() {
    let (tx, mut rx) = unbounded::<Message>();
    let report = SwapResponse::TokenPrice(TokenInfoResponse { coins: vec![] });
    assert_eq!(Client::send_swap_response_message(&report, &tx), Ok(()));
    assert_eq!(
        rx.try_recv().unwrap(),
        Message::Binary(vec![1, 0, 0, 0, 0, 0, 0, 0, 0, 0, 0, 0])
    );
    drop(rx);
    assert_eq!(
        Client::send_swap_response_message(&report, &tx),
        Err(SwapError::SendRequestError("send failed because receiver is gone".to_string()))
    );
}

#[test]
fn send_result_maps_the_outcome() {
    assert_eq!(Client::send_result(Ok(())), Ok(()));
    let (tx, rx) = unbounded::<Message>();
    drop(rx);
    let failure = tx.unbounded_send(Message::Binary(vec![]));
    assert!(matches!(Client::send_result(failure), Err(SwapError::SendRequestError(_))));
}

#[test]
fn token_address_is_read_from_the_table() {
    let table = r#"{ "SUI": "0xabc", "BTC": "0xdef", "decimals": 9 }"#;
    assert_eq!(agent().get_token_address(table), Ok(Some("0xabc".to_string())));
}

#[test]
fn unlisted_token_has_no_address() {
    assert_eq!(agent().get_token_address(r#"{ "BTC": "0xdef" }"#), Ok(None));
    assert_eq!(agent().get_token_address(r#"{ "SUI": 17 }"#), Ok(None));
    assert_eq!(agent().get_token_address(r#"["SUI", "0xabc"]"#), Ok(None));
    assert_eq!(agent().get_token_address("null"), Ok(None));
}

#[test]
fn a_table_that_is_not_json_is_a_parse_error() {
    assert!(matches!(
        agent().get_token_address("{ \"SUI\": "),
        Err(SwapError::ParseTokensFileError(_))
    ));
    assert!(matches!(agent().get_token_address(""), Err(SwapError::ParseTokensFileError(_))));
}

#[test]
fn time_stamp_is_written_day_first_in_utc() {
    assert_eq!(TimeStamp(1_700_000_000).to_datetime_string(), "14-11-2023 22:13:20");
    assert_eq!(TimeStamp(0).to_datetime_string(), "01-01-1970 00:00:00");
    assert_eq!(TimeStamp(951_782_400).to_datetime_string(), "29-02-2000 00:00:00");
}

#[test]
fn time_stamp_beyond_the_signed_range_has_no_date() {
    assert_eq!(TimeStamp(u64::MAX).to_datetime_string(), "Invalid timestamp");
    assert_eq!(TimeStamp(i64::MAX as u64 + 1).to_datetime_string(), "Invalid timestamp");
}

#[test]
fn time_stamp_beyond_the_calendar_is_invalid() {
    assert_eq!(TimeStamp(i64::MAX as u64).to_datetime_string(), "Invalid timestamp");
    assert_eq!(TimeStamp(1u64 << 62).to_datetime_string(), "Invalid timestamp");
}

#[test]
fn date_time_or_invalid_keeps_a_text_and_names_its_absence() {
    assert_eq!(date_time_or_invalid(Some("01-01-1970 00:00:00".to_string())), "01-01-1970 00:00:00");
    assert_eq!(date_time_or_invalid(None), "Invalid timestamp");
}

#[test]
fn errors_have_their_headlines() {
    let text = String::new();
    assert_eq!(SwapError::ReadTokensFileError(text.clone()).headline(), "Failed to read tokens file");
    assert_eq!(
        SwapError::ParseTokensFileError(text.clone()).headline(),
        "Failed to parse tokens file"
    );
    assert_eq!(SwapError::SendRequestError(text.clone()).headline(), "Failed to send request to: ");
    assert_eq!(SwapError::ParseResponseError(text.clone()).headline(), "Failed to parse response");
    assert_eq!(SwapError::SerializeError(text.clone()).headline(), "Failed to serialize response");
    assert_eq!(SwapError::WsError(text).headline(), "WS error");
}

#[test]
fn errors_read_as_headline_and_detail() {
    assert_eq!(
        SwapError::SendRequestError("ws://hub".to_string()).to_text(),
        "Failed to send request to: ws://hub"
    );
    assert_eq!(
        SwapError::ParseResponseError("eof".to_string()).to_text(),
        "Failed to parse response"
    );
    assert_eq!(SwapError::WsError(String::new()).to_text(), "WS error");
}
