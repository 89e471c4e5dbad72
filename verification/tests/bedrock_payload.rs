use mcquery::bedrock::{bedrock, BedrockEvent, BedrockParsed, PING_TIMEOUT};
use mcquery::error::QueryError;
use mcquery::ping::PingMeasurement;

const SAMPLE: &str = "MCPE;My Server;475;1.16;5;20;1234567890;Second;Survival;1;19132;19133";

fn with_field(index: usize, text: &str) -> String {
    let mut fields: Vec<String> = SAMPLE.split(';').map(|f| f.to_string()).collect();
    fields[index] = text.to_string();
    fields.join(";")
}

#[test]
fn sample_payload_parses_by_position() {
    let parsed = BedrockParsed::from_str(SAMPLE).unwrap();
    assert_eq!(parsed.edition, "MCPE");
    assert_eq!(parsed.motd1, "My Server");
    assert_eq!(parsed.pvn, 475);
    assert_eq!(parsed.version, "1.16");
    assert_eq!(parsed.player_count, 5);
    assert_eq!(parsed.max_player_count, 20);
    assert_eq!(parsed.server_id, 1234567890);
    assert_eq!(parsed.motd2, "Second");
    assert_eq!(parsed.gamemode, "Survival");
    assert_eq!(parsed.gamemode_num, 1);
    assert_eq!(parsed.port, 19132);
    assert_eq!(parsed.port6, 19133);
}

#[test]
fn sample_payload_round_trips() {
    let parsed = BedrockParsed::from_str(SAMPLE).unwrap();
    assert_eq!(parsed.to_payload(), SAMPLE);
}

#[test]
fn written_payload_reads_back() {
    let status = BedrockParsed {
        edition: "MCEE".to_string(),
        motd1: "".to_string(),
        motd2: "§aGrün".to_string(),
        pvn: u32::MAX,
        version: "1.20.81".to_string(),
        player_count: 0,
        max_player_count: 100,
        server_id: i128::MIN,
        gamemode: "Creative".to_string(),
        gamemode_num: 255,
        port: -1,
        port6: i32::MAX,
    };
    let text = status.to_payload();
    assert_eq!(
        text,
        "MCEE;;4294967295;1.20.81;0;100;-170141183460469231731687303715884105728;§aGrün;Creative;255;-1;2147483647"
    );
    assert_eq!(BedrockParsed::from_str(&text), Ok(status));
}

#[test]
fn eleven_fields_are_malformed() {
    let text = "MCPE;My Server;475;1.16;5;20;1234567890;Second;Survival;1;19132";
    assert_eq!(BedrockParsed::from_str(text), Err(QueryError::MalformedResponseError));
}

#[test]
fn thirteen_fields_are_malformed() {
    let text = "MCPE;My Server;475;1.16;5;20;1234567890;Second;Survival;1;19132;19133;";
    assert_eq!(BedrockParsed::from_str(text), Err(QueryError::MalformedResponseError));
    let text = "MCPE;My Server;475;1.16;5;20;1234567890;Second;Survival;1;19132;19133;extra";
    assert_eq!(BedrockParsed::from_str(text), Err(QueryError::MalformedResponseError));
}

#[test]
fn empty_payload_is_malformed() {
    assert_eq!(BedrockParsed::from_str(""), Err(QueryError::MalformedResponseError));
    assert_eq!(BedrockParsed::from_str(";;;;;;;;;;;"), Err(QueryError::MalformedResponseError));
}

#[test]
fn text_fields_may_be_empty_or_non_ascii() {
    let text = ";日本語 サーバー;1;;2;3;4;;;5;6;7";
    let parsed = BedrockParsed::from_str(text).unwrap();
    assert_eq!(parsed.edition, "");
    assert_eq!(parsed.motd1, "日本語 サーバー");
    assert_eq!(parsed.version, "");
    assert_eq!(parsed.motd2, "");
    assert_eq!(parsed.gamemode, "");
    assert_eq!(parsed.server_id, 4);
    assert_eq!(parsed.to_payload(), text);
}

#[test]
fn unsigned_fields_follow_the_standard_reading() {
    let cases = [
        "0", "7", "+7", "007", "4294967295", "4294967296", "99999999999999999999", "", "+", "-",
        "-1", "-0", " 7", "7 ", "7a", "0x10", "１２", "1_000", "+-1", "++1",
    ];
    for case in cases {
        let expected: Option<u32> = case.parse().ok();
        let got = BedrockParsed::from_str(&with_field(2, case)).ok().map(|p| p.pvn);
        assert_eq!(got, expected, "pvn {:?}", case);
        let got = BedrockParsed::from_str(&with_field(4, case)).ok().map(|p| p.player_count);
        assert_eq!(got, expected, "player_count {:?}", case);
        let got = BedrockParsed::from_str(&with_field(5, case)).ok().map(|p| p.max_player_count);
        assert_eq!(got, expected, "max_player_count {:?}", case);
    }
    for case in ["0", "255", "256", "+255", "0255", "-1", "", "25 "] {
        let expected: Option<u8> = case.parse().ok();
        let got = BedrockParsed::from_str(&with_field(9, case)).ok().map(|p| p.gamemode_num);
        assert_eq!(got, expected, "gamemode_num {:?}", case);
    }
}

#[test]
fn signed_fields_follow_the_standard_reading() {
    let cases = [
        "0", "-0", "+0", "-1", "+1", "2147483647", "2147483648", "-2147483648", "-2147483649",
        "-", "+", "", "--1", "-+1", "- 1", "00012", "-00012", "1e3",
    ];
    for case in cases {
        let expected: Option<i32> = case.parse().ok();
        let got = BedrockParsed::from_str(&with_field(10, case)).ok().map(|p| p.port);
        assert_eq!(got, expected, "port {:?}", case);
        let got = BedrockParsed::from_str(&with_field(11, case)).ok().map(|p| p.port6);
        assert_eq!(got, expected, "port6 {:?}", case);
    }
    let wide = [
        "170141183460469231731687303715884105727",
        "170141183460469231731687303715884105728",
        "-170141183460469231731687303715884105728",
        "-170141183460469231731687303715884105729",
        "18446744073709551616",
        "-9223372036854775809",
        "340282366920938463463374607431768211456",
        "+000000000000000000000000000000000000000000000000000000000000000000001",
    ];
    for case in wide {
        let expected: Option<i128> = case.parse().ok();
        let got = BedrockParsed::from_str(&with_field(6, case)).ok().map(|p| p.server_id);
        assert_eq!(got, expected, "server_id {:?}", case);
    }
}

#[test]
fn a_bad_number_fails_the_whole_payload() {
    for index in [2, 4, 5, 6, 9, 10, 11] {
        assert_eq!(
            BedrockParsed::from_str(&with_field(index, "many")),
            Err(QueryError::MalformedResponseError)
        );
    }
}

#[test]
fn leading_zeros_read_but_do_not_round_trip() {
    let text = with_field(4, "005");
    let parsed = BedrockParsed::from_str(&text).unwrap();
    assert_eq!(parsed.player_count, 5);
    assert_eq!(parsed.to_payload(), SAMPLE);
}

fn pong(data: &str, latency: i64) -> BedrockEvent {
    BedrockEvent::Pong { data: data.to_string(), latency }
}

#[test]
fn bedrock_result_carries_latency() {
    let ret = bedrock(pong(SAMPLE, 1234)).unwrap();
    assert_eq!(ret.resp, BedrockParsed::from_str(SAMPLE).unwrap());
    assert_eq!(ret.resp.player_count, 5);
    assert_eq!(ret.resp.gamemode, "Survival");
    assert_eq!(ret.ping, PingMeasurement { secs: 1, nanos: 234_000_000 });
    let ret = bedrock(pong(SAMPLE, 0)).unwrap();
    assert_eq!(ret.ping, PingMeasurement { secs: 0, nanos: 0 });
    let ret = bedrock(pong(SAMPLE, i64::MAX)).unwrap();
    assert_eq!(ret.ping, PingMeasurement { secs: 9_223_372_036_854_775, nanos: 807_000_000 });
}

#[test]
fn negative_latency_keeps_its_bits() {
    let ret = bedrock(pong(SAMPLE, -1)).unwrap();
    assert_eq!(ret.ping, PingMeasurement::from_millis(u64::MAX));
    let ret = bedrock(pong(SAMPLE, i64::MIN)).unwrap();
    assert_eq!(ret.ping, PingMeasurement::from_millis(1 << 63));
}

#[test]
fn bedrock_fails_as_a_whole() {
    assert_eq!(bedrock(pong("junk", 5)), Err(QueryError::MalformedResponseError));
    assert_eq!(bedrock(pong(&with_field(9, "256"), 5)), Err(QueryError::MalformedResponseError));
    assert_eq!(bedrock(pong(&with_field(11, ""), 5)), Err(QueryError::MalformedResponseError));
}

#[test]
fn bedrock_without_pong_has_no_result() {
    assert_eq!(bedrock(BedrockEvent::TimedOut), Err(QueryError::TimeoutError));
    assert_eq!(bedrock(BedrockEvent::Failed), Err(QueryError::TransportError));
}

#[test]
fn bedrock_waits_five_seconds() {
    assert_eq!(PING_TIMEOUT, 5_000_000_000);
}
