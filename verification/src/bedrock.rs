//! The status that a Bedrock server reports in its unconnected pong: a
//! record of twelve fields separated by semicolons.

use vstd::prelude::*;
use vstd::string::*;

use crate::decimal::{
    canonical_magnitude, decimal_text, is_canonical, is_digit, lemma_canonical_text,
    lemma_decimal_text_value, literal_in_range, parse_literal, push_decimal,
};
use crate::error::QueryError;
use crate::fields::{
    join_fields, lemma_join_split, lemma_join_take, lemma_split_join, separator_free, split_bounds,
    split_fields, to_chars,
};
use crate::ping::{of_millis, PingMeasurement};

verus! {

/// The number of fields in a payload.
pub const FIELD_COUNT: usize = 12;

/// The character between two fields of a payload.
pub const SEPARATOR: char = ';';

/// The status of a Bedrock server.
#[derive(Debug, PartialEq, Eq)]
pub struct BedrockParsed {
    /// The edition tag, `MCPE` or `MCEE`.
    pub edition: String,
    /// The first line of the message of the day.
    pub motd1: String,
    /// The second line of the message of the day.
    pub motd2: String,
    /// The protocol version.
    pub pvn: u32,
    /// The game version, as text.
    pub version: String,
    /// The number of players online.
    pub player_count: u32,
    /// The number of players the server admits.
    pub max_player_count: u32,
    /// The server's unique id.
    pub server_id: i128,
    /// The name of the game mode.
    pub gamemode: String,
    /// The number of the game mode.
    pub gamemode_num: u8,
    /// The IPv4 port.
    pub port: i32,
    /// The IPv6 port.
    pub port6: i32,
}

/// A status as mathematical values.
pub ghost struct BedrockFields {
    pub edition: Seq<char>,
    pub motd1: Seq<char>,
    pub motd2: Seq<char>,
    pub pvn: u32,
    pub version: Seq<char>,
    pub player_count: u32,
    pub max_player_count: u32,
    pub server_id: i128,
    pub gamemode: Seq<char>,
    pub gamemode_num: u8,
    pub port: i32,
    pub port6: i32,
}

impl View for BedrockParsed {
    type V = BedrockFields;

    open spec fn view(&self) -> BedrockFields {
        BedrockFields {
            edition: self.edition@,
            motd1: self.motd1@,
            motd2: self.motd2@,
            pvn: self.pvn,
            version: self.version@,
            player_count: self.player_count,
            max_player_count: self.max_player_count,
            server_id: self.server_id,
            gamemode: self.gamemode@,
            gamemode_num: self.gamemode_num,
            port: self.port,
            port6: self.port6,
        }
    }
}

/// The value of the field `f` as an unsigned 32-bit number.
pub open spec fn as_u32(f: Seq<char>) -> Option<int> {
    literal_in_range(f, false, 0, u32::MAX as int)
}

/// The value of the field `f` as an unsigned 8-bit number.
pub open spec fn as_u8(f: Seq<char>) -> Option<int> {
    literal_in_range(f, false, 0, u8::MAX as int)
}

/// The value of the field `f` as a signed 32-bit number.
pub open spec fn as_i32(f: Seq<char>) -> Option<int> {
    literal_in_range(f, true, i32::MIN as int, i32::MAX as int)
}

/// The value of the field `f` as a signed 128-bit number.
pub open spec fn as_i128(f: Seq<char>) -> Option<int> {
    literal_in_range(f, true, i128::MIN as int, i128::MAX as int)
}

/// There are twelve fields, and each numeric one reads as its type.
pub open spec fn fields_valid(f: Seq<Seq<char>>) -> bool {
    &&& f.len() == FIELD_COUNT
    &&& as_u32(f[2]) is Some
    &&& as_u32(f[4]) is Some
    &&& as_u32(f[5]) is Some
    &&& as_i128(f[6]) is Some
    &&& as_u8(f[9]) is Some
    &&& as_i32(f[10]) is Some
    &&& as_i32(f[11]) is Some
}

/// The status that twelve valid fields make, by position.
pub open spec fn record_of(f: Seq<Seq<char>>) -> BedrockFields {
    BedrockFields {
        edition: f[0],
        motd1: f[1],
        pvn: as_u32(f[2]).unwrap() as u32,
        version: f[3],
        player_count: as_u32(f[4]).unwrap() as u32,
        max_player_count: as_u32(f[5]).unwrap() as u32,
        server_id: as_i128(f[6]).unwrap() as i128,
        motd2: f[7],
        gamemode: f[8],
        gamemode_num: as_u8(f[9]).unwrap() as u8,
        port: as_i32(f[10]).unwrap() as i32,
        port6: as_i32(f[11]).unwrap() as i32,
    }
}

/// The status that a payload denotes, if it denotes one.
pub open spec fn parse_payload(s: Seq<char>) -> Option<BedrockFields> {
    let f = split_fields(s, SEPARATOR);
    if fields_valid(f) {
        Some(record_of(f))
    } else {
        None
    }
}

/// The twelve fields of a status, the numbers in shortest form.
pub open spec fn record_fields(r: BedrockFields) -> Seq<Seq<char>> {
    seq![
        r.edition,
        r.motd1,
        decimal_text(r.pvn as int),
        r.version,
        decimal_text(r.player_count as int),
        decimal_text(r.max_player_count as int),
        decimal_text(r.server_id as int),
        r.motd2,
        r.gamemode,
        decimal_text(r.gamemode_num as int),
        decimal_text(r.port as int),
        decimal_text(r.port6 as int),
    ]
}

/// The payload that reports a status.
pub open spec fn payload_text(r: BedrockFields) -> Seq<char> {
    join_fields(record_fields(r), SEPARATOR)
}

/// The numeric fields are written in shortest form.
pub open spec fn numbers_canonical(f: Seq<Seq<char>>) -> bool {
    &&& f.len() == FIELD_COUNT
    &&& is_canonical(f[2])
    &&& is_canonical(f[4])
    &&& is_canonical(f[5])
    &&& is_canonical(f[6])
    &&& is_canonical(f[9])
    &&& is_canonical(f[10])
    &&& is_canonical(f[11])
}

/// No text field of the status holds a separator.
pub open spec fn texts_separator_free(r: BedrockFields) -> bool {
    &&& separator_free(r.edition, SEPARATOR)
    &&& separator_free(r.motd1, SEPARATOR)
    &&& separator_free(r.motd2, SEPARATOR)
    &&& separator_free(r.version, SEPARATOR)
    &&& separator_free(r.gamemode, SEPARATOR)
}

/// A payload whose numbers are in shortest form is the payload of the
/// status it denotes: reading it and writing the status gives it back.
pub proof fn lemma_payload_roundtrip(s: Seq<char>)
    requires
        parse_payload(s) is Some,
        numbers_canonical(split_fields(s, SEPARATOR)),
    ensures
        payload_text(parse_payload(s).unwrap()) == s,
{
    let f = split_fields(s, SEPARATOR);
    let r = record_of(f);
    lemma_canonical_text(f[2], false);
    lemma_canonical_text(f[4], false);
    lemma_canonical_text(f[5], false);
    lemma_canonical_text(f[6], true);
    lemma_canonical_text(f[9], false);
    lemma_canonical_text(f[10], true);
    lemma_canonical_text(f[11], true);
    assert(record_fields(r) =~= f);
    lemma_join_split(s, SEPARATOR);
}

/// The shortest literal of an integer holds no separator.
pub proof fn lemma_decimal_text_separator_free(v: int)
    ensures
        separator_free(decimal_text(v), SEPARATOR),
{
    lemma_decimal_text_value(v);
    let t = decimal_text(v);
    assert forall|i: int| 0 <= i < t.len() implies #[trigger] t[i] != SEPARATOR by {
        if canonical_magnitude(t) {
            assert(is_digit(t[i]));
        } else if i > 0 {
            assert(t.skip(1)[i - 1] == t[i]);
            assert(is_digit(t.skip(1)[i - 1]));
        }
    }
}

/// A status whose texts hold no separator is what its payload denotes:
/// writing it and reading the payload gives it back.
pub proof fn lemma_payload_parse(r: BedrockFields)
    requires
        texts_separator_free(r),
    ensures
        parse_payload(payload_text(r)) == Some(r),
{
    let f = record_fields(r);
    lemma_decimal_text_separator_free(r.pvn as int);
    lemma_decimal_text_separator_free(r.player_count as int);
    lemma_decimal_text_separator_free(r.max_player_count as int);
    lemma_decimal_text_separator_free(r.server_id as int);
    lemma_decimal_text_separator_free(r.gamemode_num as int);
    lemma_decimal_text_separator_free(r.port as int);
    lemma_decimal_text_separator_free(r.port6 as int);
    assert forall|k: int| 0 <= k < f.len() implies separator_free(#[trigger] f[k], SEPARATOR) by {}
    lemma_split_join(f, SEPARATOR);
    lemma_decimal_text_value(r.pvn as int);
    lemma_decimal_text_value(r.player_count as int);
    lemma_decimal_text_value(r.max_player_count as int);
    lemma_decimal_text_value(r.server_id as int);
    lemma_decimal_text_value(r.gamemode_num as int);
    lemma_decimal_text_value(r.port as int);
    lemma_decimal_text_value(r.port6 as int);
    assert(fields_valid(f));
    assert(record_of(f) == r);
}

/// A payload with any number of fields but twelve denotes no status.
pub proof fn lemma_field_count(s: Seq<char>)
    requires
        split_fields(s, SEPARATOR).len() != FIELD_COUNT,
    ensures
        parse_payload(s) is None,
{
}

/// The text of the field `s[b.0..b.1]`.
fn text_field(s: &str, b: (usize, usize)) -> (r: String)
    requires
        b.0 <= b.1 <= s@.len(),
    ensures
        r@ == s@.subrange(b.0 as int, b.1 as int),
{
    s.substring_char(b.0, b.1).to_owned()
}

impl BedrockParsed {
    /// Reads a payload. It must have exactly twelve fields, and each numeric
    /// field must be a decimal literal within its type; there is no partial
    /// result.
    pub fn from_str(s: &str) -> (r: Result<BedrockParsed, QueryError>)
        ensures
            match parse_payload(s@) {
                Some(fields) => r is Ok && r.unwrap()@ == fields,
                None => r == Err::<BedrockParsed, QueryError>(QueryError::MalformedResponseError),
            },
    {
        let chars = to_chars(s);
        proof {
            assert(chars@.subrange(0, chars@.len() as int) =~= s@);
        }
        let bounds = match split_bounds(&chars, 0, chars.len(), SEPARATOR, FIELD_COUNT) {
            Some(bounds) => bounds,
            None => {
                return Err(QueryError::MalformedResponseError);
            },
        };
        if bounds.len() != FIELD_COUNT {
            return Err(QueryError::MalformedResponseError);
        }
        let pvn = match parse_literal(&chars, bounds[2].0, bounds[2].1, false, 0, 0xffff_ffff) {
            Some(v) => v as u32,
            None => {
                return Err(QueryError::MalformedResponseError);
            },
        };
        let player_count = match parse_literal(
            &chars,
            bounds[4].0,
            bounds[4].1,
            false,
            0,
            0xffff_ffff,
        ) {
            Some(v) => v as u32,
            None => {
                return Err(QueryError::MalformedResponseError);
            },
        };
        let max_player_count = match parse_literal(
            &chars,
            bounds[5].0,
            bounds[5].1,
            false,
            0,
            0xffff_ffff,
        ) {
            Some(v) => v as u32,
            None => {
                return Err(QueryError::MalformedResponseError);
            },
        };
        let server_id = match parse_literal(
            &chars,
            bounds[6].0,
            bounds[6].1,
            true,
            i128::MIN,
            i128::MAX,
        ) {
            Some(v) => v,
            None => {
                return Err(QueryError::MalformedResponseError);
            },
        };
        let gamemode_num = match parse_literal(&chars, bounds[9].0, bounds[9].1, false, 0, 0xff) {
            Some(v) => v as u8,
            None => {
                return Err(QueryError::MalformedResponseError);
            },
        };
        let port = match parse_literal(
            &chars,
            bounds[10].0,
            bounds[10].1,
            true,
            -0x8000_0000,
            0x7fff_ffff,
        ) {
            Some(v) => v as i32,
            None => {
                return Err(QueryError::MalformedResponseError);
            },
        };
        let port6 = match parse_literal(
            &chars,
            bounds[11].0,
            bounds[11].1,
            true,
            -0x8000_0000,
            0x7fff_ffff,
        ) {
            Some(v) => v as i32,
            None => {
                return Err(QueryError::MalformedResponseError);
            },
        };
        Ok(
            BedrockParsed {
                edition: text_field(s, bounds[0]),
                motd1: text_field(s, bounds[1]),
                pvn,
                version: text_field(s, bounds[3]),
                player_count,
                max_player_count,
                server_id,
                motd2: text_field(s, bounds[7]),
                gamemode: text_field(s, bounds[8]),
                gamemode_num,
                port,
                port6,
            },
        )
    }
}

/// Appends the text field `k` of `all` to `out`, which holds the fields
/// before it, joined.
fn push_text(out: &mut String, field: &str, Ghost(all): Ghost<Seq<Seq<char>>>, Ghost(k): Ghost<int>)
    requires
        0 < k < all.len(),
        field@ == all[k],
        old(out)@ == join_fields(all.take(k), SEPARATOR),
    ensures
        final(out)@ == join_fields(all.take(k + 1), SEPARATOR),
{
    out.append(";");
    out.append(field);
    proof {
        lemma_join_take(all, SEPARATOR, k);
        reveal_strlit(";");
        assert(";"@ =~= seq![SEPARATOR]);
    }
}

/// Appends the numeric field `k` of `all` to `out`, which holds the fields
/// before it, joined.
fn push_number(out: &mut String, v: i128, Ghost(all): Ghost<Seq<Seq<char>>>, Ghost(k): Ghost<int>)
    requires
        0 < k < all.len(),
        decimal_text(v as int) == all[k],
        old(out)@ == join_fields(all.take(k), SEPARATOR),
    ensures
        final(out)@ == join_fields(all.take(k + 1), SEPARATOR),
{
    out.append(";");
    push_decimal(v, out);
    proof {
        lemma_join_take(all, SEPARATOR, k);
        reveal_strlit(";");
        assert(";"@ =~= seq![SEPARATOR]);
    }
}

impl BedrockParsed {
    /// Writes the status as a payload: its twelve fields in order, joined
    /// by semicolons, the numbers in shortest form.
    pub fn to_payload(&self) -> (r: String)
        ensures
            r@ == payload_text(self@),
    {
        let ghost all = record_fields(self@);
        let mut out = self.edition.clone();
        proof {
            lemma_join_take(all, SEPARATOR, 0);
        }
        push_text(&mut out, self.motd1.as_str(), Ghost(all), Ghost(1));
        push_number(&mut out, self.pvn as i128, Ghost(all), Ghost(2));
        push_text(&mut out, self.version.as_str(), Ghost(all), Ghost(3));
        push_number(&mut out, self.player_count as i128, Ghost(all), Ghost(4));
        push_number(&mut out, self.max_player_count as i128, Ghost(all), Ghost(5));
        push_number(&mut out, self.server_id, Ghost(all), Ghost(6));
        push_text(&mut out, self.motd2.as_str(), Ghost(all), Ghost(7));
        push_text(&mut out, self.gamemode.as_str(), Ghost(all), Ghost(8));
        push_number(&mut out, self.gamemode_num as i128, Ghost(all), Ghost(9));
        push_number(&mut out, self.port as i128, Ghost(all), Ghost(10));
        push_number(&mut out, self.port6 as i128, Ghost(all), Ghost(11));
        proof {
            assert(all.take(12) =~= all);
        }
        out
    }
}

/// How long the pong may take: five seconds, in nanoseconds.
pub const PING_TIMEOUT: u64 = 5_000_000_000;

/// What a Bedrock query returns: the status and the time its answer took.
#[derive(Debug, PartialEq, Eq)]
pub struct BedrockRet {
    /// The status the server reported.
    pub resp: BedrockParsed,
    /// The round-trip time of the ping that fetched it.
    pub ping: PingMeasurement,
}

/// A result as mathematical values.
pub ghost struct BedrockRetView {
    pub resp: BedrockFields,
    pub ping: PingMeasurement,
}

impl View for BedrockRet {
    type V = BedrockRetView;

    open spec fn view(&self) -> BedrockRetView {
        BedrockRetView { resp: self.resp@, ping: self.ping }
    }
}

/// What came of the one ping that a query sends.
#[derive(Debug, PartialEq, Eq)]
pub enum BedrockEvent {
    /// The pong arrived: its server data string, and the round-trip time
    /// in milliseconds as the transport reports it.
    Pong { data: String, latency: i64 },
    /// No pong arrived in time.
    TimedOut,
    /// Sending or receiving failed.
    Failed,
}

/// An event as mathematical values.
pub ghost enum BedrockEventView {
    Pong { data: Seq<char>, latency: i64 },
    TimedOut,
    Failed,
}

impl View for BedrockEvent {
    type V = BedrockEventView;

    open spec fn view(&self) -> BedrockEventView {
        match self {
            BedrockEvent::Pong { data, latency } => BedrockEventView::Pong {
                data: data@,
                latency: *latency,
            },
            BedrockEvent::TimedOut => BedrockEventView::TimedOut,
            BedrockEvent::Failed => BedrockEventView::Failed,
        }
    }
}

/// The milliseconds that a reported round-trip time stands for. The
/// transport reports a signed number; its 64 bits are read as unsigned.
pub open spec fn latency_millis(latency: i64) -> u64 {
    if latency >= 0 {
        latency as u64
    } else {
        (latency + 0x1_0000_0000_0000_0000) as u64
    }
}

/// The result of a query, given what came of its ping. Status and ping
/// come in one datagram: there is a result only if the pong arrived and
/// its payload reads as a status, and then it has both.
pub open spec fn bedrock_outcome(e: BedrockEventView) -> Result<BedrockRetView, QueryError> {
    match e {
        BedrockEventView::Pong { data, latency } => match parse_payload(data) {
            Some(fields) => Ok(
                BedrockRetView { resp: fields, ping: of_millis(latency_millis(latency)) },
            ),
            None => Err(QueryError::MalformedResponseError),
        },
        BedrockEventView::TimedOut => Err(QueryError::TimeoutError),
        BedrockEventView::Failed => Err(QueryError::TransportError),
    }
}

/// Makes the result of a Bedrock query from what came of its ping. There
/// is no second try and no partial result.
pub fn bedrock(event: BedrockEvent) -> (r: Result<BedrockRet, QueryError>)
    ensures
        match bedrock_outcome(event@) {
            Ok(ret) => r matches Ok(got) && got@ == ret,
            Err(e) => r matches Err(got) && got == e,
        },
{
    match event {
        BedrockEvent::Pong { data, latency } => {
            let millis: u64 = if latency >= 0 {
                latency as u64
            } else {
                (latency as i128 + 0x1_0000_0000_0000_0000) as u64
            };
            match BedrockParsed::from_str(data.as_str()) {
                Ok(resp) => Ok(BedrockRet { resp, ping: PingMeasurement::from_millis(millis) }),
                Err(e) => Err(e),
            }
        },
        BedrockEvent::TimedOut => Err(QueryError::TimeoutError),
        BedrockEvent::Failed => Err(QueryError::TransportError),
    }
}

/// A query whose pong arrived returns a ping: there is no status without
/// one, and no ping without a status.
pub proof fn lemma_status_and_ping_together(e: BedrockEventView)
    ensures
        bedrock_outcome(e) is Ok <==> (e matches BedrockEventView::Pong { data, .. }
            && parse_payload(data) is Some),
{
}

} // verus!
