//! The Bedrock Edition status query: the RakNet unconnected ping request
//! and reply, and the semicolon-separated server description the reply
//! carries. The caller sends the request datagram, hands every received
//! datagram to `PingResponseFrame::from_bytes`, and turns the first valid
//! reply into a `BedrockServerInfo`.
use vstd::prelude::*;

use crate::mc_string::utf8_to_string;
use crate::varint::{bits_i64, i64_bits, i64_from_bits, i64_to_bits};
use crate::wire::{
    be128, be128_val, be16_val, be64, be64_val, push_be128, push_be64, read_be128, read_be16,
    read_be64,
};
use vstd::utf8::{decode_utf8, encode_utf8, valid_utf8};

verus! {

/// Whether `c` is a decimal digit.
pub open spec fn is_dec_digit(c: char) -> bool {
    48 <= c as u32 <= 57
}

/// The numeric value of a decimal digit.
pub open spec fn digit_val(c: char) -> nat
    recommends
        is_dec_digit(c),
{
    (c as u32 - 48) as nat
}

/// Whether `s` is one or more decimal digits.
pub open spec fn dec_digits_ok(s: Seq<char>) -> bool {
    s.len() >= 1 && forall|i: int| 0 <= i < s.len() ==> is_dec_digit(s[i])
}

/// The value of a string of decimal digits, most significant first.
pub open spec fn dec_val(s: Seq<char>) -> nat
    decreases s.len(),
{
    if s.len() == 0 {
        0
    } else {
        dec_val(s.drop_last()) * 10 + digit_val(s.last())
    }
}

/// The digits of an unsigned decimal string: everything after an
/// optional leading plus sign.
pub open spec fn uint_digits(s: Seq<char>) -> Seq<char> {
    if s.len() >= 1 && s[0] == '+' {
        s.drop_first()
    } else {
        s
    }
}

/// Whether `s` reads as an unsigned decimal integer no greater than
/// `max`: an optional leading plus sign, then one or more digits, and a
/// value within bounds.
pub open spec fn uint_str_ok(s: Seq<char>, max: nat) -> bool {
    dec_digits_ok(uint_digits(s)) && dec_val(uint_digits(s)) <= max
}

/// A digit string is worth at least any of its prefixes.
proof fn lemma_dec_val_prefix_le(s: Seq<char>, k: int)
    requires
        0 <= k <= s.len(),
    ensures
        dec_val(s.take(k)) <= dec_val(s),
    decreases s.len(),
{
    if k < s.len() {
        assert(s.take(k) =~= s.drop_last().take(k));
        lemma_dec_val_prefix_le(s.drop_last(), k);
    } else {
        assert(s.take(k) =~= s);
    }
}

/// Parse an unsigned decimal integer of at most `max`, read as the
/// standard library reads unsigned integers: an optional leading plus
/// sign, then one or more decimal digits and nothing else.
fn parse_uint(s: &str, max: u64) -> (r: Option<u64>)
    requires
        max >= 9,
    ensures
        r is Some <==> uint_str_ok(s@, max as nat),
        r matches Some(v) ==> v == dec_val(uint_digits(s@)),
{
    let n = s.unicode_len();
    let start: usize = if n >= 1 && s.get_char(0) == '+' {
        1
    } else {
        0
    };
    assert(uint_digits(s@) =~= s@.skip(start as int));
    if n == start {
        return None;
    }
    let mut acc: u64 = 0;
    let mut i: usize = start;
    while i < n
        invariant
            start <= i <= n,
            n == s@.len(),
            start < n,
            max >= 9,
            uint_digits(s@) == s@.skip(start as int),
            forall|j: int| start <= j < i ==> is_dec_digit(s@[j]),
            acc == dec_val(s@.subrange(start as int, i as int)),
            acc <= max,
        decreases n - i,
    {
        let c = s.get_char(i);
        let d = c as u32;
        if d < 48 || d > 57 {
            assert(!is_dec_digit(s@.skip(start as int)[i - start]));
            return None;
        }
        let digit = (d - 48) as u64;
        let ghost prefix = s@.subrange(start as int, i as int);
        let ghost prefix1 = s@.subrange(start as int, i + 1 as int);
        assert(prefix1.drop_last() =~= prefix && prefix1.last() == s@[i as int]);
        if acc > (max - digit) / 10 {
            proof {
                vstd::arithmetic::div_mod::lemma_fundamental_div_mod((max - digit) as int, 10);
                assert(dec_val(prefix1) > max);
                assert(s@.skip(start as int).take(i + 1 - start) =~= prefix1);
                lemma_dec_val_prefix_le(s@.skip(start as int), i + 1 - start);
            }
            return None;
        }
        proof {
            vstd::arithmetic::div_mod::lemma_fundamental_div_mod((max - digit) as int, 10);
        }
        acc = acc * 10 + digit;
        i = i + 1;
    }
    assert(s@.subrange(start as int, n as int) =~= uint_digits(s@));
    Some(acc)
}

/// Split `s` on `sep`. The result always holds at least one component;
/// separators at the ends yield empty components.
pub open spec fn split_on(s: Seq<char>, sep: char) -> Seq<Seq<char>>
    decreases s.len(),
{
    if s.len() == 0 {
        seq![s]
    } else if s[0] == sep {
        seq![Seq::<char>::empty()] + split_on(s.drop_first(), sep)
    } else {
        let rest = split_on(s.drop_first(), sep);
        seq![seq![s[0]] + rest[0]] + rest.skip(1)
    }
}

/// A split always yields at least one component.
proof fn lemma_split_on_len(s: Seq<char>, sep: char)
    ensures
        split_on(s, sep).len() >= 1,
    decreases s.len(),
{
    if s.len() > 0 {
        lemma_split_on_len(s.drop_first(), sep);
    }
}

/// A string without the separator is one component.
proof fn lemma_split_on_no_sep(s: Seq<char>, sep: char)
    requires
        forall|j: int| 0 <= j < s.len() ==> s[j] != sep,
    ensures
        split_on(s, sep) == seq![s],
    decreases s.len(),
{
    if s.len() > 0 {
        lemma_split_on_no_sep(s.drop_first(), sep);
        assert(split_on(s, sep) =~~= seq![s]) by {
            assert(seq![s[0]] + s.drop_first() =~= s);
        }
    }
}

/// Splitting at the first separator: the text before it is the first
/// component, and the rest splits on its own.
proof fn lemma_split_on_at_sep(s: Seq<char>, sep: char, k: int)
    requires
        0 <= k < s.len(),
        s[k] == sep,
        forall|j: int| 0 <= j < k ==> s[j] != sep,
    ensures
        split_on(s, sep) == seq![s.take(k)] + split_on(s.skip(k + 1), sep),
    decreases s.len(),
{
    if k == 0 {
        assert(s.take(0) =~= Seq::<char>::empty());
        assert(s.skip(1) =~= s.drop_first());
    } else {
        lemma_split_on_at_sep(s.drop_first(), sep, k - 1);
        lemma_split_on_len(s.drop_first().skip(k), sep);
        assert(s.drop_first().take(k - 1) =~= s.take(k).drop_first());
        assert(s.drop_first().skip(k) =~= s.skip(k + 1));
        assert(split_on(s, sep) =~~= seq![s.take(k)] + split_on(s.skip(k + 1), sep)) by {
            assert(seq![s[0]] + s.take(k).drop_first() =~= s.take(k));
        }
    }
}

/// Split a string on semicolons into owned components.
fn split_semicolons(s: &str) -> (r: Vec<String>)
    ensures
        r.deep_view() == split_on(s@, ';'),
{
    let n = s.unicode_len();
    let mut comps: Vec<String> = Vec::new();
    let mut start: usize = 0;
    let mut i: usize = 0;
    proof {
        assert(comps.deep_view() =~= Seq::<Seq<char>>::empty());
        assert(s@.skip(0) =~= s@);
        assert(split_on(s@, ';') =~= comps.deep_view() + split_on(s@.skip(0), ';'));
    }
    while i < n
        invariant
            0 <= start <= i <= n,
            n == s@.len(),
            forall|j: int| start <= j < i ==> s@[j] != ';',
            split_on(s@, ';') =~= comps.deep_view() + split_on(s@.skip(start as int), ';'),
        decreases n - i,
    {
        let c = s.get_char(i);
        if c == ';' {
            let piece = s.substring_char(start, i).to_owned();
            proof {
                let t = s@.skip(start as int);
                lemma_split_on_at_sep(t, ';', i - start);
                assert(t.take(i - start) =~= s@.subrange(start as int, i as int));
                assert(t.skip(i - start + 1) =~= s@.skip(i + 1));
            }
            let ghost before = comps.deep_view();
            comps.push(piece);
            proof {
                assert(comps.deep_view() =~= before + seq![s@.subrange(start as int, i as int)]);
                assert(comps.deep_view() + split_on(s@.skip(i + 1), ';') =~= before + (seq![
                    s@.subrange(start as int, i as int),
                ] + split_on(s@.skip(i + 1), ';')));
            }
            start = i + 1;
        }
        i = i + 1;
    }
    let piece = s.substring_char(start, n).to_owned();
    proof {
        let t = s@.skip(start as int);
        lemma_split_on_no_sep(t, ';');
        assert(t =~= s@.subrange(start as int, n as int));
    }
    let ghost before = comps.deep_view();
    comps.push(piece);
    proof {
        assert(comps.deep_view() =~= before + seq![s@.subrange(start as int, n as int)]);
        assert(comps.deep_view() =~= split_on(s@, ';'));
    }
    comps
}

/// What a Bedrock Edition server reports about itself.
#[derive(Debug, Hash, Clone, PartialEq, Eq)]
pub struct BedrockServerInfo {
    /// Usually "MCPE", or "MCEE" for the education edition.
    pub edition: String,
    pub name: String,
    pub protocol_version: u32,
    pub mc_version: String,
    pub online_players: u32,
    pub max_players: u32,
    pub server_id: Option<u64>,
    pub map_name: Option<String>,
    pub game_mode: Option<String>,
    pub numeric_game_mode: Option<u64>,
    pub ipv4_port: Option<u16>,
    pub ipv6_port: Option<u16>,
    /// Components past the known positions, kept verbatim.
    pub extra: Vec<String>,
}

/// The mathematical shape of a Bedrock status.
pub struct BedrockServerInfoView {
    pub edition: Seq<char>,
    pub name: Seq<char>,
    pub protocol_version: u32,
    pub mc_version: Seq<char>,
    pub online_players: u32,
    pub max_players: u32,
    pub server_id: Option<u64>,
    pub map_name: Option<Seq<char>>,
    pub game_mode: Option<Seq<char>>,
    pub numeric_game_mode: Option<u64>,
    pub ipv4_port: Option<u16>,
    pub ipv6_port: Option<u16>,
    pub extra: Seq<Seq<char>>,
}

impl View for BedrockServerInfo {
    type V = BedrockServerInfoView;

    open spec fn view(&self) -> BedrockServerInfoView {
        BedrockServerInfoView {
            edition: self.edition@,
            name: self.name@,
            protocol_version: self.protocol_version,
            mc_version: self.mc_version@,
            online_players: self.online_players,
            max_players: self.max_players,
            server_id: self.server_id,
            map_name: match &self.map_name {
                Option::Some(s) => Option::Some(s@),
                Option::None => Option::None,
            },
            game_mode: match &self.game_mode {
                Option::Some(s) => Option::Some(s@),
                Option::None => Option::None,
            },
            numeric_game_mode: self.numeric_game_mode,
            ipv4_port: self.ipv4_port,
            ipv6_port: self.ipv6_port,
            extra: self.extra.deep_view(),
        }
    }
}

/// The server's description string is missing information or holds a
/// malformed number.
#[derive(Debug, PartialEq, Eq)]
pub struct ServerInfoParseError;

/// Whether the components of a description parse: at least six, with
/// whole numbers for the protocol version and the player counts.
pub open spec fn motd_ok(c: Seq<Seq<char>>) -> bool {
    c.len() >= 6 && uint_str_ok(c[2], 0xffff_ffff) && uint_str_ok(c[4], 0xffff_ffff)
        && uint_str_ok(c[5], 0xffff_ffff)
}

/// The status the components of a well-formed description carry.
/// Components past the sixth are optional, and a malformed number among
/// them reads as absent.
pub open spec fn motd_view(c: Seq<Seq<char>>) -> BedrockServerInfoView
    recommends
        motd_ok(c),
{
    BedrockServerInfoView {
        edition: c[0],
        name: c[1],
        protocol_version: dec_val(uint_digits(c[2])) as u32,
        mc_version: c[3],
        online_players: dec_val(uint_digits(c[4])) as u32,
        max_players: dec_val(uint_digits(c[5])) as u32,
        server_id: if c.len() > 6 && uint_str_ok(c[6], 0xffff_ffff_ffff_ffff) {
            Option::Some(dec_val(uint_digits(c[6])) as u64)
        } else {
            Option::None
        },
        map_name: if c.len() > 7 {
            Option::Some(c[7])
        } else {
            Option::None
        },
        game_mode: if c.len() > 8 {
            Option::Some(c[8])
        } else {
            Option::None
        },
        numeric_game_mode: if c.len() > 9 && uint_str_ok(c[9], 0xffff_ffff_ffff_ffff) {
            Option::Some(dec_val(uint_digits(c[9])) as u64)
        } else {
            Option::None
        },
        ipv4_port: if c.len() > 10 && uint_str_ok(c[10], 0xffff) {
            Option::Some(dec_val(uint_digits(c[10])) as u16)
        } else {
            Option::None
        },
        ipv6_port: if c.len() > 11 && uint_str_ok(c[11], 0xffff) {
            Option::Some(dec_val(uint_digits(c[11])) as u16)
        } else {
            Option::None
        },
        extra: if c.len() > 12 {
            c.skip(12)
        } else {
            Seq::empty()
        },
    }
}

/// Parse a description string: split on semicolons and read the fields.
pub open spec fn motd_parse(s: Seq<char>) -> Option<BedrockServerInfoView> {
    let c = split_on(s, ';');
    if motd_ok(c) {
        Option::Some(motd_view(c))
    } else {
        Option::None
    }
}

/// A description with exactly six components parses with every optional
/// field absent and nothing extra.
pub proof fn lemma_motd_six_components(s: Seq<char>)
    requires
        split_on(s, ';').len() == 6,
        motd_ok(split_on(s, ';')),
    ensures
        motd_parse(s) matches Some(info) && info.server_id is None && info.map_name is None
            && info.game_mode is None && info.numeric_game_mode is None && info.ipv4_port is None
            && info.ipv6_port is None && info.extra == Seq::<Seq<char>>::empty(),
{
}

impl BedrockServerInfo {
    /// Parse the semicolon-separated description a Bedrock server
    /// advertises. The first six components are required, and the
    /// protocol version and player counts must be whole numbers; later
    /// components are optional, with malformed numbers among them read
    /// as absent.
    pub fn from_str(s: &str) -> (r: Result<BedrockServerInfo, ServerInfoParseError>)
        ensures
            r is Ok <==> motd_parse(s@) is Some,
            r matches Ok(info) ==> motd_parse(s@) == Some(info@),
            r matches Err(e) ==> e == ServerInfoParseError && motd_parse(s@) is None,
    {
        let ghost c = split_on(s@, ';');
        let mut comps = split_semicolons(s);
        proof {
            assert(forall|i: int| 0 <= i < comps@.len() ==> comps.deep_view()[i] == comps@[i]@);
        }
        if comps.len() < 6 {
            return Err(ServerInfoParseError);
        }
        let protocol_version = match parse_uint(comps[2].as_str(), 0xffff_ffff) {
            Some(v) => v as u32,
            None => {
                return Err(ServerInfoParseError);
            },
        };
        let online_players = match parse_uint(comps[4].as_str(), 0xffff_ffff) {
            Some(v) => v as u32,
            None => {
                return Err(ServerInfoParseError);
            },
        };
        let max_players = match parse_uint(comps[5].as_str(), 0xffff_ffff) {
            Some(v) => v as u32,
            None => {
                return Err(ServerInfoParseError);
            },
        };
        let server_id = if comps.len() > 6 {
            parse_uint(comps[6].as_str(), 0xffff_ffff_ffff_ffff)
        } else {
            None
        };
        let numeric_game_mode = if comps.len() > 9 {
            parse_uint(comps[9].as_str(), 0xffff_ffff_ffff_ffff)
        } else {
            None
        };
        let ipv4_port = if comps.len() > 10 {
            match parse_uint(comps[10].as_str(), 0xffff) {
                Some(v) => Some(v as u16),
                None => None,
            }
        } else {
            None
        };
        let ipv6_port = if comps.len() > 11 {
            match parse_uint(comps[11].as_str(), 0xffff) {
                Some(v) => Some(v as u16),
                None => None,
            }
        } else {
            None
        };
        let map_name = if comps.len() > 7 {
            Some(comps[7].clone())
        } else {
            None
        };
        let game_mode = if comps.len() > 8 {
            Some(comps[8].clone())
        } else {
            None
        };
        let extra: Vec<String> = if comps.len() > 12 {
            comps.split_off(12)
        } else {
            Vec::new()
        };
        let info = BedrockServerInfo {
            edition: comps[0].clone(),
            name: comps[1].clone(),
            protocol_version,
            mc_version: comps[3].clone(),
            online_players,
            max_players,
            server_id,
            map_name,
            game_mode,
            numeric_game_mode,
            ipv4_port,
            ipv6_port,
            extra,
        };
        proof {
            assert(info@.extra =~= motd_view(c).extra);
            assert(info@ == motd_view(c));
        }
        Ok(info)
    }
}

/// The magic constant every unconnected ping and reply carries.
pub const MAGIC: u128 = 0x00ffff00_fefefefe_fdfdfdfd_12345678;

/// The RakNet unconnected ping request.
pub struct PingRequestFrame {
    /// The sender's wall clock, in milliseconds.
    pub time: i64,
    /// Must hold `MAGIC`.
    pub magic: u128,
    /// A random client id.
    pub guid: i64,
}

impl PingRequestFrame {
    /// The 33-byte request datagram: the id byte `0x01`, the big-endian
    /// timestamp, the magic constant, and the big-endian client id.
    pub fn to_vec(&self) -> (r: Vec<u8>)
        ensures
            r@ == seq![0x01u8] + be64(i64_bits(self.time)) + be128(self.magic) + be64(
                i64_bits(self.guid),
            ),
            r@.len() == 33,
    {
        let mut buf: Vec<u8> = Vec::new();
        buf.push(0x01);
        push_be64(&mut buf, i64_to_bits(self.time));
        push_be128(&mut buf, self.magic);
        push_be64(&mut buf, i64_to_bits(self.guid));
        proof {
            assert(buf@ =~= seq![0x01u8] + be64(i64_bits(self.time)) + be128(self.magic) + be64(
                i64_bits(self.guid),
            ));
        }
        buf
    }
}

/// The RakNet unconnected pong.
pub struct PingResponseFrame {
    /// The timestamp echoed from the request, in milliseconds.
    pub time: i64,
    /// The semicolon-separated description, called the server id string.
    pub motd: String,
}

/// What a valid pong datagram carries: the echoed timestamp and the
/// description characters. A datagram is valid when it holds the
/// 35-byte header with id `0x1c` and the magic constant, its declared
/// description length matches the remaining bytes, and those bytes are
/// valid UTF-8.
pub open spec fn pong_parse(bytes: Seq<u8>) -> Option<(i64, Seq<char>)> {
    if bytes.len() >= 35 && bytes[0] == 0x1c && be128_val(bytes.subrange(17, 33)) == MAGIC
        && be16_val(bytes.subrange(33, 35)) == bytes.len() - 35 && valid_utf8(bytes.skip(35)) {
        Option::Some((bits_i64(be64_val(bytes.subrange(1, 9))), decode_utf8(bytes.skip(35))))
    } else {
        Option::None
    }
}

impl PingResponseFrame {
    /// Read a pong out of one received datagram, or nothing when the
    /// datagram is not a valid pong; invalid datagrams are discarded as
    /// noise and the caller keeps waiting.
    pub fn from_bytes(bytes: &[u8]) -> (r: Option<PingResponseFrame>)
        ensures
            r is Some <==> pong_parse(bytes@) is Some,
            r matches Some(f) ==> (pong_parse(bytes@) matches Some(p) && f.time == p.0 && f.motd@
                == p.1),
    {
        let n = bytes.len();
        if n < 35 {
            return None;
        }
        let id = *vstd::slice::slice_index_get(bytes, 0);
        if id != 0x1c {
            return None;
        }
        let time_bits = read_be64(bytes, 1);
        let magic = read_be128(bytes, 17);
        if magic != MAGIC {
            return None;
        }
        let motd_len = read_be16(bytes, 33);
        if (motd_len as usize) != n - 35 {
            return None;
        }
        let motd_bytes = vstd::slice::slice_to_vec(vstd::slice::slice_subrange(bytes, 35, n));
        assert(motd_bytes@ =~= bytes@.skip(35));
        match utf8_to_string(motd_bytes) {
            Some(motd) => {
                proof {
                    vstd::utf8::encode_utf8_decode_utf8(motd@);
                }
                Some(PingResponseFrame { time: i64_from_bits(time_bits), motd })
            },
            None => None,
        }
    }
}

/// Why a Bedrock status query failed.
#[derive(Debug, PartialEq, Eq)]
pub enum BedrockPingError {
    /// The address string could not be parsed.
    AddressParse { address: String },
    /// The server answered none of the attempts.
    NoResponse,
    /// The server's description could not be understood.
    ServerInfoParse { source: ServerInfoParseError },
    /// A socket operation failed.
    Io,
    /// No address could be resolved for the host.
    DNSLookupFailed { address: String },
    /// The socket could not be opened or connected.
    ConnectFailed,
}

/// The latency a reply shows: the wall clock now minus the timestamp the
/// server echoed, in milliseconds, as the wrapping 64-bit difference.
pub fn response_latency_millis(now_millis: i64, echoed_millis: i64) -> (r: u64)
    ensures
        r == (now_millis - echoed_millis) % 0x1_0000_0000_0000_0000,
{
    let a = i64_to_bits(now_millis);
    let b = i64_to_bits(echoed_millis);
    let r: u64 = if a >= b {
        a - b
    } else {
        a + (0xffff_ffff_ffff_ffff - b) + 1
    };
    proof {
        let m: int = 0x1_0000_0000_0000_0000;
        let d: int = now_millis - echoed_millis;
        assert(d == r + ((now_millis - a) - (echoed_millis - b)) + (if a >= b {
            0int
        } else {
            -m
        }));
        let k: int = (d - r) / m;
        assert(d == m * k + r) by {
            vstd::arithmetic::div_mod::lemma_fundamental_div_mod(d - r, m);
            assert((d - r) % m == 0) by {
                vstd::arithmetic::div_mod::lemma_mod_multiples_basic((d - r) / m, m);
            };
        }
        assert(d % m == r) by {
            vstd::arithmetic::div_mod::lemma_mod_multiples_vanish(k, r as int, m);
            vstd::arithmetic::div_mod::lemma_small_mod(r as nat, m as nat);
        }
    }
    r
}

/// Decide the outcome of the attempt loop: the first valid reply wins
/// and its description is parsed; no reply at all is `NoResponse`.
pub fn ping_outcome(result: Option<(PingResponseFrame, u64)>) -> (r: Result<
    (BedrockServerInfo, u64),
    BedrockPingError,
>)
    ensures
        result is None ==> r == Err::<(BedrockServerInfo, u64), _>(BedrockPingError::NoResponse),
        result matches Some(p) ==> match motd_parse(p.0.motd@) {
            Option::Some(info) => (r matches Ok(q) && q.0@ == info && q.1 == p.1),
            Option::None => r == Err::<(BedrockServerInfo, u64), _>(
                BedrockPingError::ServerInfoParse { source: ServerInfoParseError },
            ),
        },
{
    match result {
        None => Err(BedrockPingError::NoResponse),
        Some((frame, latency)) => match BedrockServerInfo::from_str(frame.motd.as_str()) {
            Ok(info) => Ok((info, latency)),
            Err(source) => Err(BedrockPingError::ServerInfoParse { source }),
        },
    }
}

impl crate::parse::JavaServerInfo {
    /// Present a Bedrock status in the Java status shape: the name, with
    /// the map name appended on a fresh reset-styled line when there is
    /// one, becomes the description, and the player counts carry over.
    pub fn from_bedrock(value: BedrockServerInfo) -> (r: crate::parse::JavaServerInfo)
        ensures
            r.version is None,
            r.players matches Some(p) && p.max == value.max_players && p.online
                == value.online_players && p.sample is None,
            r.description@ == crate::parse::TextComponentView::Plain(
                match value.map_name {
                    Option::Some(m) => value.name@ + "\n\u{a7}r"@ + m@,
                    Option::None => value.name@,
                },
            ),
            r.favicon is None,
            r.mod_info is None,
            r.prevents_chat_reports is None,
            r.previews_chat is None,
            r.enforces_secure_chat is None,
    {
        let mut description = value.name;
        match value.map_name {
            Some(map_name) => {
                description.append("\n\u{a7}r");
                description.append(map_name.as_str());
            },
            None => {},
        }
        crate::parse::JavaServerInfo {
            version: None,
            players: Some(
                crate::parse::ServerPlayers {
                    max: value.max_players,
                    online: value.online_players,
                    sample: None,
                },
            ),
            description: crate::parse::TextComponent::Plain(description),
            favicon: None,
            mod_info: None,
            prevents_chat_reports: None,
            previews_chat: None,
            enforces_secure_chat: None,
        }
    }
}

} // verus!
