//! Connection-level encodings: the IRC handshake lines, the keepalive reply,
//! per-line classification for the read loop, JSON string escaping for the
//! playback header, and the SOCKS5 tunnel bytes.

use vstd::prelude::*;
use vstd::string::{StringSliceAdditionalSpecFns, StrSliceExecFns};

use crate::text::{ascii_lowercase, append_chars, chars_string, match_at, str_chars, sub_chars};
use crate::twitch::{
    parse_irc_spec, parse_ping, parse_ping_spec, parse_privmsg, chat_message_matches, TwitchAuth,
    TwitchChatMessage, TwitchParseError,
};

verus! {

// --- JSON string escaping ---

/// One hexadecimal digit, lower case.
pub open spec fn hex_digit_char(d: int) -> char {
    if d < 10 {
        ((d + 48) as u8) as char
    } else {
        ((d + 87) as u8) as char
    }
}

/// How one character appears inside a JSON string literal.
pub open spec fn json_escape_char(c: char) -> Seq<char> {
    if c == '"' {
        seq!['\\', '"']
    } else if c == '\\' {
        seq!['\\', '\\']
    } else if c == '\u{8}' {
        seq!['\\', 'b']
    } else if c == '\u{c}' {
        seq!['\\', 'f']
    } else if c == '\n' {
        seq!['\\', 'n']
    } else if c == '\r' {
        seq!['\\', 'r']
    } else if c == '\t' {
        seq!['\\', 't']
    } else if c <= '\u{1f}' {
        seq!['\\', 'u', '0', '0', hex_digit_char((c as u32 / 16) as int), hex_digit_char(
            (c as u32 % 16) as int,
        )]
    } else {
        seq![c]
    }
}

/// The body of a JSON string literal holding `s`.
pub open spec fn json_escape(s: Seq<char>) -> Seq<char>
    decreases s.len(),
{
    if s.len() == 0 {
        Seq::empty()
    } else {
        json_escape_char(s[0]) + json_escape(s.drop_first())
    }
}

pub proof fn lemma_json_escape_push(s: Seq<char>, c: char)
    ensures
        json_escape(s.push(c)) == json_escape(s) + json_escape_char(c),
    decreases s.len(),
{
    if s.len() == 0 {
        assert(s.push(c) =~= seq![c]);
        assert(seq![c].drop_first() =~= Seq::<char>::empty());
        assert(json_escape(Seq::<char>::empty()) == Seq::<char>::empty());
        assert(json_escape(s.push(c)) =~= json_escape(s) + json_escape_char(c));
    } else {
        assert(s.push(c).drop_first() =~= s.drop_first().push(c));
        assert(s.push(c)[0] == s[0]);
        lemma_json_escape_push(s.drop_first(), c);
        assert(json_escape(s.push(c)) =~= json_escape(s) + json_escape_char(c));
    }
}

/// Appends `s` to `acc` in JSON-escaped form.
pub fn append_json_escaped(acc: &mut Vec<char>, s: &Vec<char>)
    ensures
        final (acc)@ == old(acc)@ + json_escape(s@),
{
    let mut i: usize = 0;
    proof {
        assert(s@.take(0) =~= Seq::<char>::empty());
        assert(json_escape(Seq::<char>::empty()) == Seq::<char>::empty());
        assert(acc@ =~= acc@ + json_escape(s@.take(0)));
    }
    while i < s.len()
        invariant
            i <= s@.len(),
            acc@ == old(acc)@ + json_escape(s@.take(i as int)),
        decreases s.len() - i,
    {
        let c = s[i];
        proof {
            lemma_json_escape_push(s@.take(i as int), s@[i as int]);
            assert(s@.take(i as int).push(s@[i as int]) =~= s@.take(i + 1));
        }
        if c == '"' {
            acc.push('\\');
            acc.push('"');
        } else if c == '\\' {
            acc.push('\\');
            acc.push('\\');
        } else if c == '\u{8}' {
            acc.push('\\');
            acc.push('b');
        } else if c == '\u{c}' {
            acc.push('\\');
            acc.push('f');
        } else if c == '\n' {
            acc.push('\\');
            acc.push('n');
        } else if c == '\r' {
            acc.push('\\');
            acc.push('r');
        } else if c == '\t' {
            acc.push('\\');
            acc.push('t');
        } else if c <= '\u{1f}' {
            acc.push('\\');
            acc.push('u');
            acc.push('0');
            acc.push('0');
            let hi = (c as u32) / 16;
            let lo = (c as u32) % 16;
            let hic: char = if hi < 10 {
                ((hi + 48) as u8) as char
            } else {
                ((hi + 87) as u8) as char
            };
            let loc: char = if lo < 10 {
                ((lo + 48) as u8) as char
            } else {
                ((lo + 87) as u8) as char
            };
            acc.push(hic);
            acc.push(loc);
        } else {
            acc.push(c);
        }
        proof {
            assert(acc@ =~= old(acc)@ + json_escape(s@.take(i + 1)));
        }
        i = i + 1;
    }
    proof {
        assert(s@.take(s@.len() as int) =~= s@);
    }
}

// --- handshake lines ---

pub open spec fn is_ascii_alnum(c: char) -> bool {
    ('0' <= c && c <= '9') || ('a' <= c && c <= 'z') || ('A' <= c && c <= 'Z')
}

/// Relies on rand's `Alphanumeric` distribution sampled as a string: the
/// result has exactly `len` characters, each an ASCII letter or digit; which
/// ones come out is not modelled.
#[verifier::external_body]
fn random_alphanumeric(len: usize) -> (r: String)
    ensures
        r@.len() == len,
        forall|i: int| 0 <= i < r@.len() ==> is_ascii_alnum(#[trigger] r@[i]),
{
    rand::distr::SampleString::sample_string(&rand::distr::Alphanumeric, &mut rand::rng(), len)
}

/// A fresh anonymous nick: `justinfan` and eight random characters, lowered.
pub fn guest_nick() -> (r: String)
    ensures
        r@.len() == 17,
        r@.take(9) == "justinfan"@,
        forall|i: int|
            9 <= i < 17 ==> ('0' <= #[trigger] r@[i] && r@[i] <= '9') || ('a' <= r@[i] && r@[i]
                <= 'z'),
{
    let tail = random_alphanumeric(8);
    let tchars = str_chars(tail.as_str());
    let lower = ascii_lowercase(&tchars);
    let mut nick = str_chars("justinfan");
    proof {
        reveal_strlit("justinfan");
    }
    append_chars(&mut nick, &lower);
    proof {
        assert(nick@.take(9) =~= "justinfan"@);
        assert forall|i: int| 9 <= i < 17 implies ('0' <= #[trigger] nick@[i] && nick@[i] <= '9')
            || ('a' <= nick@[i] && nick@[i] <= 'z') by {
            let c = tchars@[i - 9];
            assert(is_ascii_alnum(c));
            assert(nick@[i] == crate::text::ascii_lower_char(c));
        }
    }
    chars_string(&nick)
}

/// The token as sent in the `PASS` line: prefixed with `oauth:` unless it
/// already is.
pub open spec fn pass_token(tok: Seq<char>) -> Seq<char> {
    if tok.len() >= 6 && tok.take(6) == "oauth:"@ {
        tok
    } else {
        "oauth:"@ + tok
    }
}

/// The authentication line: the account token, or the anonymous password.
pub fn pass_line(auth: &Option<TwitchAuth>) -> (r: String)
    ensures
        match auth {
            Some(a) => r@ == "PASS "@ + pass_token(a.oauth_token@) + "\r\n"@,
            None => r@ == "PASS SCHMOOPIIE\r\n"@,
        },
{
    match auth {
        Some(a) => {
            let tok = str_chars(a.oauth_token.as_str());
            let pat = str_chars("oauth:");
            proof {
                reveal_strlit("oauth:");
            }
            let mut r = String::new();
            r.append("PASS ");
            if match_at(&tok, &pat, 0) {
                proof {
                    assert(tok@.subrange(0, 6) =~= tok@.take(6));
                }
                r.append(a.oauth_token.as_str());
            } else {
                proof {
                    if tok@.len() >= 6 {
                        assert(tok@.subrange(0, 6) =~= tok@.take(6));
                    }
                }
                r.append("oauth:");
                r.append(a.oauth_token.as_str());
            }
            r.append("\r\n");
            r
        },
        None => String::from_str("PASS SCHMOOPIIE\r\n"),
    }
}

pub fn nick_line(identity: &str) -> (r: String)
    ensures
        r@ == "NICK "@ + identity@ + "\r\n"@,
{
    let mut r = String::new();
    r.append("NICK ");
    r.append(identity);
    r.append("\r\n");
    r
}

pub fn user_line(identity: &str) -> (r: String)
    ensures
        r@ == "USER "@ + identity@ + " 8 * :"@ + identity@ + "\r\n"@,
{
    let mut r = String::new();
    r.append("USER ");
    r.append(identity);
    r.append(" 8 * :");
    r.append(identity);
    r.append("\r\n");
    r
}

pub fn cap_line() -> (r: String)
    ensures
        r@ == "CAP REQ :twitch.tv/membership twitch.tv/tags twitch.tv/commands\r\n"@,
{
    String::from_str("CAP REQ :twitch.tv/membership twitch.tv/tags twitch.tv/commands\r\n")
}

pub fn join_line(channel: &str) -> (r: String)
    ensures
        r@ == "JOIN #"@ + channel@ + "\r\n"@,
{
    let mut r = String::new();
    r.append("JOIN #");
    r.append(channel);
    r.append("\r\n");
    r
}

/// The nick the connection runs under: the account name, or a fresh
/// anonymous one.
pub fn connection_nick(auth: &Option<TwitchAuth>) -> (r: String)
    ensures
        match auth {
            Some(a) => r@ == a.username@,
            None => r@.len() == 17 && r@.take(9) == "justinfan"@,
        },
{
    match auth {
        Some(a) => a.username.clone(),
        None => guest_nick(),
    }
}

/// The five lines of the connection handshake, in send order: PASS, NICK,
/// USER, capability request, and the channel JOIN.
pub fn handshake_lines(auth: &Option<TwitchAuth>, nick: &str, channel: &str) -> (r: Vec<String>)
    ensures
        r.deep_view().len() == 5,
        ({
            let identity = match auth {
                Some(a) => a.username@,
                None => nick@,
            };
            &&& r.deep_view()[0] == (match auth {
                Some(a) => "PASS "@ + pass_token(a.oauth_token@) + "\r\n"@,
                None => "PASS SCHMOOPIIE\r\n"@,
            })
            &&& r.deep_view()[1] == "NICK "@ + identity + "\r\n"@
            &&& r.deep_view()[2] == "USER "@ + identity + " 8 * :"@ + identity + "\r\n"@
            &&& r.deep_view()[3] == "CAP REQ :twitch.tv/membership twitch.tv/tags twitch.tv/commands\r\n"@
            &&& r.deep_view()[4] == "JOIN #"@ + channel@ + "\r\n"@
        }),
{
    let mut r: Vec<String> = Vec::new();
    r.push(pass_line(auth));
    match auth {
        Some(a) => {
            r.push(nick_line(a.username.as_str()));
            let id = a.username.clone();
            r.push(user_line(id.as_str()));
        },
        None => {
            r.push(nick_line(nick));
            r.push(user_line(nick));
        },
    }
    r.push(cap_line());
    r.push(join_line(channel));
    r
}

/// The reply to a keepalive, echoing its token.
pub fn pong_line(token: &str) -> (r: String)
    ensures
        r@ == "PONG :"@ + token@ + "\r\n"@,
{
    let mut r = String::new();
    r.append("PONG :");
    r.append(token);
    r.append("\r\n");
    r
}

/// What the read loop does with one line.
pub enum LineAction {
    /// A keepalive: reply with this token.
    Pong(String),
    /// A chat message to normalise and enqueue.
    Chat(TwitchChatMessage),
    /// A well-formed line of no interest.
    Ignore,
    /// A line that did not parse; it is skipped without failing the loop.
    Malformed,
}

/// Decides the read loop's action for one line: keepalives are answered
/// first, chat lines are extracted, everything else is skipped.
pub fn classify_line(line: &str) -> (r: LineAction)
    ensures
        match r {
            LineAction::Pong(tok) => parse_ping_spec(line@) == Some(tok@),
            LineAction::Chat(msg) => parse_ping_spec(line@) is None && parse_irc_spec(line@)
                is Some && {
                let m = parse_irc_spec(line@).unwrap();
                m.command == "PRIVMSG"@ && m.params.len() >= 2 && chat_message_matches(msg, m)
            },
            LineAction::Ignore => parse_ping_spec(line@) is None && parse_irc_spec(line@) is Some
                && parse_irc_spec(line@).unwrap().command != "PRIVMSG"@,
            LineAction::Malformed => parse_ping_spec(line@) is None && (parse_irc_spec(line@)
                is None || (parse_irc_spec(line@).unwrap().command == "PRIVMSG"@ && parse_irc_spec(
                line@,
            ).unwrap().params.len() < 2)),
        },
{
    match parse_ping(line) {
        Some(token) => LineAction::Pong(token),
        None => match parse_privmsg(line) {
            Ok(Some(msg)) => LineAction::Chat(msg),
            Ok(None) => LineAction::Ignore,
            Err(_) => LineAction::Malformed,
        },
    }
}

// --- SOCKS5 ---

/// What went wrong while building or reading tunnel messages.
#[derive(Debug, Clone, Copy, PartialEq, Eq, Structural)]
pub enum SocksError {
    HostTooLong,
    Rejected(u8),
    BadAddrType(u8),
}

/// The address form a tunnel reply carries.
#[derive(Debug, Clone, Copy, PartialEq, Eq, Structural)]
pub enum Socks5Addr {
    V4,
    Domain,
    V6,
}

/// The greeting: version 5, one method, no authentication.
pub fn socks5_greeting() -> (r: Vec<u8>)
    ensures
        r@ == seq![5u8, 1u8, 0u8],
{
    let mut r: Vec<u8> = Vec::new();
    r.push(5);
    r.push(1);
    r.push(0);
    proof {
        assert(r@ =~= seq![5u8, 1u8, 0u8]);
    }
    r
}

/// Whether the greeting reply accepts the no-authentication method.
pub fn socks5_greeting_ok(reply0: u8, reply1: u8) -> (r: bool)
    ensures
        r == (reply0 == 5 && reply1 == 0),
{
    reply0 == 5 && reply1 == 0
}

/// The CONNECT request for `host:port` by domain name.
pub open spec fn socks5_connect_request_spec(host: Seq<u8>, port: u16) -> Seq<u8> {
    seq![5u8, 1u8, 0u8, 3u8, host.len() as u8] + host + seq![(port >> 8) as u8, (port & 0xff) as u8]
}

/// Builds the CONNECT request; a host name over 255 bytes cannot be framed.
pub fn socks5_connect_request(host: &str, port: u16) -> (r: Result<Vec<u8>, SocksError>)
    ensures
        match r {
            Ok(v) => host.spec_bytes().len() <= 255 && v@ == socks5_connect_request_spec(
                host.spec_bytes(),
                port,
            ),
            Err(e) => host.spec_bytes().len() > 255 && e == SocksError::HostTooLong,
        },
{
    let hb = host.as_bytes_vec();
    if hb.len() > 255 {
        return Err(SocksError::HostTooLong);
    }
    let mut r: Vec<u8> = Vec::new();
    r.push(5);
    r.push(1);
    r.push(0);
    r.push(3);
    r.push(hb.len() as u8);
    let mut i: usize = 0;
    while i < hb.len()
        invariant
            i <= hb@.len(),
            hb@ == host.spec_bytes(),
            r@ == seq![5u8, 1u8, 0u8, 3u8, hb@.len() as u8] + hb@.take(i as int),
        decreases hb.len() - i,
    {
        r.push(hb[i]);
        i = i + 1;
        proof {
            assert(r@ =~= seq![5u8, 1u8, 0u8, 3u8, hb@.len() as u8] + hb@.take(i as int));
        }
    }
    r.push((port >> 8) as u8);
    r.push((port & 0xff) as u8);
    proof {
        assert(hb@.take(hb@.len() as int) =~= hb@);
        assert(r@ =~= socks5_connect_request_spec(host.spec_bytes(), port));
    }
    Ok(r)
}

/// Reads the fixed reply head: the request must be granted, and the bound
/// address must be of a known form.
pub fn socks5_reply_check(h0: u8, h1: u8, h2: u8, h3: u8) -> (r: Result<Socks5Addr, SocksError>)
    ensures
        match r {
            Ok(a) => h1 == 0 && ((h3 == 1 && a == Socks5Addr::V4) || (h3 == 3 && a
                == Socks5Addr::Domain) || (h3 == 4 && a == Socks5Addr::V6)),
            Err(SocksError::Rejected(code)) => h1 != 0 && code == h1,
            Err(SocksError::BadAddrType(t)) => h1 == 0 && t == h3 && h3 != 1 && h3 != 3 && h3 != 4,
            Err(SocksError::HostTooLong) => false,
        },
{
    if h1 != 0 {
        return Err(SocksError::Rejected(h1));
    }
    if h3 == 1 {
        Ok(Socks5Addr::V4)
    } else if h3 == 3 {
        Ok(Socks5Addr::Domain)
    } else if h3 == 4 {
        Ok(Socks5Addr::V6)
    } else {
        Err(SocksError::BadAddrType(h3))
    }
}

/// How many bound-address bytes follow the head at once; a domain reply
/// first carries one length byte instead.
pub fn socks5_addr_fixed_len(addr: Socks5Addr) -> (r: Option<usize>)
    ensures
        match addr {
            Socks5Addr::V4 => r == Some(4usize),
            Socks5Addr::V6 => r == Some(16usize),
            Socks5Addr::Domain => r is None,
        },
{
    match addr {
        Socks5Addr::V4 => Some(4),
        Socks5Addr::V6 => Some(16),
        Socks5Addr::Domain => None,
    }
}

/// The SOCKS5 proxy address of a raw setting: an optional `socks5://` scheme
/// (any other scheme is refused), then `host:port`.
pub open spec fn parse_proxy_addr_spec(raw: Seq<char>) -> Option<(Seq<char>, u16)> {
    let t = crate::text::trim_spaces_spec(raw);
    let after = if crate::text::contains_seq(t, "://"@) {
        let idx = crate::text::find_first(t, "://"@);
        if scheme_is_socks5(t.take(idx)) {
            Some(t.skip(idx + 3))
        } else {
            None
        }
    } else {
        Some(t)
    };
    match after {
        None => None,
        Some(rest) => {
            let k = crate::text::leading_while(rest, crate::text::char_ne_fn(':')) as int;
            if k >= rest.len() {
                None
            } else {
                let host = crate::text::trim_spaces_spec(rest.take(k));
                let port_txt = crate::text::trim_spaces_spec(rest.skip(k + 1));
                match crate::text::parse_uint_spec(port_txt) {
                    Some(p) => if p <= u16::MAX {
                        Some((host, p as u16))
                    } else {
                        None
                    },
                    None => None,
                }
            }
        },
    }
}

/// Whether the scheme equals `socks5`, ASCII case ignored.
pub open spec fn scheme_is_socks5(s: Seq<char>) -> bool {
    crate::text::ascii_lower_seq(s) == "socks5"@
}

/// Reads a proxy setting of the form `[socks5://]host:port`.
pub fn parse_proxy_addr(raw: &str) -> (r: Option<(String, u16)>)
    ensures
        match r {
            Some(p) => parse_proxy_addr_spec(raw@) == Some((p.0@, p.1)),
            None => parse_proxy_addr_spec(raw@) is None,
        },
{
    let chars = str_chars(raw);
    let t = crate::text::trim_spaces_chars(&chars);
    let pat = str_chars("://");
    proof {
        reveal_strlit("://");
        assert(pat@.len() == 3);
    }
    let rest: Vec<char> = match crate::text::find_sub(&t, &pat) {
        Some(i) => {
            proof {
                crate::text::lemma_first_match_exists(t@, pat@, i as int);
                let j = crate::text::find_first(t@, pat@);
                crate::text::lemma_first_match_unique(t@, pat@, i as int, j);
            }
            let scheme = sub_chars(&t, 0, i);
            let low = ascii_lowercase(&scheme);
            let socks = str_chars("socks5");
            proof {
                reveal_strlit("socks5");
            }
            if !crate::text::eq_chars(&low, &socks) {
                return None;
            }
            let n = t.len();
            proof {
                assert(i + pat@.len() <= t@.len());
            }
            let after = sub_chars(&t, i + 3, n);
            proof {
                assert(after@ =~= t@.skip(i + 3));
            }
            after
        },
        None => t,
    };
    let k = crate::text::find_char(&rest, ':');
    proof {
        crate::text::lemma_leading_while(rest@, crate::text::char_ne_fn(':'));
    }
    if k == rest.len() {
        return None;
    }
    let host_part = sub_chars(&rest, 0, k);
    let host = crate::text::trim_spaces_chars(&host_part);
    let port_part = sub_chars(&rest, k + 1, rest.len());
    let port_txt = crate::text::trim_spaces_chars(&port_part);
    proof {
        assert(host_part@ =~= rest@.take(k as int));
        assert(port_part@ =~= rest@.skip(k + 1));
    }
    match crate::text::parse_u64_chars(&port_txt) {
        Some(p) => {
            if p <= 65535 {
                Some((chars_string(&host), p as u16))
            } else {
                None
            }
        },
        None => None,
    }
}

} // verus!
