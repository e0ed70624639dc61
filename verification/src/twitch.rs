//! The Twitch IRC line grammar: tag blocks, sender prefixes, commands and
//! parameters, and the extraction of chat messages, keepalives and deletions.

use vstd::prelude::*;

use crate::message::{
    EmoteRange, EmoteSpec, Metadata, MetaValue, NormalizedMessage, Platform, Priority, ReplyInfo,
};
use crate::text::{
    char_ne_fn, chars_string, contains_seq, find_char, find_first, join_with, leading_while,
    lemma_leading_while, lower_of, lowercase, matches_at, parse_i64_chars, parse_int_spec,
    parse_u32_chars, parse_uint_spec, parse_usize_chars, split_on, split_on_chars, str_chars,
    strip_leading, strip_leading_char, strip_leading_spaces, strip_leading_space_chars,
    strip_trailing, strip_trailing_char, sub_chars, trim_spaces_chars, trim_spaces_spec,
};

verus! {

/// One parsed IRC line, in mathematical form.
pub ghost struct IrcLine {
    pub tags: Seq<(Seq<char>, Seq<char>)>,
    pub prefix: Option<Seq<char>>,
    pub command: Seq<char>,
    pub params: Seq<Seq<char>>,
}

/// A `key=value` tag; a part without `=` has an empty value.
pub open spec fn tag_pair(part: Seq<char>) -> (Seq<char>, Seq<char>) {
    let k = leading_while(part, char_ne_fn('=')) as int;
    if k >= part.len() {
        (part, Seq::empty())
    } else {
        (part.take(k), part.skip(k + 1))
    }
}

/// The tag block `@k1=v1;k2=v2;...`, leading `@` stripped, split at `;`.
pub open spec fn irc_tags(raw: Seq<char>) -> Seq<(Seq<char>, Seq<char>)> {
    split_on(strip_leading(raw, '@'), ';').map_values(|p: Seq<char>| tag_pair(p))
}

/// The parameter list: empty parts are skipped, and a part beginning with
/// `:` consumes the remainder of the line, its leading colons stripped.
pub open spec fn irc_params(parts: Seq<Seq<char>>) -> Seq<Seq<char>>
    decreases parts.len(),
{
    if parts.len() == 0 {
        Seq::empty()
    } else if parts[0].len() == 0 {
        irc_params(parts.drop_first())
    } else if parts[0][0] == ':' {
        let t = strip_leading(parts[0], ':');
        let rest = parts.drop_first();
        if rest.len() == 0 {
            seq![t]
        } else if t.len() == 0 {
            seq![join_with(rest, ' ')]
        } else {
            seq![t + seq![' '] + join_with(rest, ' ')]
        }
    } else {
        seq![parts[0]] + irc_params(parts.drop_first())
    }
}

pub open spec fn irc_params_of(p: Seq<char>) -> Seq<Seq<char>> {
    if p.len() == 0 {
        Seq::empty()
    } else {
        irc_params(split_on(p, ' '))
    }
}

/// The line with trailing carriage returns, then trailing newlines, removed.
pub open spec fn irc_line_body(line: Seq<char>) -> Seq<char> {
    strip_trailing(strip_trailing(line, '\r'), '\n')
}

/// The command and parameters of what follows tag block and prefix.
pub open spec fn irc_command_part(
    tags: Seq<(Seq<char>, Seq<char>)>,
    prefix: Option<Seq<char>>,
    rest: Seq<char>,
) -> IrcLine {
    let ce = leading_while(rest, char_ne_fn(' ')) as int;
    if ce >= rest.len() {
        IrcLine { tags, prefix, command: rest, params: Seq::empty() }
    } else {
        IrcLine { tags, prefix, command: rest.take(ce), params: irc_params_of(rest.skip(ce + 1)) }
    }
}

/// The prefix step: an optional `:`-led sender segment up to the first space.
pub open spec fn irc_after_tags(tags: Seq<(Seq<char>, Seq<char>)>, rest: Seq<char>) -> Option<
    IrcLine,
> {
    if rest.len() > 0 && rest[0] == ':' {
        let sp = leading_while(rest, char_ne_fn(' ')) as int;
        if sp >= rest.len() {
            None
        } else {
            Some(
                irc_command_part(
                    tags,
                    Some(rest.subrange(1, sp)),
                    strip_leading_spaces(rest.skip(sp + 1)),
                ),
            )
        }
    } else {
        Some(irc_command_part(tags, None, rest))
    }
}

/// The whole grammar: `None` is a malformed line.
pub open spec fn parse_irc_spec(line: Seq<char>) -> Option<IrcLine> {
    let body = irc_line_body(line);
    if body.len() > 0 && body[0] == '@' {
        let sp = leading_while(body, char_ne_fn(' ')) as int;
        if sp >= body.len() {
            None
        } else {
            irc_after_tags(irc_tags(body.take(sp)), strip_leading_spaces(body.skip(sp)))
        }
    } else {
        irc_after_tags(Seq::empty(), body)
    }
}

/// Which segment a malformed line failed in.
#[derive(Debug, Clone, Copy, PartialEq, Eq, Structural)]
pub enum IrcError {
    InvalidTags,
    InvalidPrefix,
}

pub open spec fn irc_error_of(line: Seq<char>) -> IrcError {
    let body = irc_line_body(line);
    if body.len() > 0 && body[0] == '@' && leading_while(body, char_ne_fn(' ')) >= body.len() {
        IrcError::InvalidTags
    } else {
        IrcError::InvalidPrefix
    }
}

/// One parsed IRC line: tag pairs in line order, optional sender prefix,
/// command, and parameters.
#[derive(Debug, Clone)]
pub struct RawIrcMessage {
    pub tags: Vec<(String, String)>,
    pub prefix: Option<String>,
    pub command: String,
    pub params: Vec<String>,
}

/// The executable message carries exactly the parsed line.
pub open spec fn irc_matches(m: RawIrcMessage, s: IrcLine) -> bool {
    &&& m.tags.deep_view() == s.tags
    &&& match m.prefix {
        Some(p) => s.prefix is Some && p@ == s.prefix.unwrap(),
        None => s.prefix is None,
    }
    &&& m.command@ == s.command
    &&& m.params.deep_view() == s.params
}

/// The tag pairs of one tag block.
fn parse_tags_chars(raw: &Vec<char>) -> (r: Vec<(String, String)>)
    ensures
        r.deep_view() == irc_tags(raw@),
{
    let stripped = strip_leading_char(raw, '@');
    let parts = split_on_chars(&stripped, ';');
    let mut r: Vec<(String, String)> = Vec::new();
    let ghost spec_tags = irc_tags(raw@);
    proof {
        assert(spec_tags.len() == parts.deep_view().len());
    }
    let mut i: usize = 0;
    while i < parts.len()
        invariant
            i <= parts@.len(),
            parts.deep_view() == split_on(strip_leading(raw@, '@'), ';'),
            spec_tags == irc_tags(raw@),
            spec_tags.len() == parts@.len(),
            r.deep_view().len() == i,
            forall|j: int| 0 <= j < i ==> r.deep_view()[j] == spec_tags[j],
        decreases parts.len() - i,
    {
        let part = &parts[i];
        proof {
            assert(parts.deep_view()[i as int] == parts@[i as int].deep_view());
            assert(parts@[i as int].deep_view() =~= parts@[i as int]@);
            assert(spec_tags[i as int] == tag_pair(parts@[i as int]@));
        }
        let k = find_char(part, '=');
        proof {
            lemma_leading_while(part@, char_ne_fn('='));
        }
        let pair = if k == part.len() {
            let key = sub_chars(part, 0, part.len());
            proof {
                assert(key@ =~= part@);
            }
            let empty: Vec<char> = Vec::new();
            (chars_string(&key), chars_string(&empty))
        } else {
            let key = sub_chars(part, 0, k);
            let value = sub_chars(part, k + 1, part.len());
            proof {
                assert(key@ =~= part@.take(k as int));
                assert(value@ =~= part@.skip(k + 1));
            }
            (chars_string(&key), chars_string(&value))
        };
        r.push(pair);
        i = i + 1;
    }
    proof {
        assert(r.deep_view() =~= spec_tags);
    }
    r
}

/// The parameter list of one line, after the command.
fn parse_params_chars(p: &Vec<char>) -> (r: Vec<String>)
    ensures
        r.deep_view() == irc_params_of(p@),
{
    let mut r: Vec<String> = Vec::new();
    if p.len() == 0 {
        proof {
            assert(r.deep_view() =~= irc_params_of(p@));
        }
        return r;
    }
    let parts = split_on_chars(p, ' ');
    let ghost full = parts.deep_view();
    proof {
        assert(full.skip(0) =~= full);
        assert(r.deep_view() + irc_params(full) =~= irc_params(full));
    }
    let mut i: usize = 0;
    while i < parts.len()
        invariant
            i <= parts@.len(),
            parts.deep_view() == full,
            full.len() == parts@.len(),
            irc_params_of(p@) == irc_params(full),
            r.deep_view() + irc_params(full.skip(i as int)) == irc_params(full),
        decreases parts.len() - i,
    {
        let part = &parts[i];
        proof {
            assert(full[i as int] == parts@[i as int].deep_view());
            assert(parts@[i as int].deep_view() =~= parts@[i as int]@);
            assert(full.skip(i as int)[0] == full[i as int]);
            assert(full.skip(i as int).drop_first() =~= full.skip(i + 1));
        }
        if part.len() == 0 {
            proof {
                assert(irc_params(full.skip(i as int)) == irc_params(full.skip(i + 1)));
            }
            i = i + 1;
        } else if part[0] == ':' {
            let t = strip_leading_char(part, ':');
            let mut rest_parts: Vec<Vec<char>> = Vec::new();
            let mut m: usize = i + 1;
            proof {
                assert(rest_parts.deep_view() =~= full.subrange(i + 1, i + 1));
            }
            while m < parts.len()
                invariant
                    i + 1 <= m <= parts@.len(),
                    parts.deep_view() == full,
                    full.len() == parts@.len(),
                    rest_parts.deep_view() == full.subrange(i + 1, m as int),
                decreases parts.len() - m,
            {
                let q = &parts[m];
                let copy = sub_chars(q, 0, q.len());
                proof {
                    assert(full[m as int] == parts@[m as int].deep_view());
                    assert(parts@[m as int].deep_view() =~= parts@[m as int]@);
                    assert(copy@ =~= parts@[m as int]@);
                }
                let ghost old_rp = rest_parts.deep_view();
                rest_parts.push(copy);
                proof {
                    assert(rest_parts.deep_view() =~~= old_rp.push(copy@));
                    assert(rest_parts.deep_view() =~~= full.subrange(i + 1, m + 1));
                }
                m = m + 1;
            }
            proof {
                assert(rest_parts.deep_view() =~= full.skip(i + 1));
            }
            let trailing: Vec<char> = if rest_parts.len() == 0 {
                t
            } else if t.len() == 0 {
                crate::text::join_chars(&rest_parts, ' ')
            } else {
                let mut acc = t;
                acc.push(' ');
                let joined = crate::text::join_chars(&rest_parts, ' ');
                crate::text::append_chars(&mut acc, &joined);
                proof {
                    assert(acc@ =~= strip_leading(parts@[i as int]@, ':') + seq![' '] + join_with(
                        full.skip(i + 1),
                        ' ',
                    ));
                }
                acc
            };
            proof {
                let sk = full.skip(i as int);
                assert(sk.drop_first() =~= full.skip(i + 1));
                assert(irc_params(sk) == seq![trailing@]);
            }
            r.push(chars_string(&trailing));
            proof {
                assert(r.deep_view() =~~= irc_params(full));
            }
            return r;
        } else {
            proof {
                let sk = full.skip(i as int);
                assert(irc_params(sk) == seq![sk[0]] + irc_params(sk.drop_first()));
            }
            let copy = sub_chars(part, 0, part.len());
            proof {
                assert(copy@ =~= parts@[i as int]@);
            }
            let ghost old_r = r.deep_view();
            r.push(chars_string(&copy));
            proof {
                assert(r.deep_view() =~~= old_r.push(copy@));
                assert(r.deep_view() + irc_params(full.skip(i + 1)) =~~= irc_params(full));
            }
            i = i + 1;
        }
    }
    proof {
        assert(full.skip(parts@.len() as int) =~= Seq::<Seq<char>>::empty());
        assert(r.deep_view() =~= irc_params(full));
    }
    r
}

/// Parses one IRC line: an `@`-led tag block, an optional `:`-led prefix, a
/// command token, and space-separated parameters where a `:`-led parameter
/// takes the rest of the line.
pub fn parse_irc_message(line: &str) -> (r: Result<RawIrcMessage, IrcError>)
    ensures
        match r {
            Ok(m) => parse_irc_spec(line@) is Some && irc_matches(m, parse_irc_spec(line@).unwrap()),
            Err(e) => parse_irc_spec(line@) is None && e == irc_error_of(line@),
        },
{
    let chars = str_chars(line);
    let no_cr = strip_trailing_char(&chars, '\r');
    let body = strip_trailing_char(&no_cr, '\n');
    let ghost sbody = irc_line_body(line@);
    proof {
        assert(body@ == sbody);
    }
    let mut tags: Vec<(String, String)> = Vec::new();
    let rest: Vec<char>;
    if body.len() > 0 && body[0] == '@' {
        let sp = find_char(&body, ' ');
        proof {
            lemma_leading_while(body@, char_ne_fn(' '));
        }
        if sp == body.len() {
            return Err(IrcError::InvalidTags);
        }
        let raw = sub_chars(&body, 0, sp);
        proof {
            assert(raw@ =~= sbody.take(sp as int));
        }
        tags = parse_tags_chars(&raw);
        let after = sub_chars(&body, sp, body.len());
        proof {
            assert(after@ =~= sbody.skip(sp as int));
        }
        rest = strip_leading_space_chars(&after);
    } else {
        proof {
            assert(tags.deep_view() =~= Seq::<(Seq<char>, Seq<char>)>::empty());
        }
        rest = body;
    }
    let ghost stags = tags.deep_view();
    let mut prefix: Option<String> = None;
    let rest2: Vec<char>;
    if rest.len() > 0 && rest[0] == ':' {
        let sp2 = find_char(&rest, ' ');
        proof {
            lemma_leading_while(rest@, char_ne_fn(' '));
        }
        if sp2 == rest.len() {
            return Err(IrcError::InvalidPrefix);
        }
        let pfx = sub_chars(&rest, 1, sp2);
        prefix = Some(chars_string(&pfx));
        let after2 = sub_chars(&rest, sp2 + 1, rest.len());
        proof {
            assert(after2@ =~= rest@.skip(sp2 + 1));
        }
        rest2 = strip_leading_space_chars(&after2);
    } else {
        rest2 = rest;
    }
    let ce = find_char(&rest2, ' ');
    proof {
        lemma_leading_while(rest2@, char_ne_fn(' '));
    }
    let cmd = sub_chars(&rest2, 0, ce);
    let command = chars_string(&cmd);
    let params: Vec<String>;
    if ce < rest2.len() {
        let ppart = sub_chars(&rest2, ce + 1, rest2.len());
        proof {
            assert(ppart@ =~= rest2@.skip(ce + 1));
        }
        params = parse_params_chars(&ppart);
    } else {
        params = Vec::new();
        proof {
            assert(cmd@ =~= rest2@);
            assert(params.deep_view() =~= Seq::<Seq<char>>::empty());
        }
    }
    Ok(RawIrcMessage { tags, prefix, command, params })
}

// --- tag lookup ---

/// The value stored for `key`, a later pair shadowing an earlier one.
pub open spec fn assoc_get(entries: Seq<(Seq<char>, Seq<char>)>, key: Seq<char>) -> Option<
    Seq<char>,
>
    decreases entries.len(),
{
    if entries.len() == 0 {
        None
    } else if entries.last().0 == key {
        Some(entries.last().1)
    } else {
        assoc_get(entries.drop_last(), key)
    }
}

/// The value of the tag `key`, if present.
pub fn tags_value<'a>(tags: &'a Vec<(String, String)>, key: &str) -> (r: Option<&'a String>)
    ensures
        match r {
            Some(v) => assoc_get(tags.deep_view(), key@) == Some(v@),
            None => assoc_get(tags.deep_view(), key@) is None,
        },
{
    let key_s = String::from_str(key);
    let ghost dv = tags.deep_view();
    proof {
        assert(dv.take(tags@.len() as int) =~= dv);
    }
    let mut i: usize = tags.len();
    while i > 0
        invariant
            i <= tags@.len(),
            dv == tags.deep_view(),
            dv.len() == tags@.len(),
            key_s@ == key@,
            assoc_get(dv, key@) == assoc_get(dv.take(i as int), key@),
        decreases i,
    {
        proof {
            assert(dv.take(i as int).last() == dv[i - 1]);
            assert(dv.take(i as int).drop_last() =~= dv.take(i - 1));
            assert(dv[i - 1] == tags@[i - 1].deep_view());
        }
        if tags[i - 1].0 == key_s {
            return Some(&tags[i - 1].1);
        }
        i = i - 1;
    }
    proof {
        assert(dv.take(0) =~= Seq::<(Seq<char>, Seq<char>)>::empty());
    }
    None
}

/// Whether the tag `key` holds exactly `"1"`.
pub fn tag_as_bool(tags: &Vec<(String, String)>, key: &str) -> (r: bool)
    ensures
        r == (assoc_get(tags.deep_view(), key@) == Some("1"@)),
{
    let one = String::from_str("1");
    match tags_value(tags, key) {
        Some(v) => *v == one,
        None => false,
    }
}

// --- chat message extraction ---

/// One chat message, as read off a `PRIVMSG` line.
#[derive(Debug, Clone)]
pub struct TwitchChatMessage {
    pub channel: String,
    pub username: String,
    pub user_id: Option<String>,
    pub message: String,
    pub bits: Option<u32>,
    pub badges: Vec<String>,
    pub raw_tags: Vec<(String, String)>,
}

/// Malformed lines, and a `PRIVMSG`/`CLEARMSG` with fewer than two
/// parameters.
#[derive(Debug, Clone, Copy, PartialEq, Eq, Structural)]
pub enum TwitchParseError {
    Irc(IrcError),
    MissingParams,
}

/// The nick of a sender prefix: everything before the first `!`.
pub open spec fn prefix_nick(p: Seq<char>) -> Seq<char> {
    let k = leading_while(p, char_ne_fn('!')) as int;
    if k >= p.len() {
        p
    } else {
        p.take(k)
    }
}

/// The display name of a chat line: the `display-name` tag, else the prefix
/// nick, else `"unknown"`.
pub open spec fn display_name_of(m: IrcLine) -> Seq<char> {
    match assoc_get(m.tags, "display-name"@) {
        Some(d) => d,
        None => match m.prefix {
            Some(p) => prefix_nick(p),
            None => "unknown"@,
        },
    }
}

/// The executable chat message carries exactly what the parsed line holds.
pub open spec fn chat_message_matches(msg: TwitchChatMessage, m: IrcLine) -> bool {
    &&& msg.channel@ == strip_leading(m.params[0], '#')
    &&& msg.message@ == m.params[1]
    &&& msg.username@ == display_name_of(m)
    &&& match assoc_get(m.tags, "user-id"@) {
        Some(v) => msg.user_id is Some && msg.user_id.unwrap()@ == v,
        None => msg.user_id is None,
    }
    &&& match assoc_get(m.tags, "bits"@) {
        Some(v) => if parse_uint_spec(v) is Some && parse_uint_spec(v).unwrap() <= u32::MAX {
            msg.bits == Some(parse_uint_spec(v).unwrap() as u32)
        } else {
            msg.bits is None
        },
        None => msg.bits is None,
    }
    &&& match assoc_get(m.tags, "badges"@) {
        Some(v) => msg.badges.deep_view() == split_on(v, ','),
        None => msg.badges@.len() == 0,
    }
    &&& msg.raw_tags.deep_view() == m.tags
}

/// Splits `v` at `sep` into owned strings.
fn split_to_strings(v: &Vec<char>, sep: char) -> (r: Vec<String>)
    ensures
        r.deep_view() == split_on(v@, sep),
{
    let parts = split_on_chars(v, sep);
    let mut r: Vec<String> = Vec::new();
    let mut i: usize = 0;
    while i < parts.len()
        invariant
            i <= parts@.len(),
            parts.deep_view() == split_on(v@, sep),
            parts.deep_view().len() == parts@.len(),
            r.deep_view().len() == i,
            forall|j: int| 0 <= j < i ==> r.deep_view()[j] == parts.deep_view()[j],
        decreases parts.len() - i,
    {
        proof {
            assert(parts.deep_view()[i as int] == parts@[i as int].deep_view());
            assert(parts@[i as int].deep_view() =~= parts@[i as int]@);
        }
        r.push(chars_string(&parts[i]));
        i = i + 1;
    }
    proof {
        assert(r.deep_view() =~= split_on(v@, sep));
    }
    r
}

/// Parses a chat line. `Ok(None)` is a well-formed line of another command;
/// a `PRIVMSG` yields channel, display name, text, bits and badges.
pub fn parse_privmsg(line: &str) -> (r: Result<Option<TwitchChatMessage>, TwitchParseError>)
    ensures
        match r {
            Ok(out) => parse_irc_spec(line@) is Some && {
                let m = parse_irc_spec(line@).unwrap();
                match out {
                    Some(msg) => m.command == "PRIVMSG"@ && m.params.len() >= 2
                        && chat_message_matches(msg, m),
                    None => m.command != "PRIVMSG"@,
                }
            },
            Err(TwitchParseError::Irc(e)) => parse_irc_spec(line@) is None && e == irc_error_of(
                line@,
            ),
            Err(TwitchParseError::MissingParams) => parse_irc_spec(line@) is Some && {
                let m = parse_irc_spec(line@).unwrap();
                m.command == "PRIVMSG"@ && m.params.len() < 2
            },
        },
{
    let msg = match parse_irc_message(line) {
        Ok(m) => m,
        Err(e) => {
            return Err(TwitchParseError::Irc(e));
        },
    };
    let privmsg = String::from_str("PRIVMSG");
    proof {
        reveal_strlit("PRIVMSG");
    }
    if !(msg.command == privmsg) {
        return Ok(None);
    }
    if msg.params.len() < 2 {
        return Err(TwitchParseError::MissingParams);
    }
    let ghost m = parse_irc_spec(line@).unwrap();
    proof {
        assert(msg.params.deep_view()[0] == msg.params@[0]@);
        assert(msg.params.deep_view()[1] == msg.params@[1]@);
    }
    let chan_chars = str_chars(msg.params[0].as_str());
    let channel = chars_string(&strip_leading_char(&chan_chars, '#'));
    let message = chars_string(&str_chars(msg.params[1].as_str()));
    let username: String = match tags_value(&msg.tags, "display-name") {
        Some(d) => chars_string(&str_chars(d.as_str())),
        None => match &msg.prefix {
            Some(p) => {
                let pc = str_chars(p.as_str());
                let k = find_char(&pc, '!');
                proof {
                    lemma_leading_while(pc@, char_ne_fn('!'));
                }
                let nick = sub_chars(&pc, 0, k);
                proof {
                    if k == pc@.len() {
                        assert(nick@ =~= pc@);
                    } else {
                        assert(nick@ =~= pc@.take(k as int));
                    }
                    assert(nick@ == prefix_nick(pc@));
                }
                chars_string(&nick)
            },
            None => String::from_str("unknown"),
        },
    };
    let user_id: Option<String> = match tags_value(&msg.tags, "user-id") {
        Some(v) => Some(chars_string(&str_chars(v.as_str()))),
        None => None,
    };
    let bits: Option<u32> = match tags_value(&msg.tags, "bits") {
        Some(v) => parse_u32_chars(&str_chars(v.as_str())),
        None => None,
    };
    let badges: Vec<String> = match tags_value(&msg.tags, "badges") {
        Some(v) => split_to_strings(&str_chars(v.as_str()), ','),
        None => Vec::new(),
    };
    let out = TwitchChatMessage {
        channel,
        username,
        user_id,
        message,
        bits,
        badges,
        raw_tags: msg.tags,
    };
    proof {
        assert(chat_message_matches(out, m));
    }
    Ok(Some(out))
}

/// Parses a moderation line: a `CLEARMSG` yields channel and target user.
pub fn parse_clearmsg(line: &str) -> (r: Result<Option<(String, String)>, TwitchParseError>)
    ensures
        match r {
            Ok(out) => parse_irc_spec(line@) is Some && {
                let m = parse_irc_spec(line@).unwrap();
                match out {
                    Some(pair) => m.command == "CLEARMSG"@ && m.params.len() >= 2 && pair.0@
                        == strip_leading(m.params[0], '#') && pair.1@ == m.params[1],
                    None => m.command != "CLEARMSG"@,
                }
            },
            Err(TwitchParseError::Irc(e)) => parse_irc_spec(line@) is None && e == irc_error_of(
                line@,
            ),
            Err(TwitchParseError::MissingParams) => parse_irc_spec(line@) is Some && {
                let m = parse_irc_spec(line@).unwrap();
                m.command == "CLEARMSG"@ && m.params.len() < 2
            },
        },
{
    let msg = match parse_irc_message(line) {
        Ok(m) => m,
        Err(e) => {
            return Err(TwitchParseError::Irc(e));
        },
    };
    let clearmsg = String::from_str("CLEARMSG");
    proof {
        reveal_strlit("CLEARMSG");
    }
    if !(msg.command == clearmsg) {
        return Ok(None);
    }
    if msg.params.len() < 2 {
        return Err(TwitchParseError::MissingParams);
    }
    proof {
        assert(msg.params.deep_view()[0] == msg.params@[0]@);
        assert(msg.params.deep_view()[1] == msg.params@[1]@);
    }
    let chan_chars = str_chars(msg.params[0].as_str());
    let channel = chars_string(&strip_leading_char(&chan_chars, '#'));
    let target = chars_string(&str_chars(msg.params[1].as_str()));
    Ok(Some((channel, target)))
}

// --- emotes ---

/// One emote occurrence, in mathematical form.
pub ghost struct GhostEmote {
    pub id: Seq<char>,
    pub positions: Seq<(int, int)>,
}

/// A `start-end` pair; anything ill-formed or out of range is dropped.
pub open spec fn emote_range_of(r: Seq<char>) -> Option<(int, int)> {
    let k = leading_while(r, char_ne_fn('-')) as int;
    if k >= r.len() {
        None
    } else {
        let s = parse_uint_spec(r.take(k));
        let e = parse_uint_spec(r.skip(k + 1));
        if s is Some && s.unwrap() <= usize::MAX && e is Some && e.unwrap() <= usize::MAX {
            Some((s.unwrap(), e.unwrap()))
        } else {
            None
        }
    }
}

pub open spec fn emote_positions_of(parts: Seq<Seq<char>>) -> Seq<(int, int)>
    decreases parts.len(),
{
    if parts.len() == 0 {
        Seq::empty()
    } else {
        match emote_range_of(parts[0]) {
            Some(p) => seq![p] + emote_positions_of(parts.drop_first()),
            None => emote_positions_of(parts.drop_first()),
        }
    }
}

/// One `id:ranges` segment of the emotes tag; an empty segment or one
/// without `:` is dropped.
pub open spec fn emote_of(part: Seq<char>) -> Option<GhostEmote> {
    if part.len() == 0 {
        None
    } else {
        let ps = split_on(part, ':');
        if ps.len() < 2 {
            None
        } else {
            Some(GhostEmote { id: ps[0], positions: emote_positions_of(split_on(ps[1], ',')) })
        }
    }
}

pub open spec fn emotes_from(parts: Seq<Seq<char>>) -> Seq<GhostEmote>
    decreases parts.len(),
{
    if parts.len() == 0 {
        Seq::empty()
    } else {
        match emote_of(parts[0]) {
            Some(g) => seq![g] + emotes_from(parts.drop_first()),
            None => emotes_from(parts.drop_first()),
        }
    }
}

/// The emotes tag: `/`-separated segments.
pub open spec fn emotes_of(tag: Seq<char>) -> Seq<GhostEmote> {
    emotes_from(split_on(tag, '/'))
}

pub open spec fn emotes_of_opt(tag: Option<Seq<char>>) -> Seq<GhostEmote> {
    match tag {
        Some(v) => emotes_of(v),
        None => Seq::empty(),
    }
}

pub open spec fn emote_matches(e: EmoteSpec, g: GhostEmote) -> bool {
    &&& e.id@ == g.id
    &&& e.positions@.len() == g.positions.len()
    &&& forall|i: int|
        0 <= i < g.positions.len() ==> (#[trigger] e.positions@[i]).start == g.positions[i].0
            && e.positions@[i].end == g.positions[i].1
}

pub open spec fn emotes_match(es: Seq<EmoteSpec>, gs: Seq<GhostEmote>) -> bool {
    es.len() == gs.len() && forall|i: int| 0 <= i < gs.len() ==> emote_matches(#[trigger] es[i], gs[i])
}

proof fn lemma_emote_positions_push(parts: Seq<Seq<char>>, p: Seq<char>)
    ensures
        emote_positions_of(parts.push(p)) == emote_positions_of(parts) + (match emote_range_of(p) {
            Some(q) => seq![q],
            None => Seq::<(int, int)>::empty(),
        }),
    decreases parts.len(),
{
    if parts.len() == 0 {
        assert(parts.push(p) =~= seq![p]);
        assert(seq![p].drop_first() =~= Seq::<Seq<char>>::empty());
        assert(emote_positions_of(Seq::<Seq<char>>::empty()) == Seq::<(int, int)>::empty());
        assert(emote_positions_of(parts.push(p)) =~= emote_positions_of(parts) + (
        match emote_range_of(p) {
            Some(q) => seq![q],
            None => Seq::<(int, int)>::empty(),
        }));
    } else {
        assert(parts.push(p).drop_first() =~= parts.drop_first().push(p));
        assert(parts.push(p)[0] == parts[0]);
        lemma_emote_positions_push(parts.drop_first(), p);
        assert(emote_positions_of(parts.push(p)) =~= emote_positions_of(parts) + (
        match emote_range_of(p) {
            Some(q) => seq![q],
            None => Seq::<(int, int)>::empty(),
        }));
    }
}

proof fn lemma_emotes_from_push(parts: Seq<Seq<char>>, p: Seq<char>)
    ensures
        emotes_from(parts.push(p)) == emotes_from(parts) + (match emote_of(p) {
            Some(g) => seq![g],
            None => Seq::<GhostEmote>::empty(),
        }),
    decreases parts.len(),
{
    if parts.len() == 0 {
        assert(parts.push(p) =~= seq![p]);
        assert(seq![p].drop_first() =~= Seq::<Seq<char>>::empty());
        assert(emotes_from(Seq::<Seq<char>>::empty()) == Seq::<GhostEmote>::empty());
        assert(emotes_from(parts.push(p)) =~= emotes_from(parts) + (match emote_of(p) {
            Some(g) => seq![g],
            None => Seq::<GhostEmote>::empty(),
        }));
    } else {
        assert(parts.push(p).drop_first() =~= parts.drop_first().push(p));
        assert(parts.push(p)[0] == parts[0]);
        lemma_emotes_from_push(parts.drop_first(), p);
        assert(emotes_from(parts.push(p)) =~= emotes_from(parts) + (match emote_of(p) {
            Some(g) => seq![g],
            None => Seq::<GhostEmote>::empty(),
        }));
    }
}

/// The positions list of one emote segment.
fn parse_emote_positions(ip: &Vec<char>) -> (r: Vec<EmoteRange>)
    ensures
        ({
            let gs = emote_positions_of(split_on(ip@, ','));
            r@.len() == gs.len() && forall|i: int|
                0 <= i < gs.len() ==> (#[trigger] r@[i]).start == gs[i].0 && r@[i].end == gs[i].1
        }),
{
    let ranges = split_on_chars(ip, ',');
    let mut r: Vec<EmoteRange> = Vec::new();
    let ghost rdv = ranges.deep_view();
    proof {
        assert(rdv.take(0) =~= Seq::<Seq<char>>::empty());
    }
    let mut i: usize = 0;
    while i < ranges.len()
        invariant
            i <= ranges@.len(),
            ranges.deep_view() == rdv,
            rdv == split_on(ip@, ','),
            rdv.len() == ranges@.len(),
            ({
                let gs = emote_positions_of(rdv.take(i as int));
                r@.len() == gs.len() && forall|j: int|
                    0 <= j < gs.len() ==> (#[trigger] r@[j]).start == gs[j].0 && r@[j].end
                        == gs[j].1
            }),
        decreases ranges.len() - i,
    {
        let range = &ranges[i];
        proof {
            assert(rdv[i as int] == ranges@[i as int].deep_view());
            assert(ranges@[i as int].deep_view() =~= ranges@[i as int]@);
            lemma_emote_positions_push(rdv.take(i as int), rdv[i as int]);
            assert(rdv.take(i as int).push(rdv[i as int]) =~= rdv.take(i + 1));
        }
        let k = find_char(range, '-');
        proof {
            lemma_leading_while(range@, char_ne_fn('-'));
        }
        if k < range.len() {
            let start_part = sub_chars(range, 0, k);
            let end_part = sub_chars(range, k + 1, range.len());
            proof {
                assert(start_part@ =~= range@.take(k as int));
                assert(end_part@ =~= range@.skip(k + 1));
            }
            match (parse_usize_chars(&start_part), parse_usize_chars(&end_part)) {
                (Some(s), Some(e)) => {
                    r.push(EmoteRange { start: s, end: e });
                },
                _ => {},
            }
        }
        i = i + 1;
    }
    proof {
        assert(rdv.take(ranges@.len() as int) =~= rdv);
    }
    r
}

/// The emotes named by the `emotes` tag, with their positions.
pub fn parse_emotes(tag: Option<&String>) -> (r: Vec<EmoteSpec>)
    ensures
        emotes_match(r@, emotes_of_opt(match tag {
            Some(v) => Some(v@),
            None => None,
        })),
{
    let mut r: Vec<EmoteSpec> = Vec::new();
    let raw = match tag {
        Some(v) => v,
        None => {
            return r;
        },
    };
    let chars = str_chars(raw.as_str());
    let parts = split_on_chars(&chars, '/');
    let ghost pdv = parts.deep_view();
    proof {
        assert(pdv.take(0) =~= Seq::<Seq<char>>::empty());
    }
    let mut i: usize = 0;
    while i < parts.len()
        invariant
            i <= parts@.len(),
            parts.deep_view() == pdv,
            pdv == split_on(raw@, '/'),
            pdv.len() == parts@.len(),
            emotes_match(r@, emotes_from(pdv.take(i as int))),
        decreases parts.len() - i,
    {
        let part = &parts[i];
        proof {
            assert(pdv[i as int] == parts@[i as int].deep_view());
            assert(parts@[i as int].deep_view() =~= parts@[i as int]@);
            lemma_emotes_from_push(pdv.take(i as int), pdv[i as int]);
            assert(pdv.take(i as int).push(pdv[i as int]) =~= pdv.take(i + 1));
        }
        if part.len() > 0 {
            let ps = split_on_chars(part, ':');
            if ps.len() >= 2 {
                proof {
                    assert(ps.deep_view()[0] == ps@[0]@);
                    assert(ps.deep_view()[1] == ps@[1]@);
                }
                let id = chars_string(&ps[0]);
                let positions = parse_emote_positions(&ps[1]);
                let ghost old_r = r@;
                r.push(EmoteSpec { id, positions });
                proof {
                    let g = emote_of(pdv[i as int]).unwrap();
                    assert(emote_matches(r@[old_r.len() as int], g));
                    assert(emotes_from(pdv.take(i + 1)) =~= emotes_from(pdv.take(i as int)).push(
                        g,
                    ));
                }
            }
        }
        i = i + 1;
    }
    proof {
        assert(pdv.take(parts@.len() as int) =~= pdv);
    }
    r
}

// --- reply thread ---

/// The reply-thread fields, each the plain value of its tag.
pub ghost struct GhostReply {
    pub parent_msg_id: Seq<char>,
    pub parent_display_name: Option<Seq<char>>,
    pub parent_message: Option<Seq<char>>,
    pub parent_user_id: Option<Seq<char>>,
    pub parent_user_login: Option<Seq<char>>,
    pub thread_parent_msg_id: Option<Seq<char>>,
    pub thread_parent_user_id: Option<Seq<char>>,
}

pub open spec fn reply_plan(tags: Seq<(Seq<char>, Seq<char>)>) -> GhostReply {
    GhostReply {
        parent_msg_id: assoc_get(tags, "reply-parent-msg-id"@).unwrap(),
        parent_display_name: assoc_get(tags, "reply-parent-display-name"@),
        parent_message: assoc_get(tags, "reply-parent-msg-body"@),
        parent_user_id: assoc_get(tags, "reply-parent-user-id"@),
        parent_user_login: assoc_get(tags, "reply-parent-user-login"@),
        thread_parent_msg_id: assoc_get(tags, "reply-thread-parent-msg-id"@),
        thread_parent_user_id: assoc_get(tags, "reply-thread-parent-user-id"@),
    }
}

pub open spec fn opt_str_matches(o: Option<String>, v: Option<Seq<char>>) -> bool {
    match o {
        Some(s) => v == Some(s@),
        None => v is None,
    }
}

pub open spec fn reply_info_matches(info: ReplyInfo, g: GhostReply) -> bool {
    &&& info.parent_msg_id@ == g.parent_msg_id
    &&& opt_str_matches(info.parent_display_name, g.parent_display_name)
    &&& opt_str_matches(info.parent_message, g.parent_message)
    &&& opt_str_matches(info.parent_user_id, g.parent_user_id)
    &&& opt_str_matches(info.parent_user_login, g.parent_user_login)
    &&& opt_str_matches(info.thread_parent_msg_id, g.thread_parent_msg_id)
    &&& opt_str_matches(info.thread_parent_user_id, g.thread_parent_user_id)
}

fn cloned_tag(tags: &Vec<(String, String)>, key: &str) -> (r: Option<String>)
    ensures
        opt_str_matches(r, assoc_get(tags.deep_view(), key@)),
{
    match tags_value(tags, key) {
        Some(v) => Some(v.clone()),
        None => None,
    }
}

/// The reply-thread block, present exactly when `reply-parent-msg-id` is.
pub fn parse_reply(tags: &Vec<(String, String)>) -> (r: Option<ReplyInfo>)
    ensures
        match r {
            Some(info) => assoc_get(tags.deep_view(), "reply-parent-msg-id"@) is Some
                && reply_info_matches(info, reply_plan(tags.deep_view())),
            None => assoc_get(tags.deep_view(), "reply-parent-msg-id"@) is None,
        },
{
    let parent = match tags_value(tags, "reply-parent-msg-id") {
        Some(v) => v.clone(),
        None => {
            return None;
        },
    };
    Some(
        ReplyInfo {
            parent_msg_id: parent,
            parent_display_name: cloned_tag(tags, "reply-parent-display-name"),
            parent_message: cloned_tag(tags, "reply-parent-msg-body"),
            parent_user_id: cloned_tag(tags, "reply-parent-user-id"),
            parent_user_login: cloned_tag(tags, "reply-parent-user-login"),
            thread_parent_msg_id: cloned_tag(tags, "reply-thread-parent-msg-id"),
            thread_parent_user_id: cloned_tag(tags, "reply-thread-parent-user-id"),
        },
    )
}

// --- metadata ---

/// One metadata value, in mathematical form.
pub ghost enum GMeta {
    Flag(bool),
    Count(int),
    Text(Seq<char>),
    List(Seq<Seq<char>>),
    Emotes(Seq<GhostEmote>),
    Reply(GhostReply),
    Tags(Seq<(Seq<char>, Seq<char>)>),
}

pub open spec fn meta_value_matches(v: MetaValue, g: GMeta) -> bool {
    match (v, g) {
        (MetaValue::Flag(b), GMeta::Flag(gb)) => b == gb,
        (MetaValue::Count(c), GMeta::Count(gc)) => c as int == gc,
        (MetaValue::Text(t), GMeta::Text(gt)) => t@ == gt,
        (MetaValue::List(l), GMeta::List(gl)) => l.deep_view() == gl,
        (MetaValue::Emotes(es), GMeta::Emotes(ges)) => emotes_match(es@, ges),
        (MetaValue::Reply(ri), GMeta::Reply(gr)) => reply_info_matches(ri, gr),
        (MetaValue::Tags(tv), GMeta::Tags(gt)) => tv.deep_view() == gt,
        _ => false,
    }
}

/// `Some` only for a present, non-empty tag value.
pub open spec fn nonempty_opt(v: Option<Seq<char>>) -> Option<Seq<char>> {
    match v {
        Some(s) => if s.len() > 0 {
            Some(s)
        } else {
            None
        },
        None => None,
    }
}

/// A text entry under `key` exactly when the tag `tagkey` is present and
/// non-empty.
pub open spec fn text_seg(
    key: Seq<char>,
    tags: Seq<(Seq<char>, Seq<char>)>,
    tagkey: Seq<char>,
) -> Seq<(Seq<char>, GMeta)> {
    match nonempty_opt(assoc_get(tags, tagkey)) {
        Some(c) => seq![(key, GMeta::Text(c))],
        None => Seq::empty(),
    }
}

/// The metadata attached to one chat message: its entries, in order.
pub open spec fn metadata_plan(
    tags: Seq<(Seq<char>, Seq<char>)>,
    badges: Seq<Seq<char>>,
    bits: Option<u32>,
) -> Seq<(Seq<char>, GMeta)> {
    seq![("badges"@, GMeta::List(badges))] + (match bits {
        Some(b) => seq![("bits"@, GMeta::Count(b as int))],
        None => Seq::empty(),
    }) + text_seg("color"@, tags, "color"@) + seq![
        ("emotes"@, GMeta::Emotes(emotes_of_opt(assoc_get(tags, "emotes"@)))),
    ] + (if assoc_get(tags, "reply-parent-msg-id"@) is Some {
        seq![("reply"@, GMeta::Reply(reply_plan(tags)))]
    } else {
        Seq::empty()
    }) + seq![
        ("first_msg"@, GMeta::Flag(assoc_get(tags, "first-msg"@) == Some("1"@))),
        ("returning_chatter"@, GMeta::Flag(assoc_get(tags, "returning-chatter"@) == Some("1"@))),
        ("subscriber"@, GMeta::Flag(assoc_get(tags, "subscriber"@) == Some("1"@))),
    ] + text_seg("user_type"@, tags, "user-type"@) + text_seg("display_name"@, tags, "display-name"@)
        + text_seg("user_login"@, tags, "user-login"@) + text_seg("message_id"@, tags, "id"@) + (
    match assoc_get(tags, "tmi-sent-ts"@) {
        Some(v) => if parse_int_spec(v) is Some && i64::MIN <= parse_int_spec(v).unwrap()
            <= i64::MAX {
            seq![("timestamp_ms"@, GMeta::Count(parse_int_spec(v).unwrap()))]
        } else {
            Seq::empty()
        },
        None => Seq::empty(),
    }) + text_seg("room_id"@, tags, "room-id"@) + text_seg("user_id"@, tags, "user-id"@) + seq![
        ("raw_tags"@, GMeta::Tags(tags)),
    ]
}

/// The entries carry exactly the planned keys and values, in order.
pub open spec fn plan_matches(
    entries: Seq<(String, MetaValue)>,
    plan: Seq<(Seq<char>, GMeta)>,
) -> bool {
    entries.len() == plan.len() && forall|i: int|
        0 <= i < plan.len() ==> (#[trigger] entries[i]).0@ == plan[i].0 && meta_value_matches(
            entries[i].1,
            plan[i].1,
        )
}

/// Appends one entry to metadata while extending its plan.
fn push_entry(
    meta: &mut Metadata,
    key: &str,
    value: MetaValue,
    Ghost(gv): Ghost<GMeta>,
    Ghost(plan): Ghost<Seq<(Seq<char>, GMeta)>>,
)
    requires
        plan_matches(old(meta).entries@, plan),
        meta_value_matches(value, gv),
    ensures
        plan_matches(final (meta).entries@, plan.push((key@, gv))),
{
    let k = String::from_str(key);
    let ghost oe = meta.entries@;
    meta.push(k, value);
    proof {
        let np = plan.push((key@, gv));
        assert forall|i: int| 0 <= i < np.len() implies (#[trigger] meta.entries@[i]).0@ == np[i].0
            && meta_value_matches(meta.entries@[i].1, np[i].1) by {
            if i < plan.len() {
                assert(meta.entries@[i] == oe[i]);
            }
        }
    }
}

fn clone_strings(v: &Vec<String>) -> (r: Vec<String>)
    ensures
        r.deep_view() == v.deep_view(),
{
    let mut r: Vec<String> = Vec::new();
    let mut i: usize = 0;
    while i < v.len()
        invariant
            i <= v@.len(),
            r.deep_view().len() == i,
            forall|j: int| 0 <= j < i ==> r.deep_view()[j] == v.deep_view()[j],
        decreases v.len() - i,
    {
        r.push(v[i].clone());
        i = i + 1;
    }
    proof {
        assert(r.deep_view() =~= v.deep_view());
    }
    r
}

fn clone_tags(v: &Vec<(String, String)>) -> (r: Vec<(String, String)>)
    ensures
        r.deep_view() == v.deep_view(),
{
    let mut r: Vec<(String, String)> = Vec::new();
    let mut i: usize = 0;
    while i < v.len()
        invariant
            i <= v@.len(),
            r.deep_view().len() == i,
            forall|j: int| 0 <= j < i ==> r.deep_view()[j] == v.deep_view()[j],
        decreases v.len() - i,
    {
        r.push((v[i].0.clone(), v[i].1.clone()));
        i = i + 1;
    }
    proof {
        assert(r.deep_view() =~= v.deep_view());
    }
    r
}

/// The open metadata of one chat message: badges, bits, colour, emotes,
/// reply thread, chat flags, sender identifiers, timestamp, and the raw tag
/// map.
pub fn build_metadata(message: &TwitchChatMessage) -> (r: Metadata)
    ensures
        plan_matches(
            r.entries@,
            metadata_plan(message.raw_tags.deep_view(), message.badges.deep_view(), message.bits),
        ),
{
    let ghost tags = message.raw_tags.deep_view();
    let ghost bdv = message.badges.deep_view();
    let mut meta = Metadata::new();
    let ghost mut plan = Seq::<(Seq<char>, GMeta)>::empty();
    proof {
        assert(plan_matches(meta.entries@, plan));
    }
    push_entry(
        &mut meta,
        "badges",
        MetaValue::List(clone_strings(&message.badges)),
        Ghost(GMeta::List(bdv)),
        Ghost(plan),
    );
    proof {
        assert(plan.push(("badges"@, GMeta::List(bdv))) =~= seq![("badges"@, GMeta::List(bdv))]);
        plan = seq![("badges"@, GMeta::List(bdv))];
    }
    let ghost seg_bits = (match message.bits {
        Some(b) => seq![("bits"@, GMeta::Count(b as int))],
        None => Seq::<(Seq<char>, GMeta)>::empty(),
    });
    match message.bits {
        Some(b) => {
            push_entry(
                &mut meta,
                "bits",
                MetaValue::Count(b as i64),
                Ghost(GMeta::Count(b as int)),
                Ghost(plan),
            );
            proof {
                assert(plan.push(("bits"@, GMeta::Count(b as int))) =~= plan + seg_bits);
            }
        },
        None => {
            proof {
                assert(plan =~= plan + seg_bits);
            }
        },
    }
    proof {
        plan = plan + seg_bits;
    }
    let ghost seg_color = text_seg("color"@, tags, "color"@);
    match tags_value(&message.raw_tags, "color") {
        Some(v) => {
            if !v.as_str().is_empty() {
                let ghost c = assoc_get(tags, "color"@).unwrap();
                push_entry(
                    &mut meta,
                    "color",
                    MetaValue::Text(v.clone()),
                    Ghost(GMeta::Text(c)),
                    Ghost(plan),
                );
                proof {
                    assert(plan.push(("color"@, GMeta::Text(c))) =~= plan + seg_color);
                }
            } else {
                proof {
                    assert(plan =~= plan + seg_color);
                }
            }
        },
        None => {
            proof {
                assert(plan =~= plan + seg_color);
            }
        },
    }
    proof {
        plan = plan + seg_color;
    }
    let ghost seg_emotes = seq![
        ("emotes"@, GMeta::Emotes(emotes_of_opt(assoc_get(tags, "emotes"@)))),
    ];
    let emotes = parse_emotes(tags_value(&message.raw_tags, "emotes"));
    push_entry(
        &mut meta,
        "emotes",
        MetaValue::Emotes(emotes),
        Ghost(GMeta::Emotes(emotes_of_opt(assoc_get(tags, "emotes"@)))),
        Ghost(plan),
    );
    proof {
        assert(plan.push(("emotes"@, GMeta::Emotes(emotes_of_opt(assoc_get(tags, "emotes"@)))))
            =~= plan + seg_emotes);
        plan = plan + seg_emotes;
    }
    let ghost seg_reply = (if assoc_get(tags, "reply-parent-msg-id"@) is Some {
        seq![("reply"@, GMeta::Reply(reply_plan(tags)))]
    } else {
        Seq::<(Seq<char>, GMeta)>::empty()
    });
    match parse_reply(&message.raw_tags) {
        Some(info) => {
            push_entry(
                &mut meta,
                "reply",
                MetaValue::Reply(info),
                Ghost(GMeta::Reply(reply_plan(tags))),
                Ghost(plan),
            );
            proof {
                assert(plan.push(("reply"@, GMeta::Reply(reply_plan(tags)))) =~= plan + seg_reply);
            }
        },
        None => {
            proof {
                assert(plan =~= plan + seg_reply);
            }
        },
    }
    proof {
        plan = plan + seg_reply;
    }
    let ghost seg_flags = seq![
        ("first_msg"@, GMeta::Flag(assoc_get(tags, "first-msg"@) == Some("1"@))),
        ("returning_chatter"@, GMeta::Flag(assoc_get(tags, "returning-chatter"@) == Some("1"@))),
        ("subscriber"@, GMeta::Flag(assoc_get(tags, "subscriber"@) == Some("1"@))),
    ];
    let first_msg = tag_as_bool(&message.raw_tags, "first-msg");
    push_entry(
        &mut meta,
        "first_msg",
        MetaValue::Flag(first_msg),
        Ghost(GMeta::Flag(assoc_get(tags, "first-msg"@) == Some("1"@))),
        Ghost(plan),
    );
    proof {
        plan = plan.push(("first_msg"@, GMeta::Flag(assoc_get(tags, "first-msg"@) == Some("1"@))));
    }
    let returning = tag_as_bool(&message.raw_tags, "returning-chatter");
    push_entry(
        &mut meta,
        "returning_chatter",
        MetaValue::Flag(returning),
        Ghost(GMeta::Flag(assoc_get(tags, "returning-chatter"@) == Some("1"@))),
        Ghost(plan),
    );
    proof {
        plan = plan.push(
            ("returning_chatter"@, GMeta::Flag(
                assoc_get(tags, "returning-chatter"@) == Some("1"@),
            )),
        );
    }
    let subscriber = tag_as_bool(&message.raw_tags, "subscriber");
    push_entry(
        &mut meta,
        "subscriber",
        MetaValue::Flag(subscriber),
        Ghost(GMeta::Flag(assoc_get(tags, "subscriber"@) == Some("1"@))),
        Ghost(plan),
    );
    proof {
        plan = plan.push(
            ("subscriber"@, GMeta::Flag(assoc_get(tags, "subscriber"@) == Some("1"@))),
        );
        assert(plan =~= (seq![("badges"@, GMeta::List(bdv))] + seg_bits + seg_color + seg_emotes
            + seg_reply) + seg_flags);
        plan = (seq![("badges"@, GMeta::List(bdv))] + seg_bits + seg_color + seg_emotes
            + seg_reply) + seg_flags;
    }
    push_text_entry(&mut meta, &message.raw_tags, "user_type", "user-type", Ghost(plan));
    proof {
        plan = plan + text_seg("user_type"@, tags, "user-type"@);
    }
    push_text_entry(&mut meta, &message.raw_tags, "display_name", "display-name", Ghost(plan));
    proof {
        plan = plan + text_seg("display_name"@, tags, "display-name"@);
    }
    push_text_entry(&mut meta, &message.raw_tags, "user_login", "user-login", Ghost(plan));
    proof {
        plan = plan + text_seg("user_login"@, tags, "user-login"@);
    }
    push_text_entry(&mut meta, &message.raw_tags, "message_id", "id", Ghost(plan));
    proof {
        plan = plan + text_seg("message_id"@, tags, "id"@);
    }
    let ghost seg_ts = (match assoc_get(tags, "tmi-sent-ts"@) {
        Some(v) => if parse_int_spec(v) is Some && i64::MIN <= parse_int_spec(v).unwrap()
            <= i64::MAX {
            seq![("timestamp_ms"@, GMeta::Count(parse_int_spec(v).unwrap()))]
        } else {
            Seq::<(Seq<char>, GMeta)>::empty()
        },
        None => Seq::<(Seq<char>, GMeta)>::empty(),
    });
    match tags_value(&message.raw_tags, "tmi-sent-ts") {
        Some(v) => {
            match parse_i64_chars(&str_chars(v.as_str())) {
                Some(t) => {
                    push_entry(
                        &mut meta,
                        "timestamp_ms",
                        MetaValue::Count(t),
                        Ghost(GMeta::Count(t as int)),
                        Ghost(plan),
                    );
                    proof {
                        assert(plan.push(("timestamp_ms"@, GMeta::Count(t as int))) =~= plan
                            + seg_ts);
                    }
                },
                None => {
                    proof {
                        assert(plan =~= plan + seg_ts);
                    }
                },
            }
        },
        None => {
            proof {
                assert(plan =~= plan + seg_ts);
            }
        },
    }
    proof {
        plan = plan + seg_ts;
    }
    push_text_entry(&mut meta, &message.raw_tags, "room_id", "room-id", Ghost(plan));
    proof {
        plan = plan + text_seg("room_id"@, tags, "room-id"@);
    }
    push_text_entry(&mut meta, &message.raw_tags, "user_id", "user-id", Ghost(plan));
    proof {
        plan = plan + text_seg("user_id"@, tags, "user-id"@);
    }
    push_entry(
        &mut meta,
        "raw_tags",
        MetaValue::Tags(clone_tags(&message.raw_tags)),
        Ghost(GMeta::Tags(tags)),
        Ghost(plan),
    );
    proof {
        assert(plan.push(("raw_tags"@, GMeta::Tags(tags))) =~= plan + seq![
            ("raw_tags"@, GMeta::Tags(tags)),
        ]);
        plan = plan + seq![("raw_tags"@, GMeta::Tags(tags))];
        assert(plan == metadata_plan(tags, bdv, message.bits));
    }
    meta
}

/// Appends the text entry `key` when the tag `tagkey` is present and
/// non-empty.
fn push_text_entry(
    meta: &mut Metadata,
    tags: &Vec<(String, String)>,
    key: &str,
    tagkey: &str,
    Ghost(plan): Ghost<Seq<(Seq<char>, GMeta)>>,
)
    requires
        plan_matches(old(meta).entries@, plan),
    ensures
        plan_matches(
            final (meta).entries@,
            plan + text_seg(key@, tags.deep_view(), tagkey@),
        ),
{
    match tags_value(tags, tagkey) {
        Some(v) => {
            if !v.as_str().is_empty() {
                let ghost c = assoc_get(tags.deep_view(), tagkey@).unwrap();
                push_entry(meta, key, MetaValue::Text(v.clone()), Ghost(GMeta::Text(c)), Ghost(plan));
                proof {
                    assert(plan.push((key@, GMeta::Text(c))) =~= plan + text_seg(
                        key@,
                        tags.deep_view(),
                        tagkey@,
                    ));
                }
            } else {
                proof {
                    assert(plan + text_seg(key@, tags.deep_view(), tagkey@) =~= plan);
                }
            }
        },
        None => {
            proof {
                assert(plan + text_seg(key@, tags.deep_view(), tagkey@) =~= plan);
            }
        },
    }
}

// --- priority and normalisation ---

/// Whether any badge names the moderator or broadcaster role.
pub open spec fn has_privileged_badge(badges: Seq<Seq<char>>) -> bool {
    exists|i: int|
        0 <= i < badges.len() && (matches_at(#[trigger] badges[i], "moderator"@, 0) || matches_at(
            badges[i],
            "broadcaster"@,
            0,
        ))
}

/// Moderator outranks paid, which outranks normal.
pub open spec fn priority_of(msg: TwitchChatMessage) -> Priority {
    if has_privileged_badge(msg.badges.deep_view()) {
        Priority::Moderator
    } else if msg.bits is Some && msg.bits.unwrap() > 0 {
        Priority::Paid
    } else {
        Priority::Normal
    }
}

impl TwitchChatMessage {
    /// The platform-agnostic form of this chat message, with its priority
    /// derived from bits and badges and its metadata attached.
    pub fn to_normalized(&self) -> (r: NormalizedMessage)
        ensures
            r.platform == Platform::Twitch,
            r.channel == self.channel,
            r.user_id == self.user_id,
            r.username == self.username,
            r.priority == priority_of(*self),
            r.content == crate::message::MessageContent::Text(self.message),
            plan_matches(
                r.metadata.entries@,
                metadata_plan(self.raw_tags.deep_view(), self.badges.deep_view(), self.bits),
            ),
    {
        let mut priority = Priority::Normal;
        match self.bits {
            Some(b) => {
                if b > 0 {
                    priority = Priority::Paid;
                }
            },
            None => {},
        }
        let moderator_pat = str_chars("moderator");
        let broadcaster_pat = str_chars("broadcaster");
        proof {
            reveal_strlit("moderator");
            reveal_strlit("broadcaster");
        }
        let mut privileged = false;
        let mut i: usize = 0;
        while i < self.badges.len()
            invariant
                i <= self.badges@.len(),
                moderator_pat@ == "moderator"@,
                broadcaster_pat@ == "broadcaster"@,
                privileged == exists|j: int|
                    0 <= j < i && (matches_at(
                        #[trigger] self.badges.deep_view()[j],
                        "moderator"@,
                        0,
                    ) || matches_at(self.badges.deep_view()[j], "broadcaster"@, 0)),
            decreases self.badges.len() - i,
        {
            let bc = str_chars(self.badges[i].as_str());
            proof {
                assert(self.badges.deep_view()[i as int] == self.badges@[i as int]@);
            }
            if crate::text::match_at(&bc, &moderator_pat, 0) || crate::text::match_at(
                &bc,
                &broadcaster_pat,
                0,
            ) {
                privileged = true;
            }
            i = i + 1;
        }
        if privileged {
            priority = Priority::Moderator;
        }
        proof {
            assert(self.badges.deep_view().len() == self.badges@.len());
            assert(priority == priority_of(*self));
        }
        let metadata = build_metadata(self);
        let user_id: Option<String> = match &self.user_id {
            Some(u) => Some(u.clone()),
            None => None,
        };
        NormalizedMessage::new_text(
            Platform::Twitch,
            self.channel.clone(),
            user_id,
            self.username.clone(),
            priority,
            self.message.clone(),
            metadata,
        )
    }
}

// --- keepalive ---

/// The token of a `PING` line: after `"PING "` on the trimmed line, one
/// leading colon dropped when more follows, up to the end of the line.
pub open spec fn parse_ping_spec(line: Seq<char>) -> Option<Seq<char>> {
    let t = trim_spaces_spec(line);
    if t.len() >= 5 && t.take(5) == "PING "@ {
        let rest = t.skip(5);
        let stop = leading_while(rest, char_ne_fn('\n')) as int;
        let cut = if stop >= rest.len() {
            rest
        } else {
            rest.take(stop)
        };
        if cut.len() == 0 {
            None
        } else if cut[0] == ':' && cut.len() > 1 {
            Some(cut.skip(1))
        } else {
            Some(cut)
        }
    } else {
        None
    }
}

/// Recognises a keepalive line and returns the token to echo in the reply.
pub fn parse_ping(line: &str) -> (r: Option<String>)
    ensures
        match r {
            Some(t) => parse_ping_spec(line@) == Some(t@),
            None => parse_ping_spec(line@) is None,
        },
{
    let chars = str_chars(line);
    let t = trim_spaces_chars(&chars);
    let pat = str_chars("PING ");
    proof {
        reveal_strlit("PING ");
    }
    if t.len() < 5 || !crate::text::match_at(&t, &pat, 0) {
        proof {
            if t@.len() >= 5 {
                assert(t@.subrange(0, 5) =~= t@.take(5));
            }
        }
        return None;
    }
    proof {
        assert(t@.subrange(0, 5) =~= t@.take(5));
    }
    let rest = sub_chars(&t, 5, t.len());
    proof {
        assert(rest@ =~= t@.skip(5));
    }
    let stop = find_char(&rest, '\n');
    proof {
        lemma_leading_while(rest@, char_ne_fn('\n'));
    }
    let cut = sub_chars(&rest, 0, stop);
    proof {
        if stop == rest@.len() {
            assert(cut@ =~= rest@);
        } else {
            assert(cut@ =~= rest@.take(stop as int));
        }
    }
    if cut.len() == 0 {
        None
    } else if cut[0] == ':' && cut.len() > 1 {
        let tok = sub_chars(&cut, 1, cut.len());
        proof {
            assert(tok@ =~= cut@.skip(1));
        }
        Some(chars_string(&tok))
    } else {
        Some(chars_string(&cut))
    }
}

// --- channel names ---

/// The characters that end a channel segment in a URL.
pub open spec fn is_url_delim(c: char) -> bool {
    c == '/' || c == '?' || c == '&'
}

/// The channel segment of a lowered input: what follows `twitch.tv/` up to a
/// delimiter, or the whole input when no such marker occurs.
pub open spec fn channel_segment(low: Seq<char>) -> Seq<char> {
    let pat = "twitch.tv/"@;
    if contains_seq(low, pat) {
        let after = low.skip(find_first(low, pat) + pat.len());
        let stop = leading_while(after, |c: char| !is_url_delim(c)) as int;
        if stop >= after.len() {
            after
        } else {
            after.take(stop)
        }
    } else {
        low
    }
}

/// The canonical channel name of a user input: trimmed, lowercased, the URL
/// wrapping and surrounding slashes removed; `None` when nothing remains.
pub open spec fn parse_twitch_channel_spec(input: Seq<char>) -> Option<Seq<char>> {
    let t = trim_spaces_spec(input);
    if t.len() == 0 {
        None
    } else {
        let chan = strip_trailing(strip_leading(channel_segment(lower_of(t)), '/'), '/');
        if chan.len() == 0 {
            None
        } else {
            Some(chan)
        }
    }
}

/// Accepts a Twitch user name or channel URL and yields the canonical
/// channel name.
pub fn parse_twitch_channel(input: &str) -> (r: Option<String>)
    ensures
        match r {
            Some(c) => parse_twitch_channel_spec(input@) == Some(c@),
            None => parse_twitch_channel_spec(input@) is None,
        },
{
    let chars = str_chars(input);
    let trimmed = trim_spaces_chars(&chars);
    if trimmed.len() == 0 {
        return None;
    }
    let low = lowercase(chars_string(&trimmed).as_str());
    let lchars = str_chars(low.as_str());
    let pat = str_chars("twitch.tv/");
    proof {
        reveal_strlit("twitch.tv/");
    }
    let seg: Vec<char> = match crate::text::find_sub(&lchars, &pat) {
        Some(i) => {
            proof {
                reveal_strlit("twitch.tv/");
                assert(pat@.len() == 10);
                crate::text::lemma_first_match_exists(lchars@, pat@, i as int);
                let j = find_first(lchars@, pat@);
                crate::text::lemma_first_match_unique(lchars@, pat@, i as int, j);
            }
            let n = lchars.len();
            proof {
                assert(i + pat@.len() <= lchars@.len());
            }
            let after = sub_chars(&lchars, i + 10, n);
            proof {
                assert(after@ =~= lchars@.skip(i + 10));
            }
            let mut stop: usize = 0;
            while stop < after.len() && !(after[stop] == '/' || after[stop] == '?' || after[stop]
                == '&')
                invariant
                    stop <= after@.len(),
                    forall|m: int| 0 <= m < stop ==> !is_url_delim(after@[m]),
                decreases after.len() - stop,
            {
                stop = stop + 1;
            }
            proof {
                crate::text::lemma_leading_while_eq(after@, |c: char| !is_url_delim(c), stop as int);
            }
            let cut = sub_chars(&after, 0, stop);
            proof {
                if stop == after@.len() {
                    assert(cut@ =~= after@);
                } else {
                    assert(cut@ =~= after@.take(stop as int));
                }
            }
            cut
        },
        None => lchars,
    };
    let a = strip_leading_char(&seg, '/');
    let chan = strip_trailing_char(&a, '/');
    if chan.len() == 0 {
        None
    } else {
        Some(chars_string(&chan))
    }
}

// --- credentials ---

/// A bot identity for the chat connection.
#[derive(Debug, Clone)]
pub struct TwitchAuth {
    pub username: String,
    pub oauth_token: String,
}

/// The token after one leading `oauth:` is removed, if present.
pub open spec fn strip_oauth_prefix(s: Seq<char>) -> Seq<char> {
    if s.len() >= 6 && s.take(6) == "oauth:"@ {
        s.skip(6)
    } else {
        s
    }
}

/// The token after one leading `Bearer ` or `bearer ` is removed, if present.
pub open spec fn strip_bearer_prefix(s: Seq<char>) -> Seq<char> {
    if s.len() >= 7 && s.take(7) == "Bearer "@ {
        s.skip(7)
    } else if s.len() >= 7 && s.take(7) == "bearer "@ {
        s.skip(7)
    } else {
        s
    }
}

/// The portion the `access_token=` form carries: what follows the marker, up
/// to `&` or the end; the input itself when the marker is absent.
pub open spec fn access_token_part(wh: Seq<char>) -> Seq<char> {
    let pat = "access_token="@;
    if contains_seq(wh, pat) {
        let rest = wh.skip(find_first(wh, pat) + pat.len());
        let stop = leading_while(rest, char_ne_fn('&')) as int;
        if stop >= rest.len() {
            rest
        } else {
            rest.take(stop)
        }
    } else {
        wh
    }
}

/// A pasted token in any accepted shape reduced to the bare token: trimmed,
/// leading hashes dropped, an `access_token=` fragment unwrapped, `oauth:`
/// and `Bearer` prefixes removed; `None` when nothing remains.
pub open spec fn normalize_token_spec(raw: Seq<char>) -> Option<Seq<char>> {
    let t = trim_spaces_spec(raw);
    if t.len() == 0 {
        None
    } else {
        let cand = trim_spaces_spec(access_token_part(strip_leading(t, '#')));
        if cand.len() == 0 {
            None
        } else {
            let tok = trim_spaces_spec(strip_bearer_prefix(strip_oauth_prefix(cand)));
            if tok.len() == 0 {
                None
            } else {
                Some(tok)
            }
        }
    }
}

/// Reduces a pasted OAuth token, callback fragment or header value to the
/// bare token.
pub fn normalize_twitch_token(raw: &str) -> (r: Option<String>)
    ensures
        match r {
            Some(t) => normalize_token_spec(raw@) == Some(t@),
            None => normalize_token_spec(raw@) is None,
        },
{
    let chars = str_chars(raw);
    let t = trim_spaces_chars(&chars);
    if t.len() == 0 {
        return None;
    }
    let wh = strip_leading_char(&t, '#');
    let pat = str_chars("access_token=");
    proof {
        reveal_strlit("access_token=");
    }
    let part: Vec<char> = match crate::text::find_sub(&wh, &pat) {
        Some(i) => {
            proof {
                reveal_strlit("access_token=");
                assert(pat@.len() == 13);
                crate::text::lemma_first_match_exists(wh@, pat@, i as int);
                let j = find_first(wh@, pat@);
                crate::text::lemma_first_match_unique(wh@, pat@, i as int, j);
            }
            let n = wh.len();
            proof {
                assert(i + pat@.len() <= wh@.len());
            }
            let rest = sub_chars(&wh, i + 13, n);
            proof {
                assert(rest@ =~= wh@.skip(i + 13));
            }
            let stop = find_char(&rest, '&');
            proof {
                lemma_leading_while(rest@, char_ne_fn('&'));
            }
            let cut = sub_chars(&rest, 0, stop);
            proof {
                if stop == rest@.len() {
                    assert(cut@ =~= rest@);
                } else {
                    assert(cut@ =~= rest@.take(stop as int));
                }
            }
            cut
        },
        None => wh,
    };
    let cand = trim_spaces_chars(&part);
    if cand.len() == 0 {
        return None;
    }
    let oauth_pat = str_chars("oauth:");
    proof {
        reveal_strlit("oauth:");
    }
    let c3: Vec<char> = if crate::text::match_at(&cand, &oauth_pat, 0) {
        let s = sub_chars(&cand, 6, cand.len());
        proof {
            assert(cand@.subrange(0, 6) =~= cand@.take(6));
            assert(s@ =~= cand@.skip(6));
        }
        s
    } else {
        proof {
            if cand@.len() >= 6 {
                assert(cand@.subrange(0, 6) =~= cand@.take(6));
            }
        }
        cand
    };
    let bearer_pat = str_chars("Bearer ");
    let lbearer_pat = str_chars("bearer ");
    proof {
        reveal_strlit("Bearer ");
        reveal_strlit("bearer ");
    }
    let c4: Vec<char> = if crate::text::match_at(&c3, &bearer_pat, 0) {
        let s = sub_chars(&c3, 7, c3.len());
        proof {
            assert(c3@.subrange(0, 7) =~= c3@.take(7));
            assert(s@ =~= c3@.skip(7));
        }
        s
    } else if crate::text::match_at(&c3, &lbearer_pat, 0) {
        let s = sub_chars(&c3, 7, c3.len());
        proof {
            assert(c3@.subrange(0, 7) =~= c3@.take(7));
            assert(s@ =~= c3@.skip(7));
        }
        s
    } else {
        proof {
            if c3@.len() >= 7 {
                assert(c3@.subrange(0, 7) =~= c3@.take(7));
            }
        }
        c3
    };
    let tok = trim_spaces_chars(&c4);
    if tok.len() == 0 {
        None
    } else {
        Some(chars_string(&tok))
    }
}

/// The credentials of the connection, when the configuration carries a
/// usable pair: the user name lowered, the token normalised.
pub fn build_twitch_auth(cfg: &crate::config::TwitchConfig) -> (r: Option<TwitchAuth>)
    ensures
        match r {
            Some(a) => cfg.bot_username is Some && cfg.oauth_token is Some && {
                let u = trim_spaces_spec(cfg.bot_username.unwrap()@);
                &&& u.len() > 0
                &&& a.username@ == lower_of(u)
                &&& normalize_token_spec(trim_spaces_spec(cfg.oauth_token.unwrap()@)) == Some(
                    a.oauth_token@,
                )
            },
            None => cfg.bot_username is None || cfg.oauth_token is None || trim_spaces_spec(
                cfg.bot_username.unwrap()@,
            ).len() == 0 || normalize_token_spec(
                trim_spaces_spec(cfg.oauth_token.unwrap()@),
            ) is None,
        },
{
    let bu = match &cfg.bot_username {
        Some(u) => u,
        None => {
            return None;
        },
    };
    let ot = match &cfg.oauth_token {
        Some(t) => t,
        None => {
            return None;
        },
    };
    let uchars = str_chars(bu.as_str());
    let ut = trim_spaces_chars(&uchars);
    let tchars = str_chars(ot.as_str());
    let tt = trim_spaces_chars(&tchars);
    let token = match normalize_twitch_token(chars_string(&tt).as_str()) {
        Some(t) => t,
        None => {
            return None;
        },
    };
    if ut.len() == 0 {
        return None;
    }
    if token.as_str().is_empty() {
        // A normalised token is never empty; the check mirrors the caller's
        // guard nonetheless.
        return None;
    }
    Some(TwitchAuth { username: lowercase(chars_string(&ut).as_str()), oauth_token: token })
}

} // verus!
