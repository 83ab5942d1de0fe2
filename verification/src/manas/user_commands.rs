//! Commands that the user sends while a run is going on: where the gateway
//! serves them, how its reply is read, and how they are listed for the
//! model. The request itself is made outside.
use vstd::prelude::*;
use vstd::string::StringSliceAdditionalSpecFns;
use crate::chars::{trim, trim_end_by, trim_end_class, trim_ws, CharClass};
use crate::gateway_events::{opt_view, parse_usize, parsed_usize};
use crate::json::{array_data, json_as_array, json_data, json_get, lemma_array_data, member, JsonData, JsonValue};
use crate::text::{chars_of, decimal, join, join_chars, push_decimal, push_str, string_of};

verus! {

/// Bytes that a URL path carries as they are: ASCII letters and digits and
/// `-`, `_`, `.`, `~`.
pub open spec fn unreserved(b: u8) -> bool {
    (65 <= b <= 90) || (97 <= b <= 122) || (48 <= b <= 57) || b == 45 || b == 95 || b == 46 || b == 126
}

/// An upper-case hexadecimal digit.
pub open spec fn hex_digit(d: nat) -> char {
    if d < 10 {
        ((48 + d) as u8) as char
    } else {
        ((55 + d) as u8) as char
    }
}

/// One byte of a URL path: itself when unreserved, `%` and its two
/// hexadecimal digits otherwise.
pub open spec fn escaped_byte(b: u8) -> Seq<char> {
    if unreserved(b) {
        seq![b as char]
    } else {
        seq!['%', hex_digit((b / 16) as nat), hex_digit((b % 16) as nat)]
    }
}

/// The bytes of a text escaped for a URL path, byte by byte.
pub open spec fn url_escaped(bytes: Seq<u8>) -> Seq<char>
    decreases bytes.len(),
{
    if bytes.len() == 0 {
        Seq::empty()
    } else {
        url_escaped(bytes.drop_last()) + escaped_byte(bytes.last())
    }
}

fn hex_char(d: u8) -> (c: char)
    requires
        d < 16,
    ensures
        c == hex_digit(d as nat),
{
    if d < 10 {
        (48 + d) as char
    } else {
        (55 + d) as char
    }
}

/// A text escaped for a URL path: its UTF-8 bytes, each unreserved byte as
/// it is and every other as `%XX`.
pub fn url_escape(value: &str) -> (r: String)
    ensures
        r@ == url_escaped(value.spec_bytes()),
{
    let bytes = value.as_bytes();
    let mut out: Vec<char> = Vec::new();
    let mut i: usize = 0;
    while i < bytes.len()
        invariant
            i <= bytes.len(),
            bytes@ == value.spec_bytes(),
            out@ == url_escaped(bytes@.take(i as int)),
        decreases bytes.len() - i,
    {
        let b = bytes[i];
        assert(bytes@.take(i + 1).drop_last() =~= bytes@.take(i as int));
        assert(bytes@.take(i + 1).last() == b);
        if (65 <= b && b <= 90) || (97 <= b && b <= 122) || (48 <= b && b <= 57) || b == 45 || b == 95 || b == 46
            || b == 126 {
            out.push(b as char);
        } else {
            out.push('%');
            out.push(hex_char(b / 16));
            out.push(hex_char(b % 16));
        }
        assert(out@ =~= url_escaped(bytes@.take(i + 1)));
        i = i + 1;
    }
    assert(bytes@.take(i as int) =~= bytes@);
    string_of(&out)
}

/// The gateway's port: the configured one when it is a `u16`, 4096
/// otherwise.
pub open spec fn gateway_port(port: Option<Seq<char>>) -> nat {
    match port {
        Some(p) => match parsed_usize(p) {
            Some(n) => if n <= 65535 {
                n
            } else {
                4096
            },
            None => 4096,
        },
        None => 4096,
    }
}

/// The gateway's base URL: the first configured URL, or the local gateway
/// on its port; without trailing slashes.
pub open spec fn gateway_base(url: Option<Seq<char>>, base_url: Option<Seq<char>>, port: Option<Seq<char>>) -> Seq<char> {
    let chosen = match url {
        Some(u) => u,
        None => match base_url {
            Some(b) => b,
            None => "http://127.0.0.1:"@ + decimal(gateway_port(port)),
        },
    };
    trim_end_class(chosen, CharClass::Exactly('/'))
}

pub fn gateway_base_url(url: Option<&str>, base_url: Option<&str>, port: Option<&str>) -> (r: String)
    ensures
        r@ == gateway_base(opt_view(url), opt_view(base_url), opt_view(port)),
{
    let chosen: Vec<char> = match url {
        Some(u) => chars_of(u),
        None => match base_url {
            Some(b) => chars_of(b),
            None => {
                let n: usize = match port {
                    Some(p) => match parse_usize(p) {
                        Some(n) => if n <= 65535 {
                            n
                        } else {
                            4096
                        },
                        None => 4096,
                    },
                    None => 4096,
                };
                let mut out: Vec<char> = Vec::new();
                push_str(&mut out, "http://127.0.0.1:");
                push_decimal(&mut out, n as u64);
                out
            },
        },
    };
    string_of(&trim_end_by(&chosen, &CharClass::Exactly('/')))
}

/// Where the gateway serves a session's user commands, from the session
/// id's UTF-8 bytes.
pub open spec fn user_commands_url(base: Seq<char>, session_id_bytes: Seq<u8>) -> Seq<char> {
    base + "/session/"@ + url_escaped(session_id_bytes) + "/user-commands"@
}

pub fn user_commands_endpoint(base: &str, session_id: &str) -> (r: String)
    ensures
        r@ == user_commands_url(base@, session_id.spec_bytes()),
{
    let mut out: Vec<char> = Vec::new();
    push_str(&mut out, base);
    push_str(&mut out, "/session/");
    let e = url_escape(session_id);
    push_str(&mut out, e.as_str());
    push_str(&mut out, "/user-commands");
    let r = string_of(&out);
    assert(r@ =~= user_commands_url(base@, session_id.spec_bytes()));
    r
}

/// The commands of a gateway reply: the string items of its `commands`
/// list, trimmed, without the blank ones.
pub open spec fn reply_commands(items: Seq<JsonData>) -> Seq<Seq<char>>
    decreases items.len(),
{
    if items.len() == 0 {
        Seq::empty()
    } else {
        let r = reply_commands(items.drop_last());
        match items.last() {
            JsonData::Str(s) => if trim_ws(s).len() > 0 {
                r.push(trim_ws(s))
            } else {
                r
            },
            _ => r,
        }
    }
}

/// The list of a reply's `commands` member; none when it is not a list.
pub open spec fn reply_items(reply: JsonData) -> Seq<JsonData> {
    match member(reply, "commands"@) {
        Some(JsonData::Array(items)) => items,
        _ => Seq::empty(),
    }
}

pub fn user_commands_from_reply(reply: &JsonValue) -> (r: Vec<String>)
    ensures
        r@.map_values(|s: String| s@) == reply_commands(reply_items(json_data(*reply))),
{
    let mut out: Vec<String> = Vec::new();
    let items = match json_get(reply, "commands") {
        Some(c) => match json_as_array(c) {
            Some(items) => items,
            None => {
                assert(out@.map_values(|s: String| s@) =~= Seq::<Seq<char>>::empty());
                return out;
            },
        },
        None => {
            assert(out@.map_values(|s: String| s@) =~= Seq::<Seq<char>>::empty());
            return out;
        },
    };
    proof {
        lemma_array_data(items@);
    }
    let ghost ad = array_data(items@);
    let mut i: usize = 0;
    assert(out@.map_values(|s: String| s@) =~= reply_commands(ad.take(0)));
    while i < items.len()
        invariant
            i <= items.len(),
            ad == array_data(items@),
            ad.len() == items.len(),
            forall|j: int| 0 <= j < items.len() ==> #[trigger] ad[j] == json_data(items@[j]),
            out@.map_values(|s: String| s@) == reply_commands(ad.take(i as int)),
        decreases items.len() - i,
    {
        assert(ad.take(i + 1).drop_last() =~= ad.take(i as int));
        assert(ad.take(i + 1).last() == ad[i as int]);
        match &items[i] {
            JsonValue::Str(s) => {
                let t = trim(&chars_of(s.as_str()));
                if t.len() > 0 {
                    let ghost before = out@.map_values(|s: String| s@);
                    out.push(string_of(&t));
                    assert(out@.map_values(|s: String| s@) =~= before.push(t@));
                }
            },
            _ => {},
        }
        i = i + 1;
    }
    assert(ad.take(i as int) =~= ad);
    out
}

/// The commands as a numbered list, one per line, from 1.
pub open spec fn numbered(commands: Seq<Seq<char>>) -> Seq<char> {
    join(Seq::new(commands.len(), |i: int| decimal((i + 1) as nat) + ". "@ + commands[i]), "\n"@)
}

pub fn numbered_commands(commands: &Vec<String>) -> (r: String)
    ensures
        r@ == numbered(commands@.map_values(|s: String| s@)),
{
    let ghost cv = commands@.map_values(|s: String| s@);
    let ghost lines = Seq::new(cv.len(), |i: int| decimal((i + 1) as nat) + ". "@ + cv[i]);
    let mut parts: Vec<Vec<char>> = Vec::new();
    let mut i: usize = 0;
    while i < commands.len()
        invariant
            i <= commands.len(),
            cv == commands@.map_values(|s: String| s@),
            lines == Seq::new(cv.len(), |i: int| decimal((i + 1) as nat) + ". "@ + cv[i]),
            parts@.map_values(|w: Vec<char>| w@) == lines.take(i as int),
        decreases commands.len() - i,
    {
        let mut line: Vec<char> = Vec::new();
        push_decimal(&mut line, (i as u64) + 1);
        push_str(&mut line, ". ");
        push_str(&mut line, commands[i].as_str());
        assert(line@ =~= lines[i as int]);
        let ghost before = parts@.map_values(|w: Vec<char>| w@);
        parts.push(line);
        assert(parts@.map_values(|w: Vec<char>| w@) =~= before.push(lines[i as int]));
        assert(lines.take(i + 1) =~= lines.take(i as int).push(lines[i as int]));
        i = i + 1;
    }
    assert(lines.take(i as int) =~= lines);
    string_of(&join_chars(&parts, "\n"))
}

} // verus!
