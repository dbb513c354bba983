//! Drained usage as a JSON object keyed by username.

use crate::user_traffic::json_reading;
use crate::user_traffic::usage::Usage;
use std::sync::Arc;
use vstd::prelude::*;
use vstd::string::*;

verus! {

/// The decimal digit of `d`.
pub open spec fn decimal_digit(d: int) -> char
    recommends
        0 <= d < 10,
{
    ('0' as int + d) as char
}

/// The decimal form of `n`, without leading zeros.
pub open spec fn decimal(n: nat) -> Seq<char>
    decreases n,
{
    if n < 10 {
        seq![decimal_digit(n as int)]
    } else {
        decimal(n / 10).push(decimal_digit((n % 10) as int))
    }
}

/// The lower-case hexadecimal digit of `d`.
pub open spec fn hex_digit(d: int) -> char
    recommends
        0 <= d < 16,
{
    if d < 10 {
        decimal_digit(d)
    } else {
        ('a' as int + (d - 10)) as char
    }
}

/// A character as it stands between the quotes of a JSON string.
pub open spec fn escaped_char(c: char) -> Seq<char> {
    if c == '"' {
        seq!['\\', '"']
    } else if c == '\\' {
        seq!['\\', '\\']
    } else if c == '\n' {
        seq!['\\', 'n']
    } else if c == '\r' {
        seq!['\\', 'r']
    } else if c == '\t' {
        seq!['\\', 't']
    } else if (c as int) < 0x20 {
        seq!['\\', 'u', '0', '0', hex_digit(c as int / 16), hex_digit(c as int % 16)]
    } else {
        seq![c]
    }
}

/// A text as it stands between the quotes of a JSON string.
pub open spec fn escaped(text: Seq<char>) -> Seq<char>
    decreases text.len(),
{
    if text.len() == 0 {
        seq![]
    } else {
        escaped(text.drop_last()) + escaped_char(text.last())
    }
}

/// The member of the object for one user.
pub open spec fn member(user: Seq<char>, usage: Usage) -> Seq<char> {
    seq!['"'] + escaped(user) + "\":{\"uplink\":"@ + decimal(usage.uplink as nat)
        + ",\"downlink\":"@ + decimal(usage.downlink as nat) + seq!['}']
}

/// The members of the object, with commas between them.
pub open spec fn members(rows: Seq<(Arc<str>, Usage)>) -> Seq<char>
    decreases rows.len(),
{
    if rows.len() == 0 {
        seq![]
    } else if rows.len() == 1 {
        member(rows[0].0@, rows[0].1)
    } else {
        members(rows.drop_last()) + seq![','] + member(rows.last().0@, rows.last().1)
    }
}

/// The rows as a JSON object keyed by username.
pub open spec fn json_object(rows: Seq<(Arc<str>, Usage)>) -> Seq<char> {
    seq!['{'] + members(rows) + seq!['}']
}

/// Escaping goes text by text: escaping two texts one after the other is escaping them as one,
/// and the empty text adds nothing.
pub proof fn law_escaping_distributes(first: Seq<char>, second: Seq<char>)
    ensures
        escaped(first + second) == escaped(first) + escaped(second),
        escaped(Seq::<char>::empty()) == Seq::<char>::empty(),
    decreases second.len(),
{
    if second.len() == 0 {
        assert(first + second =~= first);
        assert(escaped(first) + escaped(second) =~= escaped(first));
    } else {
        law_escaping_distributes(first, second.drop_last());
        assert((first + second).drop_last() =~= first + second.drop_last());
        assert(escaped(first + second) =~= escaped(first) + escaped(second));
    }
}

/// Specifies `String::push` of std.
///
/// Trusted: the character is put behind the end of the string, and nothing else changes.
pub assume_specification[ String::push ](string: &mut String, ch: char)
    ensures
        final(string)@ == old(string)@.push(ch),
;

/// Appends the decimal form of `n`.
fn push_decimal(n: u64, out: &mut String)
    ensures
        final(out)@ == old(out)@ + decimal(n as nat),
    decreases n,
{
    if n >= 10 {
        push_decimal(n / 10, out);
    }
    let digit: u8 = 0x30 + (n % 10) as u8;
    out.push(digit as char);
}

/// The lower-case hexadecimal digit of `d`.
fn hex_char(d: u8) -> (digit: char)
    requires
        d < 16,
    ensures
        digit == hex_digit(d as int),
{
    if d < 10 {
        (0x30 + d) as char
    } else {
        (0x61 + (d - 10)) as char
    }
}

/// Appends one character as it stands between the quotes of a JSON string.
fn escape_char_into(c: char, out: &mut String)
    ensures
        final(out)@ == old(out)@ + escaped_char(c),
{
    match c {
        '"' => out.append("\\\""),
        '\\' => out.append("\\\\"),
        '\n' => out.append("\\n"),
        '\r' => out.append("\\r"),
        '\t' => out.append("\\t"),
        // Everything else below a space has no shorthand and is illegal raw.
        c if (c as u32) < 0x20 => {
            let code: u8 = c as u8;
            out.append("\\u00");
            out.push(hex_char(code / 16));
            out.push(hex_char(code % 16));
        },
        c => out.push(c),
    }
    proof {
        reveal_strlit("\\\"");
        reveal_strlit("\\\\");
        reveal_strlit("\\n");
        reveal_strlit("\\r");
        reveal_strlit("\\t");
        reveal_strlit("\\u00");
        assert(out@ =~= old(out)@ + escaped_char(c));
    }
}

/// Appends `s` as it stands between the quotes of a JSON string.
pub fn escape_json_into(s: &str, out: &mut String)
    ensures
        final(out)@ == old(out)@ + escaped(s@),
        final(out)@.take(old(out)@.len() as int) == old(out)@,
        json_reading::read_string(final(out)@.skip(old(out)@.len() as int) + seq!['"']) == Some(
            (s@, Seq::<char>::empty()),
        ),
{
    let ghost start = out@;
    for c in it: s.chars()
        invariant
            it.seq() == s@,
            out@ == start + escaped(s@.take(it.index())),
    {
        escape_char_into(c, out);
        proof {
            let upto = s@.take(it.index() + 1);
            assert(upto.drop_last() =~= s@.take(it.index()));
        }
    }
    proof {
        assert(s@.take(s@.len() as int) =~= s@);
        let added = out@.skip(start.len() as int);
        assert(added =~= escaped(s@));
        json_reading::law_username_stays_in_its_quotes(s@, seq![]);
        assert(added + seq!['"'] + seq![] =~= added + seq!['"']);
        assert(out@.take(start.len() as int) =~= start);
    }
}

/// Renders drained usage as a JSON object keyed by username.
///
/// Written by hand rather than through a serializer: a dependency to emit two integers per user is
/// a poor trade. The escaping is the part that has to be right: a username is operator-supplied
/// text, so it cannot be pasted between quotes and hoped for.
pub fn render_json(usage: &[(Arc<str>, Usage)]) -> (out: String)
    ensures
        out@ == json_object(usage@),
        json_reading::read_object(out@) == Some(json_reading::named(usage@)),
{
    let mut out = "{".to_owned();
    proof {
        reveal_strlit("{");
        assert(out@ =~= seq!['{'] + members(usage@.take(0)));
    }
    for i in 0..usage.len()
        invariant
            out@ == seq!['{'] + members(usage@.take(i as int)),
    {
        if i > 0 {
            out.push(',');
        }
        let (user, bytes) = &usage[i];
        out.push('"');
        escape_json_into(user, &mut out);
        out.append("\":{\"uplink\":");
        push_decimal(bytes.uplink, &mut out);
        out.append(",\"downlink\":");
        push_decimal(bytes.downlink, &mut out);
        out.push('}');
        proof {
            let upto = usage@.take(i + 1);
            assert(upto.drop_last() =~= usage@.take(i as int));
            assert(out@ =~= seq!['{'] + members(upto));
        }
    }
    out.push('}');
    proof {
        assert(usage@.take(usage@.len() as int) =~= usage@);
        assert(out@ =~= json_object(usage@));
        json_reading::law_rendered_usage_is_read_back(usage@);
    }
    out
}

} // verus!
