//! What a JSON reader makes of rendered usage.

use crate::user_traffic::accounts;
use crate::user_traffic::json;
use crate::user_traffic::usage::Usage;
use std::sync::Arc;
use vstd::prelude::*;

verus! {

/// The value of a hexadecimal digit.
pub open spec fn hex_value(c: char) -> Option<int> {
    if '0' <= c <= '9' {
        Some(c as int - '0' as int)
    } else if 'a' <= c <= 'f' {
        Some(c as int - 'a' as int + 10)
    } else if 'A' <= c <= 'F' {
        Some(c as int - 'A' as int + 10)
    } else {
        None
    }
}

/// The character behind the four hexadecimal digits that `text` begins with. A surrogate stands
/// for no character of its own.
pub open spec fn read_code_point(text: Seq<char>) -> Option<char> {
    if text.len() < 4 {
        None
    } else {
        match (hex_value(text[0]), hex_value(text[1]), hex_value(text[2]), hex_value(text[3])) {
            (Some(a), Some(b), Some(c), Some(d)) => {
                let code = a * 4096 + b * 256 + c * 16 + d;
                if 0xd800 <= code < 0xe000 {
                    None
                } else {
                    Some(code as char)
                }
            },
            _ => None,
        }
    }
}

/// The character that a backslash and `c` stand for.
pub open spec fn read_shorthand(c: char) -> Option<char> {
    if c == '"' || c == '\\' || c == '/' {
        Some(c)
    } else if c == 'b' {
        Some('\u{8}')
    } else if c == 'f' {
        Some('\u{c}')
    } else if c == 'n' {
        Some('\n')
    } else if c == 'r' {
        Some('\r')
    } else if c == 't' {
        Some('\t')
    } else {
        None
    }
}

/// What a read gave, with one character more in front.
pub open spec fn behind(c: char, read: Option<(Seq<char>, Seq<char>)>) -> Option<
    (Seq<char>, Seq<char>),
> {
    match read {
        Some((content, rest)) => Some((seq![c] + content, rest)),
        None => None,
    }
}

/// What a read gave, with a text in front.
pub open spec fn after(text: Seq<char>, read: Option<(Seq<char>, Seq<char>)>) -> Option<
    (Seq<char>, Seq<char>),
> {
    match read {
        Some((content, rest)) => Some((text + content, rest)),
        None => None,
    }
}

/// Reads a JSON string whose opening quote has been read: its content, and what follows the
/// closing quote.
pub open spec fn read_string(text: Seq<char>) -> Option<(Seq<char>, Seq<char>)>
    decreases text.len(),
{
    if text.len() == 0 || (text[0] as int) < 0x20 {
        None
    } else if text[0] == '"' {
        Some((seq![], text.skip(1)))
    } else if text[0] != '\\' {
        behind(text[0], read_string(text.skip(1)))
    } else if text.len() == 1 {
        None
    } else if text[1] == 'u' {
        match read_code_point(text.skip(2)) {
            Some(c) => behind(c, read_string(text.skip(6))),
            None => None,
        }
    } else {
        match read_shorthand(text[1]) {
            Some(c) => behind(c, read_string(text.skip(2))),
            None => None,
        }
    }
}

/// Reads on in a number of which `value` has been read.
pub open spec fn read_digits(value: nat, text: Seq<char>) -> (nat, Seq<char>)
    decreases text.len(),
{
    if text.len() > 0 && '0' <= text[0] <= '9' {
        read_digits(value * 10 + (text[0] as int - '0' as int) as nat, text.skip(1))
    } else {
        (value, text)
    }
}

/// Reads a JSON number without sign, fraction and exponent, which has no leading zeros: its value,
/// and what follows it.
pub open spec fn read_number(text: Seq<char>) -> Option<(nat, Seq<char>)> {
    if text.len() == 0 || !('0' <= text[0] <= '9') {
        None
    } else if text[0] == '0' {
        Some((0, text.skip(1)))
    } else {
        Some(read_digits(0, text))
    }
}

/// What follows `expected` at the beginning of `text`.
pub open spec fn read_literal(text: Seq<char>, expected: Seq<char>) -> Option<Seq<char>> {
    if expected.is_prefix_of(text) {
        Some(text.skip(expected.len() as int))
    } else {
        None
    }
}

/// Reads a number that a literal comes before.
pub open spec fn read_count(text: Seq<char>, label: Seq<char>) -> Option<(u64, Seq<char>)> {
    match read_literal(text, label) {
        Some(text) => match read_number(text) {
            Some((value, rest)) => if value <= u64::MAX {
                Some((value as u64, rest))
            } else {
                None
            },
            None => None,
        },
        None => None,
    }
}

/// Reads the member of one user: the name and the usage, and what follows.
#[verifier::opaque]
pub open spec fn read_member(text: Seq<char>) -> Option<((Seq<char>, Usage), Seq<char>)> {
    match read_literal(text, seq!['"']) {
        Some(text) => match read_string(text) {
            Some((user, text)) => match read_count(text, ":{\"uplink\":"@) {
                Some((uplink, text)) => match read_count(text, ",\"downlink\":"@) {
                    Some((downlink, text)) => match read_literal(text, seq!['}']) {
                        Some(rest) => Some(((user, Usage { uplink, downlink }), rest)),
                        None => None,
                    },
                    None => None,
                },
                None => None,
            },
            None => None,
        },
        None => None,
    }
}

/// Reads one member or more, up to the brace that closes the object.
pub open spec fn read_members(text: Seq<char>) -> Option<(Seq<(Seq<char>, Usage)>, Seq<char>)>
    decreases text.len(),
{
    match read_member(text) {
        Some((row, rest)) => if rest.len() >= text.len() {
            None
        } else if rest.len() > 0 && rest[0] == ',' {
            match read_members(rest.skip(1)) {
                Some((rows, rest)) => Some((seq![row] + rows, rest)),
                None => None,
            }
        } else {
            match read_literal(rest, seq!['}']) {
                Some(rest) => Some((seq![row], rest)),
                None => None,
            }
        },
        None => None,
    }
}

/// Reads a whole text as an object of usage by user.
pub open spec fn read_object(text: Seq<char>) -> Option<Seq<(Seq<char>, Usage)>> {
    if text == seq!['{', '}'] {
        Some(seq![])
    } else {
        match read_literal(text, seq!['{']) {
            Some(text) => match read_members(text) {
                Some((rows, rest)) => if rest.len() == 0 {
                    Some(rows)
                } else {
                    None
                },
                None => None,
            },
            None => None,
        }
    }
}

/// The rows by their names.
pub open spec fn named(rows: Seq<(Arc<str>, Usage)>) -> Seq<(Seq<char>, Usage)> {
    rows.map_values(|row: (Arc<str>, Usage)| (row.0@, row.1))
}

proof fn lemma_escaped_front(text: Seq<char>)
    requires
        text.len() > 0,
    ensures
        json::escaped(text) == json::escaped_char(text[0]) + json::escaped(text.skip(1)),
{
    let first = seq![text[0]];
    json::law_escaping_distributes(first, text.skip(1));
    assert(text =~= first + text.skip(1));
    assert(first.drop_last() =~= seq![]);
    assert(json::escaped(first) =~= json::escaped_char(text[0]));
}

proof fn lemma_code_point(c: char, rest: Seq<char>)
    requires
        (c as int) < 0x20,
    ensures
        read_code_point(
            seq!['0', '0', json::hex_digit(c as int / 16), json::hex_digit(c as int % 16)] + rest,
        ) == Some(c),
{
}

/// An escaped character is read as the character.
proof fn lemma_read_escaped_char(c: char, tail: Seq<char>)
    ensures
        read_string(json::escaped_char(c) + tail) == behind(c, read_string(tail)),
{
    let text = json::escaped_char(c) + tail;
    let n = json::escaped_char(c).len() as int;
    assert(text.skip(n) =~= tail);
    if n == 6 {
        lemma_code_point(c, tail);
        assert(text.skip(2) =~= seq![
            '0',
            '0',
            json::hex_digit(c as int / 16),
            json::hex_digit(c as int % 16),
        ] + tail);
    }
}

/// A username cannot break out of its quotes: whatever the username and whatever follows, a
/// reader gets back the username and stands behind the closing quote.
pub proof fn law_username_stays_in_its_quotes(user: Seq<char>, rest: Seq<char>)
    ensures
        read_string(json::escaped(user) + seq!['"'] + rest) == Some((user, rest)),
{
    let closing = seq!['"'] + rest;
    law_escaped_text_closes_no_string(user, closing);
    assert(json::escaped(user) + seq!['"'] + rest =~= json::escaped(user) + closing);
    assert(closing.skip(1) =~= rest);
    assert(user + seq![] =~= user);
}

/// Two texts that escape to the same are the same.
pub proof fn law_escaping_loses_nothing(left: Seq<char>, right: Seq<char>)
    requires
        json::escaped(left) == json::escaped(right),
    ensures
        left == right,
{
    law_username_stays_in_its_quotes(left, seq![]);
    law_username_stays_in_its_quotes(right, seq![]);
}

/// Reading through an escaped text gives the text and goes on with what follows: no quote in it
/// closes the string, and it does not end inside an escape.
pub proof fn law_escaped_text_closes_no_string(text: Seq<char>, rest: Seq<char>)
    ensures
        read_string(json::escaped(text)) is None,
        read_string(json::escaped(text) + rest) == after(text, read_string(rest)),
    decreases text.len(),
{
    let whole = json::escaped(text) + rest;
    if text.len() == 0 {
        assert(whole =~= rest);
        if let Some((content, end)) = read_string(rest) {
            assert(text + content =~= content);
        }
    } else {
        let c = text[0];
        let tail = json::escaped(text.skip(1)) + rest;
        lemma_escaped_front(text);
        law_escaped_text_closes_no_string(text.skip(1), rest);
        lemma_read_escaped_char(c, tail);
        lemma_read_escaped_char(c, json::escaped(text.skip(1)));
        assert(whole =~= json::escaped_char(c) + tail);
        if let Some((content, end)) = read_string(rest) {
            assert(seq![c] + (text.skip(1) + content) =~= text + content);
        }
    }
}

proof fn lemma_decimal_front(n: nat)
    ensures
        json::decimal(n).len() > 0,
        '0' <= json::decimal(n)[0] <= '9',
        json::decimal(n)[0] == '0' ==> n == 0,
    decreases n,
{
    if n >= 10 {
        lemma_decimal_front(n / 10);
    }
}

proof fn lemma_read_digits(n: nat, rest: Seq<char>)
    ensures
        read_digits(0, json::decimal(n) + rest) == read_digits(n, rest),
    decreases n,
{
    let text = json::decimal(n) + rest;
    if n < 10 {
        assert(text.skip(1) =~= rest);
    } else {
        let digit = json::decimal_digit((n % 10) as int);
        let behind = seq![digit] + rest;
        lemma_read_digits(n / 10, behind);
        assert(text =~= json::decimal(n / 10) + behind);
        assert(behind.skip(1) =~= rest);
    }
}

/// A number that no digit follows is read back as it was written.
pub proof fn law_numbers_are_read_back(n: nat, rest: Seq<char>)
    requires
        rest.len() > 0,
        !('0' <= rest[0] <= '9'),
    ensures
        read_number(json::decimal(n) + rest) == Some((n, rest)),
{
    let text = json::decimal(n) + rest;
    lemma_decimal_front(n);
    lemma_read_digits(n, rest);
    assert(text[0] == json::decimal(n)[0]);
    if n == 0 {
        assert(text.skip(1) =~= rest);
    }
}

proof fn lemma_read_literal(expected: Seq<char>, rest: Seq<char>)
    ensures
        read_literal(expected + rest, expected) == Some(rest),
{
    assert((expected + rest).skip(expected.len() as int) =~= rest);
}

proof fn lemma_read_count(label: Seq<char>, n: u64, rest: Seq<char>)
    requires
        rest.len() > 0,
        !('0' <= rest[0] <= '9'),
    ensures
        read_count(label + json::decimal(n as nat) + rest, label) == Some((n, rest)),
{
    let behind = json::decimal(n as nat) + rest;
    assert(label + json::decimal(n as nat) + rest =~= label + behind);
    lemma_read_literal(label, behind);
    law_numbers_are_read_back(n as nat, rest);
}

proof fn lemma_read_member(user: Seq<char>, usage: Usage, rest: Seq<char>)
    ensures
        read_member(json::member(user, usage) + rest) == Some(((user, usage), rest)),
{
    reveal(read_member);
    let up = ":{\"uplink\":"@;
    let down = ",\"downlink\":"@;
    reveal_strlit("\":{\"uplink\":");
    reveal_strlit(":{\"uplink\":");
    reveal_strlit(",\"downlink\":");
    let closing = seq!['}'] + rest;
    let second = down + json::decimal(usage.downlink as nat) + closing;
    let first = up + json::decimal(usage.uplink as nat) + second;
    let quoted = json::escaped(user) + seq!['"'] + first;
    assert("\":{\"uplink\":"@ =~= seq!['"'] + up);
    assert(json::member(user, usage) + rest =~= seq!['"'] + quoted);
    lemma_read_literal(seq!['"'], quoted);
    law_username_stays_in_its_quotes(user, first);
    assert(second[0] == ',');
    lemma_read_count(up, usage.uplink, second);
    lemma_read_count(down, usage.downlink, closing);
    lemma_read_literal(seq!['}'], rest);
}

proof fn lemma_members_front(rows: Seq<(Arc<str>, Usage)>)
    requires
        rows.len() > 1,
    ensures
        json::members(rows) == json::member(rows[0].0@, rows[0].1) + seq![','] + json::members(
            rows.skip(1),
        ),
    decreases rows.len(),
{
    let front = rows.drop_last();
    assert(front.skip(1) =~= rows.skip(1).drop_last());
    assert(json::members(rows) == json::members(front) + seq![','] + json::member(
        rows.last().0@,
        rows.last().1,
    ));
    if rows.len() > 2 {
        lemma_members_front(front);
        assert(json::members(rows.skip(1)) == json::members(front.skip(1)) + seq![',']
            + json::member(rows.last().0@, rows.last().1));
    } else {
        assert(json::members(front) == json::member(rows[0].0@, rows[0].1));
        assert(json::members(rows.skip(1)) == json::member(rows.last().0@, rows.last().1));
    }
    assert(json::members(rows) =~= json::member(rows[0].0@, rows[0].1) + seq![','] + json::members(
        rows.skip(1),
    ));
}

proof fn lemma_read_members(rows: Seq<(Arc<str>, Usage)>)
    requires
        rows.len() > 0,
    ensures
        read_members(json::members(rows) + seq!['}']) == Some((named(rows), Seq::<char>::empty())),
    decreases rows.len(),
{
    let text = json::members(rows) + seq!['}'];
    let user = rows[0].0@;
    let usage = rows[0].1;
    if rows.len() == 1 {
        lemma_read_member(user, usage, seq!['}']);
        lemma_read_literal(seq!['}'], seq![]);
        assert(seq!['}'] + seq![] =~= seq!['}']);
        assert(named(rows) =~= seq![(user, usage)]);
    } else {
        let behind = json::members(rows.skip(1)) + seq!['}'];
        lemma_members_front(rows);
        lemma_read_members(rows.skip(1));
        lemma_read_member(user, usage, seq![','] + behind);
        assert(text =~= json::member(user, usage) + (seq![','] + behind));
        assert((seq![','] + behind).skip(1) =~= behind);
        assert(named(rows) =~= seq![(user, usage)] + named(rows.skip(1)));
    }
}

/// What was rendered is read back, row for row: whatever the usernames, no field can be forged,
/// lost or altered.
pub proof fn law_rendered_usage_is_read_back(rows: Seq<(Arc<str>, Usage)>)
    ensures
        read_object(json::json_object(rows)) == Some(named(rows)),
{
    let text = json::json_object(rows);
    if rows.len() == 0 {
        assert(text =~= seq!['{', '}']);
        assert(named(rows) =~= seq![]);
    } else {
        let inner = json::members(rows) + seq!['}'];
        lemma_read_members(rows);
        lemma_read_literal(seq!['{'], inner);
        assert(text =~= seq!['{'] + inner);
        lemma_members_begin(rows);
        assert(text[1] == '"');
    }
}

/// Two reports that render the same hold the same rows.
pub proof fn law_rendering_loses_nothing(
    left: Seq<(Arc<str>, Usage)>,
    right: Seq<(Arc<str>, Usage)>,
)
    requires
        json::json_object(left) == json::json_object(right),
    ensures
        named(left) == named(right),
{
    law_rendered_usage_is_read_back(left);
    law_rendered_usage_is_read_back(right);
}

/// What a reader makes of a rendered report names each user once, with their usage.
pub proof fn law_each_user_has_one_member(
    rows: Seq<(Arc<str>, Usage)>,
    table: Map<Seq<char>, Usage>,
)
    requires
        accounts::lists(rows, table),
    ensures
        read_object(json::json_object(rows)) matches Some(read) && {
            &&& forall|i: int, j: int|
                0 <= i < j < read.len() ==> (#[trigger] read[i]).0 != (#[trigger] read[j]).0
            &&& forall|user: Seq<char>, usage: Usage|
                read.contains((user, usage)) <==> #[trigger] table.contains_pair(user, usage)
        },
{
    law_rendered_usage_is_read_back(rows);
    let read = named(rows);
    assert forall|user: Seq<char>, usage: Usage|
        read.contains((user, usage)) <==> #[trigger] table.contains_pair(user, usage) by {
        if read.contains((user, usage)) {
            let i = read.index_of((user, usage));
            assert(table.contains_pair(rows[i].0@, rows[i].1));
        }
        if table.contains_pair(user, usage) {
            assert(table.contains_key(user));
            let i = choose|i: int| 0 <= i < rows.len() && (#[trigger] rows[i]).0@ == user;
            assert(table.contains_pair(rows[i].0@, rows[i].1));
            assert(read[i] == (user, usage));
        }
    }
}

proof fn lemma_members_begin(rows: Seq<(Arc<str>, Usage)>)
    requires
        rows.len() > 0,
    ensures
        json::members(rows).len() > 0,
        json::members(rows)[0] == '"',
    decreases rows.len(),
{
    if rows.len() > 1 {
        lemma_members_begin(rows.drop_last());
    }
}

/// No character of the text is a control character.
pub open spec fn is_printable(text: Seq<char>) -> bool {
    forall|i: int| 0 <= i < text.len() ==> (#[trigger] text[i]) as int >= 0x20
}

proof fn lemma_escaped_char_is_printable(c: char)
    ensures
        is_printable(json::escaped_char(c)),
{
}

/// An escaped text holds no raw control character.
pub proof fn law_escaped_text_is_printable(text: Seq<char>)
    ensures
        is_printable(json::escaped(text)),
    decreases text.len(),
{
    if text.len() > 0 {
        law_escaped_text_is_printable(text.drop_last());
        lemma_escaped_char_is_printable(text.last());
    }
}

proof fn lemma_decimal_is_printable(n: nat)
    ensures
        is_printable(json::decimal(n)),
    decreases n,
{
    if n >= 10 {
        lemma_decimal_is_printable(n / 10);
    }
}

proof fn lemma_members_are_printable(rows: Seq<(Arc<str>, Usage)>)
    ensures
        is_printable(json::members(rows)),
    decreases rows.len(),
{
    if rows.len() > 0 {
        let user = rows.last().0@;
        let usage = rows.last().1;
        lemma_members_are_printable(rows.drop_last());
        law_escaped_text_is_printable(user);
        lemma_decimal_is_printable(usage.uplink as nat);
        lemma_decimal_is_printable(usage.downlink as nat);
        reveal_strlit("\":{\"uplink\":");
        reveal_strlit(",\"downlink\":");
        assert(is_printable(json::member(user, usage)));
    }
}

/// Rendered usage holds no raw control character, which JSON does not allow.
pub proof fn law_control_characters_are_escaped(rows: Seq<(Arc<str>, Usage)>)
    ensures
        is_printable(json::json_object(rows)),
{
    lemma_members_are_printable(rows);
}

/// A character is escaped only where it has to be, and in the shortest way there is a name for:
/// quote, backslash, line feed, carriage return and tab take two characters, every other control
/// character takes six with lower-case digits, and all the rest stand for themselves.
pub proof fn law_characters_are_escaped_sparingly(c: char)
    ensures
        (c as int) >= 0x20 && c != '"' && c != '\\' ==> json::escaped(seq![c]) == seq![c],
        c == '"' || c == '\\' ==> json::escaped(seq![c]) == seq!['\\', c],
        c == '\n' ==> json::escaped(seq![c]) == "\\n"@,
        c == '\r' ==> json::escaped(seq![c]) == "\\r"@,
        c == '\t' ==> json::escaped(seq![c]) == "\\t"@,
        (c as int) < 0x20 && c != '\n' && c != '\r' && c != '\t' ==> {
            let text = json::escaped(seq![c]);
            &&& text.len() == 6
            &&& text.take(4) == "\\u00"@
            &&& forall|i: int| 0 <= i < 6 ==> !('A' <= #[trigger] text[i] <= 'Z')
            &&& hex_value(text[4]) matches Some(high) && hex_value(text[5]) matches Some(low)
                && high * 16 + low == c as int
        },
{
    reveal_strlit("\\n");
    reveal_strlit("\\r");
    reveal_strlit("\\t");
    reveal_strlit("\\u00");
    let text = json::escaped(seq![c]);
    assert(seq![c].drop_last() =~= seq![]);
    assert(json::escaped(seq![c].drop_last()) =~= seq![]);
    assert(text =~= json::escaped_char(c));
    if (c as int) < 0x20 && c != '\n' && c != '\r' && c != '\t' {
        assert(text.take(4) =~= "\\u00"@);
    } else if c == '\n' {
        assert(text =~= "\\n"@);
    } else if c == '\r' {
        assert(text =~= "\\r"@);
    } else if c == '\t' {
        assert(text =~= "\\t"@);
    }
}

/// A text without quotes, backslashes and control characters stands for itself.
pub proof fn law_plain_text_is_not_escaped(text: Seq<char>)
    requires
        is_printable(text),
        !text.contains('"'),
        !text.contains('\\'),
    ensures
        json::escaped(text) == text,
    decreases text.len(),
{
    if text.len() > 0 {
        let front = text.drop_last();
        assert(text[text.len() - 1] == text.last());
        assert forall|i: int| 0 <= i < front.len() implies (#[trigger] front[i]) as int >= 0x20
            && front[i] != '"' && front[i] != '\\' by {
            assert(front[i] == text[i]);
        }
        law_plain_text_is_not_escaped(front);
        assert(json::escaped(text) =~= text);
    } else {
        assert(json::escaped(text) =~= text);
    }
}

/// The object of one user, written out: the escaped name, then the bytes in each direction.
pub proof fn law_one_user_makes_one_member(user: Arc<str>, usage: Usage)
    ensures
        json::json_object(seq![(user, usage)]) == "{\""@ + json::escaped(user@)
            + "\":{\"uplink\":"@ + json::decimal(usage.uplink as nat) + ",\"downlink\":"@
            + json::decimal(usage.downlink as nat) + "}}"@,
{
    reveal_strlit("{\"");
    reveal_strlit("}}");
    assert(json::json_object(seq![(user, usage)]) =~= "{\""@ + json::escaped(user@)
        + "\":{\"uplink\":"@ + json::decimal(usage.uplink as nat) + ",\"downlink\":"@
        + json::decimal(usage.downlink as nat) + "}}"@);
}

/// Two reports render as one with a comma in place of the braces between them.
pub proof fn law_reports_are_joined_by_a_comma(
    first: Seq<(Arc<str>, Usage)>,
    second: Seq<(Arc<str>, Usage)>,
)
    requires
        first.len() > 0,
        second.len() > 0,
    ensures
        json::json_object(first + second) == json::json_object(first).drop_last() + seq![',']
            + json::json_object(second).skip(1),
{
    lemma_members_joined(first, second);
    assert(json::json_object(first).drop_last() =~= seq!['{'] + json::members(first));
    assert(json::json_object(second).skip(1) =~= json::members(second) + seq!['}']);
    assert(json::json_object(first + second) =~= json::json_object(first).drop_last() + seq![',']
        + json::json_object(second).skip(1));
}

proof fn lemma_members_joined(
    first: Seq<(Arc<str>, Usage)>,
    second: Seq<(Arc<str>, Usage)>,
)
    requires
        first.len() > 0,
        second.len() > 0,
    ensures
        json::members(first + second) == json::members(first) + seq![','] + json::members(second),
    decreases second.len(),
{
    let both = first + second;
    let last = json::member(second.last().0@, second.last().1);
    assert(both.last() == second.last());
    if second.len() == 1 {
        assert(both.drop_last() =~= first);
        assert(json::members(second) == last);
    } else {
        lemma_members_joined(first, second.drop_last());
        assert(both.drop_last() =~= first + second.drop_last());
        assert(json::members(second) == json::members(second.drop_last()) + seq![','] + last);
    }
    assert(json::members(both) == json::members(both.drop_last()) + seq![','] + last);
    assert(json::members(both) =~= json::members(first) + seq![','] + json::members(second));
}

/// An empty report is an empty object.
pub proof fn law_an_empty_report_is_an_empty_object()
    ensures
        json::json_object(Seq::<(Arc<str>, Usage)>::empty()) == "{}"@,
{
    reveal_strlit("{}");
    assert(json::json_object(Seq::<(Arc<str>, Usage)>::empty()) =~= "{}"@);
}

} // verus!
