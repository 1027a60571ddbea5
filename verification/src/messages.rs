//! The texts in which the ledger answers.

use crate::account::AccountId;
use crate::generic::{near_text, yocto_to_near_string, Amount};
use crate::matchers::MatcherAmountMap;
use vstd::prelude::*;
use vstd::string::*;

verus! {

/// What a matcher is told whose offer was taken.
pub open spec fn offer_message(matcher: Seq<char>, recipient: Seq<char>, offered: Amount) -> Seq<
    char,
> {
    matcher + " is now committed to match donations to "@ + recipient
        + " up to a maximum of "@ + near_text(offered as nat) + "."@
}

/// What a matcher is told who takes `rescinded` back and keeps a commitment
/// of `left`: how much is on its way back, and whether the matcher goes on
/// matching.
pub open spec fn rescind_message(
    matcher: Seq<char>,
    recipient: Seq<char>,
    rescinded: Amount,
    left: Amount,
) -> Seq<char> {
    let outlook = if left > 0 {
        "will only be committed to match donations to "@ + recipient
            + " up to a maximum of "@ + near_text(left as nat)
    } else {
        "will no longer be matching donations to "@ + recipient
    };
    matcher + " is about to rescind "@ + near_text(rescinded as nat) + " and then "@ + outlook
        + "."@
}

/// The character that writes the digit `d` in base sixteen.
pub open spec fn hex_digit_char(d: nat) -> char {
    if d < 10 {
        (48 + d) as char
    } else {
        (87 + d) as char
    }
}

/// A character that a JSON string holds as it is: any but the double quote,
/// the backslash and the control characters.
pub open spec fn is_plain(c: char) -> bool {
    c != '"' && c != '\\' && c as int >= 32
}

/// How a JSON string writes one character: the double quote and the
/// backslash behind a backslash, a control character by its short name or by
/// its number, any other character as it is.
pub open spec fn json_char(c: char) -> Seq<char> {
    if c == '"' {
        "\\\""@
    } else if c == '\\' {
        "\\\\"@
    } else if c == '\u{8}' {
        "\\b"@
    } else if c == '\u{c}' {
        "\\f"@
    } else if c == '\n' {
        "\\n"@
    } else if c == '\r' {
        "\\r"@
    } else if c == '\t' {
        "\\t"@
    } else if (c as int) < 32 {
        "\\u00"@ + seq![hex_digit_char((c as nat) / 16), hex_digit_char((c as nat) % 16)]
    } else {
        seq![c]
    }
}

/// How a JSON string writes a text, without the quotes around it.
pub open spec fn json_chars(text: Seq<char>) -> Seq<char>
    decreases text.len(),
{
    if text.len() == 0 {
        Seq::empty()
    } else {
        json_chars(text.drop_last()) + json_char(text.last())
    }
}

/// Every character is plain.
pub open spec fn all_plain(text: Seq<char>) -> bool {
    forall|i: int| 0 <= i < text.len() ==> is_plain(#[trigger] text[i])
}

/// One pledge as a member of a JSON object: the matcher's name and the
/// displayed amount, each as a JSON string, with a colon between them.
pub open spec fn commitment_json(matcher: Seq<char>, amount: Amount) -> Seq<char> {
    "\""@ + json_chars(matcher) + "\":\""@ + near_text(amount as nat) + "\""@
}

/// The listed pledges as the members of a JSON object, with commas between
/// them.
pub open spec fn commitments_json_members(listing: Seq<(Seq<char>, Amount)>) -> Seq<char>
    decreases listing.len(),
{
    if listing.len() == 0 {
        Seq::empty()
    } else if listing.len() == 1 {
        commitment_json(listing[0].0, listing[0].1)
    } else {
        commitments_json_members(listing.drop_last()) + ","@ + commitment_json(
            listing.last().0,
            listing.last().1,
        )
    }
}

/// The listed pledges as a JSON object.
pub open spec fn commitments_json(listing: Seq<(Seq<char>, Amount)>) -> Seq<char> {
    "{"@ + commitments_json_members(listing) + "}"@
}

/// Writes the message for an offer that was taken.
pub fn write_offer_message(matcher: &AccountId, recipient: &AccountId, offered: Amount) -> (text:
    String)
    ensures
        text@ == offer_message(matcher@, recipient@, offered),
{
    let mut text = String::new();
    text.append(matcher.as_str());
    text.append(" is now committed to match donations to ");
    text.append(recipient.as_str());
    text.append(" up to a maximum of ");
    text.append(yocto_to_near_string(offered).as_str());
    text.append(".");
    text
}

/// Writes the message for a rescission.
pub fn write_rescind_message(
    matcher: &AccountId,
    recipient: &AccountId,
    rescinded: Amount,
    left: Amount,
) -> (text: String)
    ensures
        text@ == rescind_message(matcher@, recipient@, rescinded, left),
{
    let mut text = String::new();
    text.append(matcher.as_str());
    text.append(" is about to rescind ");
    text.append(yocto_to_near_string(rescinded).as_str());
    text.append(" and then ");
    if left > 0 {
        text.append("will only be committed to match donations to ");
        text.append(recipient.as_str());
        text.append(" up to a maximum of ");
        text.append(yocto_to_near_string(left).as_str());
    } else {
        text.append("will no longer be matching donations to ");
        text.append(recipient.as_str());
    }
    text.append(".");
    text
}

/// A run of plain characters is written as it is.
pub proof fn lemma_plain_run(text: Seq<char>, from: int, to: int)
    requires
        0 <= from <= to <= text.len(),
        all_plain(text.subrange(from, to)),
    ensures
        json_chars(text.take(to)) == json_chars(text.take(from)) + text.subrange(from, to),
    decreases to - from,
{
    if from < to {
        assert(all_plain(text.subrange(from, to - 1))) by {
            assert forall|i: int| 0 <= i < to - 1 - from implies is_plain(
                #[trigger] text.subrange(from, to - 1)[i],
            ) by {
                assert(text.subrange(from, to - 1)[i] == text.subrange(from, to)[i]);
            }
        }
        lemma_plain_run(text, from, to - 1);
        assert(text.take(to).drop_last() =~= text.take(to - 1));
        assert(is_plain(text.subrange(from, to)[to - 1 - from]));
        assert(text.subrange(from, to) =~= text.subrange(from, to - 1).push(text[to - 1]));
    } else {
        assert(text.subrange(from, to) =~= Seq::<char>::empty());
    }
}

/// Appends the character of the digit `d` in base sixteen.
fn push_hex_digit(text: &mut String, d: u32)
    requires
        d < 16,
    ensures
        final(text)@ == old(text)@.push(hex_digit_char(d as nat)),
{
    let digit = match d {
        0 => "0",
        1 => "1",
        2 => "2",
        3 => "3",
        4 => "4",
        5 => "5",
        6 => "6",
        7 => "7",
        8 => "8",
        9 => "9",
        10 => "a",
        11 => "b",
        12 => "c",
        13 => "d",
        14 => "e",
        _ => "f",
    };
    proof {
        reveal_strlit("0");
        reveal_strlit("1");
        reveal_strlit("2");
        reveal_strlit("3");
        reveal_strlit("4");
        reveal_strlit("5");
        reveal_strlit("6");
        reveal_strlit("7");
        reveal_strlit("8");
        reveal_strlit("9");
        reveal_strlit("a");
        reveal_strlit("b");
        reveal_strlit("c");
        reveal_strlit("d");
        reveal_strlit("e");
        reveal_strlit("f");
    }
    text.append(digit);
    assert(text@ =~= old(text)@.push(hex_digit_char(d as nat)));
}

/// Appends what a JSON string writes for `c`, a character that is not
/// plain.
fn push_json_escape(text: &mut String, c: char)
    requires
        !is_plain(c),
    ensures
        final(text)@ == old(text)@ + json_char(c),
{
    if c == '"' {
        text.append("\\\"");
    } else if c == '\\' {
        text.append("\\\\");
    } else if c == '\u{8}' {
        text.append("\\b");
    } else if c == '\u{c}' {
        text.append("\\f");
    } else if c == '\n' {
        text.append("\\n");
    } else if c == '\r' {
        text.append("\\r");
    } else if c == '\t' {
        text.append("\\t");
    } else {
        let code = c as u32;
        text.append("\\u00");
        push_hex_digit(text, code / 16);
        push_hex_digit(text, code % 16);
        assert(text@ =~= old(text)@ + json_char(c));
    }
}

/// Appends `name` as a JSON string writes it, without the quotes around it.
pub fn write_json_chars(text: &mut String, name: &str)
    ensures
        final(text)@ == old(text)@ + json_chars(name@),
{
    let ghost base = text@;
    let n = name.unicode_len();
    let mut start: usize = 0;
    let mut i: usize = 0;
    for c in it: name.chars()
        invariant
            it.seq() == name@,
            n == name@.len(),
            i == it.index(),
            start <= i <= n,
            all_plain(name@.subrange(start as int, i as int)),
            text@ == base + json_chars(name@.take(start as int)),
    {
        let plain = c != '"' && c != '\\' && c >= ' ';
        proof {
            assert(name@.take(i + 1).drop_last() =~= name@.take(i as int));
        }
        if !plain {
            proof {
                lemma_plain_run(name@, start as int, i as int);
            }
            text.append(name.substring_char(start, i));
            push_json_escape(text, c);
            start = i + 1;
            assert(text@ =~= base + json_chars(name@.take(start as int)));
        } else {
            assert forall|k: int| 0 <= k < i + 1 - start implies is_plain(
                #[trigger] name@.subrange(start as int, i + 1)[k],
            ) by {
                if k < i - start {
                    assert(name@.subrange(start as int, i + 1)[k] == name@.subrange(
                        start as int,
                        i as int,
                    )[k]);
                }
            }
        }
        i = i + 1;
    }
    proof {
        lemma_plain_run(name@, start as int, i as int);
        assert(name@.take(n as int) =~= name@);
    }
    text.append(name.substring_char(start, i));
    assert(text@ =~= old(text)@ + json_chars(name@));
}

/// Writes the pledges as a JSON object, in the order of their listing.
pub fn write_commitments_json(pledges: &MatcherAmountMap) -> (text: String)
    ensures
        text@ == commitments_json(pledges.listing()),
{
    let mut text = String::new();
    text.append("{");
    let n = pledges.len();
    let mut i: usize = 0;
    while i < n
        invariant
            i <= n == pledges.listing().len(),
            text@ == "{"@ + commitments_json_members(pledges.listing().take(i as int)),
        decreases n - i,
    {
        if i > 0 {
            text.append(",");
        }
        text.append("\"");
        write_json_chars(&mut text, pledges.matcher_at(i).as_str());
        text.append("\":\"");
        text.append(yocto_to_near_string(pledges.amount_at(i)).as_str());
        text.append("\"");
        assert(pledges.listing().take(i + 1).drop_last() =~= pledges.listing().take(i as int));
        i = i + 1;
    }
    assert(pledges.listing().take(n as int) =~= pledges.listing());
    text.append("}");
    text
}

} // verus!
