//! JSON text for an environment: string literals as `serde_json` writes them,
//! framed into one object.

use vstd::prelude::*;
use crate::env::{Entry, pair_views};
use crate::text::{join, join_strings, strs, lemma_strs_push};

verus! {

/// The lowercase hexadecimal digit of a value below sixteen.
pub open spec fn hex_digit(d: nat) -> char {
    if d < 10 {
        crate::text::digit_char(d)
    } else if d == 10 {
        'a'
    } else if d == 11 {
        'b'
    } else if d == 12 {
        'c'
    } else if d == 13 {
        'd'
    } else if d == 14 {
        'e'
    } else {
        'f'
    }
}

/// How a character stands inside a JSON string literal as `serde_json`
/// writes it: `"` and `\` and the control characters below U+0020 are
/// escaped (with the short forms for backspace, tab, line feed, form feed and
/// carriage return, and `\u00XX` in lowercase hex for the others); every
/// other character stands as it is.
pub open spec fn json_char(c: char) -> Seq<char> {
    if c == '"' {
        seq!['\\', '"']
    } else if c == '\\' {
        seq!['\\', '\\']
    } else if c == '\u{8}' {
        seq!['\\', 'b']
    } else if c == '\t' {
        seq!['\\', 't']
    } else if c == '\n' {
        seq!['\\', 'n']
    } else if c == '\u{c}' {
        seq!['\\', 'f']
    } else if c == '\r' {
        seq!['\\', 'r']
    } else if (c as nat) < 0x20 {
        seq!['\\', 'u', '0', '0', hex_digit((c as nat) / 16), hex_digit((c as nat) % 16)]
    } else {
        seq![c]
    }
}

/// The escaped characters of a text.
pub open spec fn json_chars(s: Seq<char>) -> Seq<char>
    decreases s.len(),
{
    if s.len() == 0 {
        Seq::empty()
    } else {
        json_chars(s.drop_last()) + json_char(s.last())
    }
}

/// The JSON string literal of a text.
pub open spec fn json_string(s: Seq<char>) -> Seq<char> {
    seq!['"'] + json_chars(s) + seq!['"']
}

/// Calls `serde_json::to_string` on a string slice. The contract claims that
/// the result is the JSON string literal that `json_string` describes, as
/// `serde_json`'s serializer escapes it; serializing a string never fails.
#[verifier::external_body]
fn json_quote(s: &str) -> (r: String)
    ensures
        r@ == json_string(s@),
{
    match serde_json::to_string(s) {
        Ok(text) => text,
        Err(_) => String::new(),
    }
}

/// The member text of one entry: `"NAME":"VALUE"`.
pub open spec fn json_member(e: Entry) -> Seq<char> {
    json_string(e.0) + seq![':'] + json_string(e.1)
}

/// The JSON object whose members are the entries, in order.
pub open spec fn json_object(entries: Seq<Entry>) -> Seq<char> {
    seq!['{'] + join(entries.map_values(|e: Entry| json_member(e)), seq![',']) + seq!['}']
}

/// Writes the pairs as one JSON object, members in order.
pub fn json_object_text(pairs: &Vec<(String, String)>) -> (r: String)
    ensures
        r@ == json_object(pair_views(pairs@)),
{
    let ghost all = pair_views(pairs@).map_values(|e: Entry| json_member(e));
    let mut members: Vec<String> = Vec::new();
    let mut i: usize = 0;
    while i < pairs.len()
        invariant
            i <= pairs.len(),
            all == pair_views(pairs@).map_values(|e: Entry| json_member(e)),
            strs(members@) =~= all.take(i as int),
        decreases pairs.len() - i,
    {
        let mut member = json_quote(pairs[i].0.as_str());
        crate::text::push_char(&mut member, ':');
        let value = json_quote(pairs[i].1.as_str());
        member.append(value.as_str());
        proof {
            assert(pair_views(pairs@)[i as int] == (pairs@[i as int].0@, pairs@[i as int].1@));
            assert(member@ =~= all[i as int]);
            lemma_strs_push(members@, member);
            assert(all.take(i + 1) =~= all.take(i as int).push(all[i as int]));
        }
        members.push(member);
        i = i + 1;
    }
    assert(all.take(i as int) =~= all);
    let mut out = String::new();
    crate::text::push_char(&mut out, '{');
    let inner = join_strings(&members, ",");
    out.append(inner.as_str());
    crate::text::push_char(&mut out, '}');
    proof {
        reveal_strlit(",");
    }
    assert(","@ =~= seq![',']);
    assert(out@ =~= json_object(pair_views(pairs@)));
    out
}

/// Escaping texts one after the other escapes each, one after the other.
pub proof fn lemma_json_chars_concat(a: Seq<char>, b: Seq<char>)
    ensures
        json_chars(a + b) == json_chars(a) + json_chars(b),
    decreases b.len(),
{
    if b.len() == 0 {
        assert(a + b =~= a);
        assert(json_chars(a) + json_chars(b) =~= json_chars(a));
    } else {
        lemma_json_chars_concat(a, b.drop_last());
        assert((a + b).drop_last() =~= a + b.drop_last());
        assert((a + b).last() == b.last());
        assert(json_chars(a + b) =~= json_chars(a) + json_chars(b.drop_last()) + json_char(
            b.last(),
        ));
    }
}

/// Every character is escaped on its own: a one-character text escapes as
/// that character does.
pub proof fn lemma_json_chars_single(c: char)
    ensures
        json_chars(seq![c]) == json_char(c),
{
    assert(seq![c].drop_last() =~= Seq::<char>::empty());
    assert(seq![c].last() == c);
    assert(json_chars(Seq::<char>::empty()) =~= Seq::<char>::empty());
    assert(json_chars(seq![c]) =~= json_char(c));
}

/// The members of the object are the entries' members, in order, separated
/// by commas: each entry stands as `"NAME":"VALUE"` at its place.
pub proof fn lemma_json_object_member(entries: Seq<Entry>, i: int)
    requires
        0 <= i < entries.len(),
    ensures
        json_object(entries) == seq!['{'] + (if i > 0 {
            join(entries.take(i).map_values(|e: Entry| json_member(e)), seq![',']) + seq![',']
        } else {
            Seq::<char>::empty()
        }) + json_member(entries[i]) + (if i + 1 < entries.len() {
            seq![','] + join(entries.skip(i + 1).map_values(|e: Entry| json_member(e)), seq![','])
        } else {
            Seq::<char>::empty()
        }) + seq!['}'],
{
    let members = entries.map_values(|e: Entry| json_member(e));
    crate::text::lemma_join_at(members, seq![','], i);
    assert(members.take(i) =~= entries.take(i).map_values(|e: Entry| json_member(e)));
    assert(members.skip(i + 1) =~= entries.skip(i + 1).map_values(|e: Entry| json_member(e)));
    let pre: Seq<char> = if i > 0 {
        join(members.take(i), seq![',']) + seq![',']
    } else {
        Seq::<char>::empty()
    };
    let post: Seq<char> = if i + 1 < entries.len() {
        seq![','] + join(members.skip(i + 1), seq![','])
    } else {
        Seq::<char>::empty()
    };
    assert(json_object(entries) =~= seq!['{'] + pre + json_member(entries[i]) + post + seq!['}']);
}

} // verus!
