//! JSON text: string escaping as `serde_json` writes it, and comma-joined
//! lists of already-encoded items.
use vstd::prelude::*;
use crate::text::{push_char, append_seq, chars_of, hex_digit, hex_digit_char, join_with, lemma_split_join, split_seq};

verus! {

/// How `serde_json` writes the character `c` inside a string literal.
pub open spec fn json_escape(c: char) -> Seq<char> {
    let u = c as u32;
    if c == '"' {
        seq!['\\', '"']
    } else if c == '\\' {
        seq!['\\', '\\']
    } else if u == 0x08 {
        seq!['\\', 'b']
    } else if u == 0x0c {
        seq!['\\', 'f']
    } else if u == 0x0a {
        seq!['\\', 'n']
    } else if u == 0x0d {
        seq!['\\', 'r']
    } else if u == 0x09 {
        seq!['\\', 't']
    } else if u < 0x20 {
        seq!['\\', 'u', '0', '0', hex_digit_char((u / 16) as nat), hex_digit_char((u % 16) as nat)]
    } else {
        seq![c]
    }
}

/// The escaped characters of `s`.
pub open spec fn json_escaped(s: Seq<char>) -> Seq<char>
    decreases s.len(),
{
    if s.len() == 0 {
        Seq::<char>::empty()
    } else {
        json_escaped(s.drop_last()) + json_escape(s.last())
    }
}

/// `s` as a JSON string literal.
pub open spec fn json_string(s: Seq<char>) -> Seq<char> {
    seq!['"'] + json_escaped(s) + seq!['"']
}

/// The parts, in order, separated by commas.
pub open spec fn comma_join(parts: Seq<Seq<char>>) -> Seq<char>
    decreases parts.len(),
{
    if parts.len() == 0 {
        Seq::<char>::empty()
    } else if parts.len() == 1 {
        parts[0]
    } else {
        comma_join(parts.drop_last()) + seq![','] + parts.last()
    }
}

/// Joining with commas is joining with the separator `,`.
pub proof fn lemma_comma_join_is_join(parts: Seq<Seq<char>>)
    ensures
        comma_join(parts) == join_with(parts, ','),
    decreases parts.len(),
{
    if parts.len() > 1 {
        lemma_comma_join_is_join(parts.drop_last());
    }
}

/// Comma-separated ids come apart again: splitting the comma-joined parts at
/// commas gives back the parts when there is at least one and none holds a
/// comma.
pub proof fn law_comma_join_splits_back(parts: Seq<Seq<char>>)
    requires
        parts.len() >= 1,
        forall|i: int| 0 <= i < parts.len() ==> !(#[trigger] parts[i]).contains(','),
    ensures
        split_seq(comma_join(parts), ',') == parts,
    decreases parts.len(),
{
    lemma_comma_join_is_join(parts);
    lemma_split_join(parts, ',');
}

/// The strings `items` as a JSON array of strings.
pub open spec fn json_string_list(items: Seq<Seq<char>>) -> Seq<char> {
    seq!['['] + comma_join(items.map_values(|s: Seq<char>| json_string(s))) + seq![']']
}

/// Adding one more part to a comma-joined list.
pub proof fn lemma_comma_join_push(parts: Seq<Seq<char>>, p: Seq<char>)
    ensures
        comma_join(parts.push(p)) == if parts.len() == 0 {
            p
        } else {
            comma_join(parts) + seq![','] + p
        },
{
    assert(parts.push(p).drop_last() =~= parts);
}

/// Appends the JSON escape of `c`.
pub fn append_json_escape(out: &mut String, c: char)
    ensures
        final(out)@ == old(out)@ + json_escape(c),
{
    let u = c as u32;
    let mut e: Vec<char> = Vec::new();
    if c == '"' {
        e.push('\\');
        e.push('"');
    } else if c == '\\' {
        e.push('\\');
        e.push('\\');
    } else if u == 0x08 {
        e.push('\\');
        e.push('b');
    } else if u == 0x0c {
        e.push('\\');
        e.push('f');
    } else if u == 0x0a {
        e.push('\\');
        e.push('n');
    } else if u == 0x0d {
        e.push('\\');
        e.push('r');
    } else if u == 0x09 {
        e.push('\\');
        e.push('t');
    } else if u < 0x20 {
        e.push('\\');
        e.push('u');
        e.push('0');
        e.push('0');
        e.push(hex_digit((u / 16) as u64));
        e.push(hex_digit((u % 16) as u64));
    } else {
        e.push(c);
    }
    assert(e@ =~= json_escape(c));
    append_seq(out, &e);
}

/// Appends `s` as a JSON string literal.
pub fn append_json_string(out: &mut String, s: &str)
    ensures
        final(out)@ == old(out)@ + json_string(s@),
{
    let v = chars_of(s);
    push_char(out, '"');
    let mut i: usize = 0;
    while i < v.len()
        invariant
            i <= v.len(),
            v@ == s@,
            out@ == old(out)@ + seq!['"'] + json_escaped(v@.take(i as int)),
        decreases v.len() - i,
    {
        append_json_escape(out, v[i]);
        proof {
            let t = v@.take(i + 1);
            assert(t.drop_last() =~= v@.take(i as int));
            assert(t.last() == v@[i as int]);
        }
        i = i + 1;
    }
    push_char(out, '"');
    assert(v@.take(v@.len() as int) =~= v@);
    assert(old(out)@ + json_string(s@) =~= old(out)@ + seq!['"'] + json_escaped(s@) + seq!['"']);
}

/// Appends the strings `items` as a JSON array of strings.
pub fn append_json_string_list(out: &mut String, items: &Vec<String>)
    ensures
        final(out)@ == old(out)@ + json_string_list(items.deep_view()),
{
    let ghost parts = items.deep_view().map_values(|s: Seq<char>| json_string(s));
    push_char(out, '[');
    let mut i: usize = 0;
    while i < items.len()
        invariant
            i <= items.len(),
            parts == items.deep_view().map_values(|s: Seq<char>| json_string(s)),
            out@ == old(out)@ + seq!['['] + comma_join(parts.take(i as int)),
        decreases items.len() - i,
    {
        proof {
            lemma_comma_join_push(parts.take(i as int), parts[i as int]);
            assert(parts.take(i + 1) =~= parts.take(i as int).push(parts[i as int]));
            assert(parts[i as int] == json_string(items[i as int]@));
        }
        if i > 0 {
            push_char(out, ',');
        }
        append_json_string(out, items[i].as_str());
        proof {
            if i > 0 {
                assert(out@ =~= old(out)@ + seq!['['] + (comma_join(parts.take(i as int)) + seq![
                    ',',
                ] + parts[i as int]));
            } else {
                assert(out@ =~= old(out)@ + seq!['['] + parts[i as int]);
            }
        }
        i = i + 1;
    }
    push_char(out, ']');
    assert(parts.take(items.len() as int) =~= parts);
    assert(out@ =~= old(out)@ + json_string_list(items.deep_view()));
}

} // verus!
