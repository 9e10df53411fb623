//! Writing a document as text.

use vstd::prelude::*;
use vstd::string::StringExecFns;

use crate::error::Error;
use crate::json::raw::{raw_shape, RawValue, TOKEN};
use crate::ser::{
    lemma_entries_size_item, lemma_nodes_size_item, node_size, Fragment, Node, Serialize,
};

verus! {

/// The character of a decimal digit.
pub open spec fn digit_char(d: nat) -> char
    recommends
        d < 10,
{
    (('0' as u8) + (d as u8)) as char
}

/// A number in decimal digits, without a sign and without leading zeros.
pub open spec fn decimal(n: nat) -> Seq<char>
    decreases n,
{
    if n < 10 {
        seq![digit_char(n)]
    } else {
        decimal(n / 10).push(digit_char(n % 10))
    }
}

/// A number with a sign in decimal digits: `-` stands before a negative
/// number.
pub open spec fn signed_decimal(n: int) -> Seq<char> {
    if n < 0 {
        seq!['-'] + decimal((-n) as nat)
    } else {
        decimal(n as nat)
    }
}

/// Writes a number in decimal digits behind a text.
pub fn write_u64(n: u64, out: &mut String)
    ensures
        final(out)@ == old(out)@ + decimal(n as nat),
{
    // The digits come out last digit first, so they are kept until all are
    // there.
    let mut digits: Vec<char> = Vec::new();
    let mut rest = n;
    while rest >= 10
        invariant
            forall|front: Seq<char>|
                #![trigger front + digits@.reverse()]
                decimal(rest as nat) == front ==> decimal(n as nat) == front + digits@.reverse(),
        decreases rest,
    {
        let d = (rest % 10) as u8;
        let c = (48u8 + d) as char;
        let ghost before = digits@;
        let ghost old_rest = rest;
        digits.push(c);
        rest = rest / 10;
        proof {
            assert(c == digit_char((old_rest % 10) as nat));
            assert forall|front: Seq<char>|
                #![trigger front + digits@.reverse()]
                decimal(rest as nat) == front implies decimal(n as nat) == front
                + digits@.reverse() by {
                assert(decimal(old_rest as nat) == front.push(c));
                assert(digits@.reverse() =~= seq![c] + before.reverse());
                assert(front.push(c) + before.reverse() =~= front + digits@.reverse());
            }
        }
    }
    let first = (48u8 + (rest as u8)) as char;
    let ghost start = out@;
    out.push(first);
    proof {
        assert(decimal(rest as nat) == seq![first]);
        assert(decimal(n as nat) == seq![first] + digits@.reverse());
    }
    let mut i: usize = digits.len();
    while i > 0
        invariant
            i <= digits.len(),
            out@ == start + seq![first] + digits@.reverse().take(digits.len() - i),
        decreases i,
    {
        i -= 1;
        let ghost before = out@;
        out.push(digits[i]);
        proof {
            let r = digits@.reverse();
            let k = digits.len() - i - 1;
            assert(r[k] == digits@[i as int]);
            assert(r.take(k + 1) =~= r.take(k).push(r[k]));
            assert(out@ =~= start + seq![first] + r.take(k + 1));
        }
    }
    proof {
        let r = digits@.reverse();
        assert(r.take(digits.len() as int) =~= r);
        assert(out@ =~= start + (seq![first] + r));
    }
}

/// Writes a number with a sign in decimal digits behind a text.
pub fn write_i64(n: i64, out: &mut String)
    ensures
        final(out)@ == old(out)@ + signed_decimal(n as int),
{
    if n < 0 {
        let ghost start = out@;
        out.push('-');
        // `-n` does not fit for the least number, so one is added before
        // the sign is turned and put back after.
        let magnitude: u64 = ((-(n + 1)) as u64) + 1;
        write_u64(magnitude, out);
        assert(out@ =~= start + (seq!['-'] + decimal((-n) as nat)));
    } else {
        write_u64(n as u64, out);
    }
}

/// The character of a hexadecimal digit, in lower case.
pub open spec fn hex_char(d: nat) -> char
    recommends
        d < 16,
{
    if d < 10 {
        (('0' as u8) + (d as u8)) as char
    } else {
        (('a' as u8) + ((d - 10) as u8)) as char
    }
}

/// How one character stands inside a quoted string: the quote, the
/// backslash and the control characters are escaped, every other character
/// stands for itself.
pub open spec fn escape_char(c: char) -> Seq<char> {
    if c == '"' {
        seq!['\\', '"']
    } else if c == '\\' {
        seq!['\\', '\\']
    } else if c == '\u{8}' {
        seq!['\\', 'b']
    } else if c == '\u{c}' {
        seq!['\\', 'f']
    } else if c == '\n' {
        seq!['\\', 'n']
    } else if c == '\r' {
        seq!['\\', 'r']
    } else if c == '\t' {
        seq!['\\', 't']
    } else if c <= '\u{1f}' {
        seq!['\\', 'u', '0', '0', hex_char(((c as u8) / 16) as nat), hex_char(((c as u8) % 16) as nat)]
    } else {
        seq![c]
    }
}

/// A text with each character as it stands inside a quoted string.
pub open spec fn escaped(s: Seq<char>) -> Seq<char>
    decreases s.len(),
{
    if s.len() == 0 {
        Seq::<char>::empty()
    } else {
        escaped(s.drop_last()) + escape_char(s.last())
    }
}

/// A text as a quoted string.
pub open spec fn quoted(s: Seq<char>) -> Seq<char> {
    seq!['"'] + escaped(s) + seq!['"']
}

fn hex_digit(d: u8) -> (c: char)
    requires
        d < 16,
    ensures
        c == hex_char(d as nat),
{
    if d < 10 {
        (48u8 + d) as char
    } else {
        (97u8 + (d - 10)) as char
    }
}

fn write_escape(c: char, out: &mut String)
    ensures
        final(out)@ == old(out)@ + escape_char(c),
{
    let ghost start = out@;
    if c == '"' {
        out.push('\\');
        out.push('"');
    } else if c == '\\' {
        out.push('\\');
        out.push('\\');
    } else if c == '\u{8}' {
        out.push('\\');
        out.push('b');
    } else if c == '\u{c}' {
        out.push('\\');
        out.push('f');
    } else if c == '\n' {
        out.push('\\');
        out.push('n');
    } else if c == '\r' {
        out.push('\\');
        out.push('r');
    } else if c == '\t' {
        out.push('\\');
        out.push('t');
    } else if c <= '\u{1f}' {
        let b = c as u8;
        out.push('\\');
        out.push('u');
        out.push('0');
        out.push('0');
        out.push(hex_digit(b / 16));
        out.push(hex_digit(b % 16));
    } else {
        out.push(c);
    }
    assert(out@ =~= start + escape_char(c));
}

/// Writes a text as a quoted string behind a text.
pub fn write_quoted(s: &str, out: &mut String)
    ensures
        final(out)@ == old(out)@ + quoted(s@),
{
    let ghost start = out@;
    out.push('"');
    for c in it: s.chars()
        invariant
            it.seq() == s@,
            out@ == start + seq!['"'] + escaped(s@.take(it.index())),
    {
        let ghost before = out@;
        write_escape(c, out);
        proof {
            let k = it.index();
            assert(s@.take(k + 1).drop_last() =~= s@.take(k));
            assert(s@.take(k + 1).last() == c);
            assert(out@ =~= start + seq!['"'] + escaped(s@.take(k + 1)));
        }
    }
    assert(s@.take(s@.len() as int) =~= s@);
    out.push('"');
    assert(out@ =~= start + quoted(s@));
}

/// Whether the entries are those of a passthrough value: one entry, a
/// string under the reserved key.
pub open spec fn is_passthrough(entries: Seq<(Seq<char>, Node)>) -> bool {
    entries.len() == 1 && entries[0].0 == TOKEN@ && entries[0].1 is Str
}

/// The text that a shape is written as. A passthrough value is written as
/// its own text, character for character.
pub open spec fn json_text(node: Node) -> Seq<char>
    decreases node,
{
    match node {
        Node::Null => "null"@,
        Node::Bool(b) => if b {
            "true"@
        } else {
            "false"@
        },
        Node::Str(s) => quoted(s),
        Node::U64(n) => decimal(n as nat),
        Node::I64(n) => signed_decimal(n as int),
        Node::Sequence(items) => seq!['['] + items_text(items) + seq![']'],
        Node::Mapping(entries) => if is_passthrough(entries) {
            entries[0].1->Str_0
        } else {
            seq!['{'] + entries_text(entries) + seq!['}']
        },
    }
}

/// The text of the items of a sequence, with a comma between one and the
/// next.
pub open spec fn items_text(items: Seq<Node>) -> Seq<char>
    decreases items,
{
    if items.len() == 0 {
        Seq::<char>::empty()
    } else if items.len() == 1 {
        json_text(items.last())
    } else {
        items_text(items.drop_last()) + seq![','] + json_text(items.last())
    }
}

/// The text of the entries of a mapping, with a comma between one and the
/// next.
pub open spec fn entries_text(entries: Seq<(Seq<char>, Node)>) -> Seq<char>
    decreases entries,
{
    if entries.len() == 0 {
        Seq::<char>::empty()
    } else if entries.len() == 1 {
        quoted(entries.last().0) + seq![':'] + json_text(entries.last().1)
    } else {
        entries_text(entries.drop_last()) + seq![','] + (quoted(entries.last().0) + seq![':']
            + json_text(entries.last().1))
    }
}

/// The text of one entry: the key as a quoted string, a colon, and the text
/// of the value.
pub open spec fn entry_text(key: Seq<char>, node: Node) -> Seq<char> {
    quoted(key) + seq![':'] + json_text(node)
}

/// The text of the entries that follow another entry: a comma before each.
pub open spec fn entries_after(entries: Seq<(Seq<char>, Node)>) -> Seq<char>
    decreases entries.len(),
{
    if entries.len() == 0 {
        Seq::<char>::empty()
    } else {
        entries_after(entries.drop_last()) + seq![','] + entry_text(
            entries.last().0,
            entries.last().1,
        )
    }
}

/// The text of the items that follow another item: a comma before each.
pub open spec fn items_after(items: Seq<Node>) -> Seq<char>
    decreases items.len(),
{
    if items.len() == 0 {
        Seq::<char>::empty()
    } else {
        items_after(items.drop_last()) + seq![','] + json_text(items.last())
    }
}

/// The text of entries is the text of the first of them and then the text
/// of those that follow.
pub proof fn lemma_entries_text_split(
    front: Seq<(Seq<char>, Node)>,
    back: Seq<(Seq<char>, Node)>,
)
    requires
        front.len() > 0,
    ensures
        entries_text(front + back) == entries_text(front) + entries_after(back),
    decreases back.len(),
{
    if back.len() == 0 {
        assert(front + back =~= front);
        assert(entries_text(front) + entries_after(back) =~= entries_text(front));
    } else {
        lemma_entries_text_split(front, back.drop_last());
        assert((front + back).drop_last() =~= front + back.drop_last());
        assert((front + back).last() == back.last());
        assert(entries_text(front + back) =~= entries_text(front) + entries_after(back));
    }
}

/// The text of items is the text of the first of them and then the text of
/// those that follow.
pub proof fn lemma_items_text_split(front: Seq<Node>, back: Seq<Node>)
    requires
        front.len() > 0,
    ensures
        items_text(front + back) == items_text(front) + items_after(back),
    decreases back.len(),
{
    if back.len() == 0 {
        assert(front + back =~= front);
        assert(items_text(front) + items_after(back) =~= items_text(front));
    } else {
        lemma_items_text_split(front, back.drop_last());
        assert((front + back).drop_last() =~= front + back.drop_last());
        assert((front + back).last() == back.last());
        assert(items_text(front + back) =~= items_text(front) + items_after(back));
    }
}

/// Passthrough fidelity: a passthrough value is written as its own text,
/// character for character.
pub proof fn lemma_passthrough_text(text: Seq<char>)
    ensures
        json_text(raw_shape(text)) == text,
{
    let entries = seq![(TOKEN@, Node::Str(text))];
    assert(entries[0] == (TOKEN@, Node::Str(text)));
    assert(is_passthrough(entries));
}

/// Passthrough fidelity inside a mapping: where the value of an entry is a
/// passthrough value, the text of the mapping holds, behind the key of that
/// entry and a colon, the text of the passthrough value, character for
/// character, between the text of the entries before it and the text of
/// those that follow.
pub proof fn lemma_passthrough_in_mapping_text(
    entries: Seq<(Seq<char>, Node)>,
    i: int,
    text: Seq<char>,
)
    requires
        0 <= i < entries.len(),
        entries[i].1 == raw_shape(text),
    ensures
        json_text(Node::Mapping(entries)) == seq!['{'] + (if i == 0 {
            Seq::<char>::empty()
        } else {
            entries_text(entries.take(i)) + seq![',']
        }) + quoted(entries[i].0) + seq![':'] + text + entries_after(entries.skip(i + 1))
            + seq!['}'],
{
    lemma_passthrough_text(text);
    let upto = entries.take(i + 1);
    let rest = entries.skip(i + 1);
    assert(upto + rest =~= entries);
    lemma_entries_text_split(upto, rest);
    assert(upto.drop_last() =~= entries.take(i));
    assert(upto.last() == entries[i]);
    assert(!is_passthrough(entries));
    let before = if i == 0 {
        Seq::<char>::empty()
    } else {
        entries_text(entries.take(i)) + seq![',']
    };
    assert(entries_text(upto) =~= before + quoted(entries[i].0) + seq![':'] + text);
    assert(seq!['{'] + entries_text(entries) + seq!['}'] =~= seq!['{'] + before + quoted(
        entries[i].0,
    ) + seq![':'] + text + entries_after(rest) + seq!['}']);
}

/// Passthrough fidelity inside a sequence: where an item is a passthrough
/// value, the text of the sequence holds the text of the passthrough value,
/// character for character, between the text of the items before it and
/// the text of those that follow.
pub proof fn lemma_passthrough_in_sequence_text(items: Seq<Node>, i: int, text: Seq<char>)
    requires
        0 <= i < items.len(),
        items[i] == raw_shape(text),
    ensures
        json_text(Node::Sequence(items)) == seq!['['] + (if i == 0 {
            Seq::<char>::empty()
        } else {
            items_text(items.take(i)) + seq![',']
        }) + text + items_after(items.skip(i + 1)) + seq![']'],
{
    lemma_passthrough_text(text);
    let upto = items.take(i + 1);
    let rest = items.skip(i + 1);
    assert(upto + rest =~= items);
    lemma_items_text_split(upto, rest);
    assert(upto.drop_last() =~= items.take(i));
    assert(upto.last() == items[i]);
    let before = if i == 0 {
        Seq::<char>::empty()
    } else {
        items_text(items.take(i)) + seq![',']
    };
    assert(items_text(upto) =~= before + text);
    assert(seq!['['] + items_text(items) + seq![']'] =~= seq!['['] + before + text
        + items_after(rest) + seq![']']);
}

/// Writes what a fragment gives behind a text. The work goes as deep as
/// the fragment nests.
pub fn write_fragment(fragment: Fragment<'_>, out: &mut String)
    ensures
        final(out)@ == old(out)@ + json_text(fragment.shape()),
    decreases node_size(fragment.shape()),
{
    let ghost start = out@;
    match fragment {
        Fragment::Null => {
            out.append("null");
        },
        Fragment::Bool(b) => {
            if b {
                out.append("true");
            } else {
                out.append("false");
            }
        },
        Fragment::Str(s) => {
            write_quoted(s, out);
        },
        Fragment::U64(n) => {
            write_u64(n, out);
        },
        Fragment::I64(n) => {
            write_i64(n, out);
        },
        Fragment::Sequence(stream) => {
            let mut stream = stream;
            let ghost all = stream.remaining();
            out.push('[');
            let ghost mut k: int = 0;
            let mut first = true;
            let mut next = stream.next();
            assert(out@ =~= start + seq!['['] + items_text(all.take(0)));
            while next.is_some()
                invariant
                    0 <= k <= all.len(),
                    first == (k == 0),
                    fragment.shape() == Node::Sequence(all),
                    out@ == start + seq!['['] + items_text(all.take(k)),
                    match next {
                        Some(child) => k < all.len() && child.shape() == all[k]
                            && stream.remaining() == all.skip(k + 1),
                        None => k == all.len(),
                    },
                decreases all.len() - k,
            {
                let child = next.unwrap();
                proof {
                    lemma_nodes_size_item(all, k);
                    assert(all.take(k + 1).drop_last() =~= all.take(k));
                    assert(all.take(k + 1).last() == all[k]);
                }
                if !first {
                    out.push(',');
                }
                first = false;
                write_fragment(child, out);
                proof {
                    assert(out@ =~= start + seq!['['] + items_text(all.take(k + 1)));
                    k = k + 1;
                }
                next = stream.next();
                proof {
                    if next is Some {
                        assert(all.skip(k)[0] == all[k]);
                        assert(all.skip(k).drop_first() =~= all.skip(k + 1));
                    } else {
                        assert(all.skip(k).len() == 0);
                    }
                }
            }
            assert(all.take(k) =~= all);
            out.push(']');
            assert(out@ =~= start + (seq!['['] + items_text(all) + seq![']']));
        },
        Fragment::Mapping(stream) => {
            let mut stream = stream;
            let ghost all = stream.remaining();
            let (key, child) = match stream.next() {
                Some(entry) => entry,
                None => {
                    out.push('{');
                    out.push('}');
                    assert(all.len() == 0);
                    assert(out@ =~= start + (seq!['{'] + entries_text(all) + seq!['}']));
                    return ;
                },
            };
            let mut next = stream.next();
            proof {
                assert(all[0] == (key@, child.shape()));
                if next is Some {
                    assert(all.skip(1)[0] == all[1]);
                    assert(all.skip(1).drop_first() =~= all.skip(2));
                } else {
                    assert(all.skip(1).len() == 0);
                }
                lemma_entries_size_item(all, 0);
                assert(all.take(1).len() == 1);
                assert(all.take(1).last() == all[0]);
            }
            let alone = next.is_none() && key.eq(TOKEN);
            let ghost head = child.shape();
            match child {
                Fragment::Str(text) => {
                    if alone {
                        out.append(text);
                        assert(is_passthrough(all));
                        return ;
                    }
                    out.push('{');
                    write_quoted(key, out);
                    out.push(':');
                    write_quoted(text, out);
                    assert(out@ =~= start + seq!['{'] + (quoted(key@) + seq![':'] + json_text(
                        head,
                    )));
                },
                other => {
                    out.push('{');
                    write_quoted(key, out);
                    out.push(':');
                    write_fragment(other, out);
                    assert(out@ =~= start + seq!['{'] + (quoted(key@) + seq![':'] + json_text(
                        head,
                    )));
                },
            }
            let ghost mut k: int = 1;
            assert(entries_text(all.take(1)) == quoted(key@) + seq![':'] + json_text(head));
            assert(out@ =~= start + seq!['{'] + entries_text(all.take(1)));
            while next.is_some()
                invariant
                    1 <= k <= all.len(),
                    fragment.shape() == Node::Mapping(all),
                    !is_passthrough(all),
                    out@ == start + seq!['{'] + entries_text(all.take(k)),
                    match next {
                        Some((key, child)) => k < all.len() && key@ == all[k].0 && child.shape()
                            == all[k].1 && stream.remaining() == all.skip(k + 1),
                        None => k == all.len(),
                    },
                decreases all.len() - k,
            {
                let (key, child) = next.unwrap();
                proof {
                    lemma_entries_size_item(all, k);
                    assert(all.take(k + 1).drop_last() =~= all.take(k));
                    assert(all.take(k + 1).last() == all[k]);
                }
                out.push(',');
                write_quoted(key, out);
                out.push(':');
                write_fragment(child, out);
                proof {
                    assert(out@ =~= start + seq!['{'] + entries_text(all.take(k + 1)));
                    k = k + 1;
                }
                next = stream.next();
                proof {
                    if next is Some {
                        assert(all.skip(k)[0] == all[k]);
                        assert(all.skip(k).drop_first() =~= all.skip(k + 1));
                    } else {
                        assert(all.skip(k).len() == 0);
                    }
                }
            }
            assert(all.take(k) =~= all);
            out.push('}');
            assert(out@ =~= start + (seq!['{'] + entries_text(all) + seq!['}']));
        },
    }
}

/// The text of a value that can be encoded.
pub fn to_string<T: Serialize>(value: &T) -> (text: String)
    ensures
        text@ == json_text(value.encoded_shape()),
{
    let mut out = String::new();
    write_fragment(value.begin(), &mut out);
    assert(out@ =~= json_text(value.encoded_shape()));
    out
}

/// Encodes a value and keeps the text as a passthrough value.
pub fn to_raw_value<T: Serialize>(value: &T) -> (r: Result<Box<RawValue>, Error>)
    ensures
        r matches Ok(raw) && raw@ == json_text(value.encoded_shape()),
{
    Ok(RawValue::from_string(to_string(value)))
}

} // verus!
