//! Canonical JSON values and their textual form.
//!
//! All hashes and signed messages in this crate commit to the canonical
//! pretty-printed JSON encoding of a value: object keys in sorted order,
//! two-space indentation, a space after each key's colon, and each item on a
//! line of its own.  The canonical form of a value is defined here as a spec
//! function, and the writer is verified to produce exactly that form.
//!
//! Strings are carried as byte strings (UTF-8 is not interpreted); numbers
//! are unsigned 64-bit integers, which covers every number the protocol
//! writes (timestamps, payload bytes, priority levels, counts).

use vstd::prelude::*;

verus! {

/// Quotation mark.
pub const B_QUOTE: u8 = 34;

/// Backslash.
pub const B_BACKSLASH: u8 = 92;

/// Newline.
pub const B_NEWLINE: u8 = 10;

/// Space.
pub const B_SPACE: u8 = 32;

/// Comma.
pub const B_COMMA: u8 = 44;

/// Colon.
pub const B_COLON: u8 = 58;

/// Opening bracket.
pub const B_LBRACKET: u8 = 91;

/// Closing bracket.
pub const B_RBRACKET: u8 = 93;

/// Opening brace.
pub const B_LBRACE: u8 = 123;

/// Closing brace.
pub const B_RBRACE: u8 = 125;

/// The mathematical model of a JSON value.
pub enum JsonV {
    Null,
    Bool(bool),
    UInt(u64),
    Text(Seq<u8>),
    Arr(Seq<JsonV>),
    Obj(Seq<(Seq<u8>, JsonV)>),
}

/// A JSON value as built and written by executable code.
pub enum JsonValue {
    Null,
    Bool(bool),
    UInt(u64),
    Text(Vec<u8>),
    Arr(Vec<JsonValue>),
    Obj(Vec<(Vec<u8>, JsonValue)>),
}

/// The model of an executable JSON value.
pub open spec fn json_view(v: JsonValue) -> JsonV
    decreases v,
{
    match v {
        JsonValue::Null => JsonV::Null,
        JsonValue::Bool(b) => JsonV::Bool(b),
        JsonValue::UInt(n) => JsonV::UInt(n),
        JsonValue::Text(s) => JsonV::Text(s@),
        JsonValue::Arr(items) => JsonV::Arr(json_view_items(items@)),
        JsonValue::Obj(entries) => JsonV::Obj(json_view_entries(entries@)),
    }
}

/// The models of a sequence of executable JSON values.
pub open spec fn json_view_items(items: Seq<JsonValue>) -> Seq<JsonV>
    decreases items,
{
    if items.len() == 0 {
        Seq::empty()
    } else {
        json_view_items(items.drop_last()).push(json_view(items.last()))
    }
}

/// The models of a sequence of executable key/value entries.
pub open spec fn json_view_entries(entries: Seq<(Vec<u8>, JsonValue)>) -> Seq<(Seq<u8>, JsonV)>
    decreases entries,
{
    if entries.len() == 0 {
        Seq::empty()
    } else {
        json_view_entries(entries.drop_last()).push(
            (entries.last().0@, json_view(entries.last().1)),
        )
    }
}

impl View for JsonValue {
    type V = JsonV;

    open spec fn view(&self) -> JsonV {
        json_view(*self)
    }
}

/// `a` comes strictly before `b` in byte-lexicographic order.
pub open spec fn lex_lt(a: Seq<u8>, b: Seq<u8>) -> bool
    decreases a.len(),
{
    if b.len() == 0 {
        false
    } else if a.len() == 0 {
        true
    } else if a.first() != b.first() {
        a.first() < b.first()
    } else {
        lex_lt(a.drop_first(), b.drop_first())
    }
}

/// A canonical value: every object's keys are strictly increasing, at every
/// depth.  Strictly increasing keys are in particular unique.
pub open spec fn json_sorted(v: JsonV) -> bool
    decreases v,
{
    match v {
        JsonV::Null => true,
        JsonV::Bool(_) => true,
        JsonV::UInt(_) => true,
        JsonV::Text(_) => true,
        JsonV::Arr(items) => forall|i: int|
            0 <= i < items.len() ==> json_sorted(#[trigger] items[i]),
        JsonV::Obj(entries) => (forall|i: int|
            0 <= i < entries.len() ==> json_sorted(#[trigger] entries[i].1)) && (forall|i: int|
            0 <= i < entries.len() - 1 ==> lex_lt(
                #[trigger] entries[i].0,
                entries[i + 1].0,
            )),
    }
}

/// The nesting height of a value: 1 for a leaf, one more than the tallest
/// child otherwise.  It bounds the indentation depth the writer can reach.
pub open spec fn json_height(v: JsonV) -> nat
    decreases v,
{
    match v {
        JsonV::Null => 1,
        JsonV::Bool(_) => 1,
        JsonV::UInt(_) => 1,
        JsonV::Text(_) => 1,
        JsonV::Arr(items) => 1 + items_height(items),
        JsonV::Obj(entries) => 1 + entries_height(entries),
    }
}

/// The tallest height among a sequence of values.
pub open spec fn items_height(items: Seq<JsonV>) -> nat
    decreases items,
{
    if items.len() == 0 {
        0
    } else {
        let rest = items_height(items.drop_last());
        let last = json_height(items.last());
        if rest < last {
            last
        } else {
            rest
        }
    }
}

/// The tallest height among an object's entry values.
pub open spec fn entries_height(entries: Seq<(Seq<u8>, JsonV)>) -> nat
    decreases entries,
{
    if entries.len() == 0 {
        0
    } else {
        let rest = entries_height(entries.drop_last());
        let last = json_height(entries.last().1);
        if rest < last {
            last
        } else {
            rest
        }
    }
}

/// Every item's height is at most the sequence's height.
pub proof fn lemma_items_height(items: Seq<JsonV>, i: int)
    requires
        0 <= i < items.len(),
    ensures
        json_height(items[i]) <= items_height(items),
    decreases items,
{
    if i == items.len() - 1 {
    } else {
        lemma_items_height(items.drop_last(), i);
        assert(items.drop_last()[i] == items[i]);
    }
}

/// Every entry value's height is at most the sequence's height.
pub proof fn lemma_entries_height(entries: Seq<(Seq<u8>, JsonV)>, i: int)
    requires
        0 <= i < entries.len(),
    ensures
        json_height(entries[i].1) <= entries_height(entries),
    decreases entries,
{
    if i == entries.len() - 1 {
    } else {
        lemma_entries_height(entries.drop_last(), i);
        assert(entries.drop_last()[i] == entries[i]);
    }
}

/// The indentation for nesting depth `n`: two spaces per level.
pub open spec fn indent_bytes(n: nat) -> Seq<u8> {
    Seq::new(2 * n, |i: int| B_SPACE)
}

/// The decimal digits of `n`, most significant first.
pub open spec fn dec_of(n: nat) -> Seq<u8>
    decreases n,
{
    if n < 10 {
        seq![(48 + n) as u8]
    } else {
        dec_of(n / 10).push((48 + n % 10) as u8)
    }
}

/// A lowercase hexadecimal digit.
pub open spec fn hex_digit(n: nat) -> u8
    recommends
        n < 16,
{
    if n < 10 {
        (48 + n) as u8
    } else {
        (87 + n) as u8
    }
}

/// The escaped form of one string byte, following the conventional JSON
/// short escapes with `\u00xx` for the remaining control bytes.
pub open spec fn esc_byte(b: u8) -> Seq<u8> {
    if b == B_QUOTE {
        seq![B_BACKSLASH, B_QUOTE]
    } else if b == B_BACKSLASH {
        seq![B_BACKSLASH, B_BACKSLASH]
    } else if b == 8 {
        seq![B_BACKSLASH, 98u8]  // \b
    } else if b == 9 {
        seq![B_BACKSLASH, 116u8]  // \t
    } else if b == 10 {
        seq![B_BACKSLASH, 110u8]  // \n
    } else if b == 12 {
        seq![B_BACKSLASH, 102u8]  // \f
    } else if b == 13 {
        seq![B_BACKSLASH, 114u8]  // \r
    } else if b < 32 {
        seq![B_BACKSLASH, 117u8, 48u8, 48u8, hex_digit((b >> 4) as nat), hex_digit(
            (b & 15) as nat,
        )]
    } else {
        seq![b]
    }
}

/// The escaped form of a whole string, without the surrounding quotes.
pub open spec fn esc_seq(s: Seq<u8>) -> Seq<u8>
    decreases s,
{
    if s.len() == 0 {
        Seq::empty()
    } else {
        esc_seq(s.drop_last()) + esc_byte(s.last())
    }
}

/// A quoted, escaped JSON string.
pub open spec fn quoted(s: Seq<u8>) -> Seq<u8> {
    seq![B_QUOTE] + esc_seq(s) + seq![B_QUOTE]
}

/// The canonical text of a value at nesting depth `depth`.
///
/// The depth does not indent the value's own first byte (the caller has
/// already placed it); it fixes where nested lines and the closing bracket
/// are indented.
pub open spec fn json_canon(v: JsonV, depth: nat) -> Seq<u8>
    decreases v,
{
    match v {
        JsonV::Null => seq![110u8, 117u8, 108u8, 108u8],  // null
        JsonV::Bool(b) => if b {
            seq![116u8, 114u8, 117u8, 101u8]  // true
        } else {
            seq![102u8, 97u8, 108u8, 115u8, 101u8]  // false
        },
        JsonV::UInt(n) => dec_of(n as nat),
        JsonV::Text(s) => quoted(s),
        JsonV::Arr(items) => if items.len() == 0 {
            seq![B_LBRACKET, B_RBRACKET]
        } else {
            seq![B_LBRACKET] + items_canon(items, (depth + 1) as nat) + seq![B_NEWLINE]
                + indent_bytes(depth) + seq![B_RBRACKET]
        },
        JsonV::Obj(entries) => if entries.len() == 0 {
            seq![B_LBRACE, B_RBRACE]
        } else {
            seq![B_LBRACE] + entries_canon(entries, (depth + 1) as nat) + seq![B_NEWLINE]
                + indent_bytes(depth) + seq![B_RBRACE]
        },
    }
}

/// The item lines of a non-empty array: for each item a separator (a comma
/// for every item after the first), a newline, the indentation, and the
/// item's own text.  The final newline before the closing bracket is not
/// included.
pub open spec fn items_canon(items: Seq<JsonV>, depth: nat) -> Seq<u8>
    decreases items,
{
    if items.len() == 0 {
        Seq::empty()
    } else {
        items_canon(items.drop_last(), depth) + (if items.len() > 1 {
            seq![B_COMMA]
        } else {
            Seq::empty()
        }) + seq![B_NEWLINE] + indent_bytes(depth) + json_canon(items.last(), depth)
    }
}

/// The entry lines of a non-empty object, formed as for arrays with
/// `"key": value` on each line.
pub open spec fn entries_canon(entries: Seq<(Seq<u8>, JsonV)>, depth: nat) -> Seq<u8>
    decreases entries,
{
    if entries.len() == 0 {
        Seq::empty()
    } else {
        entries_canon(entries.drop_last(), depth) + (if entries.len() > 1 {
            seq![B_COMMA]
        } else {
            Seq::empty()
        }) + seq![B_NEWLINE] + indent_bytes(depth) + quoted(entries.last().0) + seq![
            B_COLON,
            B_SPACE,
        ] + json_canon(entries.last().1, depth)
    }
}

/// Writes `2 * n` spaces.
fn write_indent(n: usize, out: &mut Vec<u8>)
    ensures
        final(out)@ == old(out)@ + indent_bytes(n as nat),
{
    let mut i: usize = 0;
    while i < n
        invariant
            i <= n,
            out@ == old(out)@ + indent_bytes(i as nat),
        decreases n - i,
    {
        out.push(B_SPACE);
        out.push(B_SPACE);
        proof {
            assert(indent_bytes((i + 1) as nat) =~= indent_bytes(i as nat) + seq![
                B_SPACE,
                B_SPACE,
            ]);
        }
        i = i + 1;
    }
}

/// Writes `n` in decimal.
fn write_u64(n: u64, out: &mut Vec<u8>)
    ensures
        final(out)@ == old(out)@ + dec_of(n as nat),
    decreases n,
{
    if n < 10 {
        out.push((48 + n) as u8);
    } else {
        write_u64(n / 10, out);
        out.push((48 + (n % 10)) as u8);
    }
}

/// Writes the escaped form of `s`, without quotes.
fn write_escaped(s: &Vec<u8>, out: &mut Vec<u8>)
    ensures
        final(out)@ == old(out)@ + esc_seq(s@),
{
    let mut i: usize = 0;
    while i < s.len()
        invariant
            i <= s@.len(),
            out@ == old(out)@ + esc_seq(s@.take(i as int)),
        decreases s@.len() - i,
    {
        let b = s[i];
        if b == B_QUOTE {
            out.push(B_BACKSLASH);
            out.push(B_QUOTE);
        } else if b == B_BACKSLASH {
            out.push(B_BACKSLASH);
            out.push(B_BACKSLASH);
        } else if b == 8 {
            out.push(B_BACKSLASH);
            out.push(98);
        } else if b == 9 {
            out.push(B_BACKSLASH);
            out.push(116);
        } else if b == 10 {
            out.push(B_BACKSLASH);
            out.push(110);
        } else if b == 12 {
            out.push(B_BACKSLASH);
            out.push(102);
        } else if b == 13 {
            out.push(B_BACKSLASH);
            out.push(114);
        } else if b < 32 {
            out.push(B_BACKSLASH);
            out.push(117);
            out.push(48);
            out.push(48);
            let hi = b >> 4;
            let lo = b & 15;
            proof {
                assert(b >> 4 < 16 && b & 15 < 16) by (bit_vector);
            }
            out.push(if hi < 10 { 48 + hi } else { 87 + hi });
            out.push(if lo < 10 { 48 + lo } else { 87 + lo });
        } else {
            out.push(b);
        }
        proof {
            assert(s@.take(i + 1).drop_last() =~= s@.take(i as int));
            assert(s@.take(i + 1).last() == s@[i as int]);
            assert(esc_seq(s@.take(i + 1)) == esc_seq(s@.take(i as int)) + esc_byte(s@[i as int]));
        }
        i = i + 1;
    }
    proof {
        assert(s@.take(s@.len() as int) =~= s@);
    }
}

/// Writes the quoted, escaped form of `s`.
fn write_quoted(s: &Vec<u8>, out: &mut Vec<u8>)
    ensures
        final(out)@ == old(out)@ + quoted(s@),
{
    out.push(B_QUOTE);
    write_escaped(s, out);
    out.push(B_QUOTE);
    proof {
        assert(out@ =~= old(out)@ + quoted(s@));
    }
}

/// Writes the canonical text of `v` at nesting depth `depth`.
pub fn write_json(v: &JsonValue, depth: usize, out: &mut Vec<u8>)
    requires
        depth + json_height(v@) <= usize::MAX,
    ensures
        final(out)@ == old(out)@ + json_canon(v@, depth as nat),
    decreases *v,
{
    match v {
        JsonValue::Null => {
            out.push(110);
            out.push(117);
            out.push(108);
            out.push(108);
            proof {
                assert(out@ =~= old(out)@ + json_canon(v@, depth as nat));
            }
        },
        JsonValue::Bool(b) => {
            if *b {
                out.push(116);
                out.push(114);
                out.push(117);
                out.push(101);
            } else {
                out.push(102);
                out.push(97);
                out.push(108);
                out.push(115);
                out.push(101);
            }
            proof {
                assert(out@ =~= old(out)@ + json_canon(v@, depth as nat));
            }
        },
        JsonValue::UInt(n) => {
            write_u64(*n, out);
        },
        JsonValue::Text(s) => {
            write_quoted(s, out);
        },
        JsonValue::Arr(items) => {
            out.push(B_LBRACKET);
            if items.len() == 0 {
                out.push(B_RBRACKET);
                proof {
                    assert(json_view_items(items@) =~= Seq::<JsonV>::empty());
                    assert(out@ =~= old(out)@ + json_canon(v@, depth as nat));
                }
            } else {
                proof {
                    lemma_json_view_items_len(items@);
                    assert(decreases_to!(*v => *items));
                }
                write_items(items, depth + 1, out);
                out.push(B_NEWLINE);
                write_indent(depth, out);
                out.push(B_RBRACKET);
                proof {
                    assert(out@ =~= old(out)@ + json_canon(v@, depth as nat));
                }
            }
        },
        JsonValue::Obj(entries) => {
            out.push(B_LBRACE);
            if entries.len() == 0 {
                out.push(B_RBRACE);
                proof {
                    assert(json_view_entries(entries@) =~= Seq::<(Seq<u8>, JsonV)>::empty());
                    assert(out@ =~= old(out)@ + json_canon(v@, depth as nat));
                }
            } else {
                proof {
                    lemma_json_view_entries_len(entries@);
                    assert(decreases_to!(*v => *entries));
                }
                write_entries(entries, depth + 1, out);
                out.push(B_NEWLINE);
                write_indent(depth, out);
                out.push(B_RBRACE);
                proof {
                    assert(out@ =~= old(out)@ + json_canon(v@, depth as nat));
                }
            }
        },
    }
}

/// Writes the item lines of an array body at nesting depth `depth`.
fn write_items(items: &Vec<JsonValue>, depth: usize, out: &mut Vec<u8>)
    requires
        depth + items_height(json_view_items(items@)) <= usize::MAX,
    ensures
        final(out)@ == old(out)@ + items_canon(json_view_items(items@), depth as nat),
    decreases *items,
{
    let mut i: usize = 0;
    while i < items.len()
        invariant
            i <= items@.len(),
            depth + items_height(json_view_items(items@)) <= usize::MAX,
            out@ == old(out)@ + items_canon(json_view_items(items@.take(i as int)), depth as nat),
        decreases items@.len() - i,
    {
        if i > 0 {
            out.push(B_COMMA);
        }
        out.push(B_NEWLINE);
        write_indent(depth, out);
        proof {
            broadcast use vstd::std_specs::vec::group_vec_axioms;

            lemma_json_view_items_index(items@, i as int);
            lemma_items_height(json_view_items(items@), i as int);
            assert(decreases_to!(*items => items@[i as int]));
        }
        write_json(&items[i], depth, out);
        proof {
            let s = items@.take(i + 1);
            assert(s.drop_last() =~= items@.take(i as int));
            assert(s.last() == items@[i as int]);
            let pre = json_view_items(items@.take(i as int));
            let cur = json_view_items(s);
            assert(cur == pre.push(json_view(items@[i as int])));
            assert(cur.drop_last() =~= pre);
            assert(cur.len() == pre.len() + 1);
            assert(pre.len() == i) by {
                lemma_json_view_items_len(items@.take(i as int));
            }
            assert(out@ =~= old(out)@ + items_canon(cur, depth as nat));
        }
        i = i + 1;
    }
    proof {
        assert(items@.take(items@.len() as int) =~= items@);
    }
}

/// Writes the entry lines of an object body at nesting depth `depth`.
fn write_entries(entries: &Vec<(Vec<u8>, JsonValue)>, depth: usize, out: &mut Vec<u8>)
    requires
        depth + entries_height(json_view_entries(entries@)) <= usize::MAX,
    ensures
        final(out)@ == old(out)@ + entries_canon(json_view_entries(entries@), depth as nat),
    decreases *entries,
{
    let mut i: usize = 0;
    while i < entries.len()
        invariant
            i <= entries@.len(),
            depth + entries_height(json_view_entries(entries@)) <= usize::MAX,
            out@ == old(out)@ + entries_canon(
                json_view_entries(entries@.take(i as int)),
                depth as nat,
            ),
        decreases entries@.len() - i,
    {
        if i > 0 {
            out.push(B_COMMA);
        }
        out.push(B_NEWLINE);
        write_indent(depth, out);
        write_quoted(&entries[i].0, out);
        out.push(B_COLON);
        out.push(B_SPACE);
        proof {
            broadcast use vstd::std_specs::vec::group_vec_axioms;

            lemma_json_view_entries_index(entries@, i as int);
            lemma_entries_height(json_view_entries(entries@), i as int);
            let ghost pair = entries@[i as int];
            assert(decreases_to!(*entries => pair));
            assert(decreases_to!(pair => pair.1));
        }
        write_json(&entries[i].1, depth, out);
        proof {
            let s = entries@.take(i + 1);
            assert(s.drop_last() =~= entries@.take(i as int));
            assert(s.last() == entries@[i as int]);
            let pre = json_view_entries(entries@.take(i as int));
            let cur = json_view_entries(s);
            assert(cur == pre.push((entries@[i as int].0@, json_view(entries@[i as int].1))));
            assert(cur.drop_last() =~= pre);
            assert(cur.len() == pre.len() + 1);
            assert(pre.len() == i) by {
                lemma_json_view_entries_len(entries@.take(i as int));
            }
            assert(out@ =~= old(out)@ + entries_canon(cur, depth as nat));
        }
        i = i + 1;
    }
    proof {
        assert(entries@.take(entries@.len() as int) =~= entries@);
    }
}

/// A sequence of values has as many models as values.
pub proof fn lemma_json_view_items_len(items: Seq<JsonValue>)
    ensures
        json_view_items(items).len() == items.len(),
    decreases items,
{
    if items.len() > 0 {
        lemma_json_view_items_len(items.drop_last());
    }
}

/// The model of a sequence of values is taken value by value.
pub proof fn lemma_json_view_items_index(items: Seq<JsonValue>, i: int)
    requires
        0 <= i < items.len(),
    ensures
        json_view_items(items).len() == items.len(),
        json_view_items(items)[i] == json_view(items[i]),
    decreases items,
{
    lemma_json_view_items_len(items);
    if i < items.len() - 1 {
        lemma_json_view_items_index(items.drop_last(), i);
        assert(items.drop_last()[i] == items[i]);
    }
}

/// The model of a sequence of entries is taken entry by entry.
pub proof fn lemma_json_view_entries_index(entries: Seq<(Vec<u8>, JsonValue)>, i: int)
    requires
        0 <= i < entries.len(),
    ensures
        json_view_entries(entries).len() == entries.len(),
        json_view_entries(entries)[i] == (entries[i].0@, json_view(entries[i].1)),
    decreases entries,
{
    lemma_json_view_entries_len(entries);
    if i < entries.len() - 1 {
        lemma_json_view_entries_index(entries.drop_last(), i);
        assert(entries.drop_last()[i] == entries[i]);
    }
}

/// A sequence of entries has as many models as entries.
pub proof fn lemma_json_view_entries_len(entries: Seq<(Vec<u8>, JsonValue)>)
    ensures
        json_view_entries(entries).len() == entries.len(),
    decreases entries,
{
    if entries.len() > 0 {
        lemma_json_view_entries_len(entries.drop_last());
    }
}

/// A byte string as a JSON array of numbers.
pub open spec fn bytes_json(b: Seq<u8>) -> JsonV {
    JsonV::Arr(b.map_values(|x: u8| JsonV::UInt(x as u64)))
}

/// Builds the JSON array of numbers holding the bytes of `b`.
pub fn json_bytes_array(b: &Vec<u8>) -> (r: JsonValue)
    ensures
        r@ == bytes_json(b@),
{
    let mut items: Vec<JsonValue> = Vec::new();
    let mut i: usize = 0;
    while i < b.len()
        invariant
            i <= b@.len(),
            json_view_items(items@) == b@.take(i as int).map_values(
                |x: u8| JsonV::UInt(x as u64),
            ),
            items@.len() == i,
        decreases b@.len() - i,
    {
        let ghost before = items@;
        items.push(JsonValue::UInt(b[i] as u64));
        proof {
            assert(items@.drop_last() =~= before);
            assert(json_view_items(items@) == json_view_items(before).push(
                json_view(items@.last()),
            ));
            assert(b@.take(i + 1).map_values(|x: u8| JsonV::UInt(x as u64)) =~= b@.take(
                i as int,
            ).map_values(|x: u8| JsonV::UInt(x as u64)).push(JsonV::UInt(b@[i as int] as u64)));
        }
        i = i + 1;
    }
    proof {
        assert(b@.take(b@.len() as int) =~= b@);
    }
    JsonValue::Arr(items)
}

/// The height of an array of numbers is at most 2.
pub proof fn lemma_bytes_json_height(b: Seq<u8>)
    ensures
        json_height(bytes_json(b)) <= 2,
{
    lemma_uint_items_height(b.map_values(|x: u8| JsonV::UInt(x as u64)));
}

/// A sequence of leaves has height at most 1.
proof fn lemma_uint_items_height(items: Seq<JsonV>)
    requires
        forall|i: int| 0 <= i < items.len() ==> (#[trigger] items[i]) is UInt,
    ensures
        items_height(items) <= 1,
    decreases items,
{
    if items.len() > 0 {
        assert forall|i: int| 0 <= i < items.drop_last().len() implies (#[trigger] items.drop_last()[
            i
        ]) is UInt by {
            assert(items.drop_last()[i] == items[i]);
        }
        lemma_uint_items_height(items.drop_last());
        assert(items_height(items.drop_last()) <= 1);
        assert(items.last() == items[items.len() - 1]);
        assert(items[items.len() - 1] is UInt);
        assert(json_height(items.last()) == 1);
        assert(items_height(items) <= 1);
    }
}

/// An owned deep copy of a JSON value, with the same model.
pub fn duplicate_json(v: &JsonValue) -> (r: JsonValue)
    ensures
        r@ == v@,
    decreases *v,
{
    match v {
        JsonValue::Null => JsonValue::Null,
        JsonValue::Bool(b) => JsonValue::Bool(*b),
        JsonValue::UInt(n) => JsonValue::UInt(*n),
        JsonValue::Text(s) => JsonValue::Text(crate::crypto::copy_bytes(s)),
        JsonValue::Arr(items) => {
            proof {
                assert(decreases_to!(*v => *items));
            }
            JsonValue::Arr(duplicate_items(items))
        },
        JsonValue::Obj(entries) => {
            proof {
                assert(decreases_to!(*v => *entries));
            }
            JsonValue::Obj(duplicate_entries(entries))
        },
    }
}

/// An owned deep copy of a sequence of values.
fn duplicate_items(items: &Vec<JsonValue>) -> (r: Vec<JsonValue>)
    ensures
        json_view_items(r@) == json_view_items(items@),
        r@.len() == items@.len(),
    decreases *items,
{
    let mut out: Vec<JsonValue> = Vec::new();
    let mut i: usize = 0;
    while i < items.len()
        invariant
            i <= items@.len(),
            out@.len() == i,
            json_view_items(out@) == json_view_items(items@.take(i as int)),
        decreases items@.len() - i,
    {
        proof {
            broadcast use vstd::std_specs::vec::group_vec_axioms;

            assert(decreases_to!(*items => items@[i as int]));
        }
        let copied = duplicate_json(&items[i]);
        let ghost before = out@;
        out.push(copied);
        proof {
            assert(out@.drop_last() =~= before);
            assert(json_view_items(out@) == json_view_items(before).push(
                json_view(out@.last()),
            ));
            let s = items@.take(i + 1);
            assert(s.drop_last() =~= items@.take(i as int));
            assert(s.last() == items@[i as int]);
            assert(json_view_items(s) == json_view_items(items@.take(i as int)).push(
                json_view(items@[i as int]),
            ));
        }
        i = i + 1;
    }
    proof {
        assert(items@.take(items@.len() as int) =~= items@);
    }
    out
}

/// An owned deep copy of a sequence of entries.
fn duplicate_entries(entries: &Vec<(Vec<u8>, JsonValue)>) -> (r: Vec<(Vec<u8>, JsonValue)>)
    ensures
        json_view_entries(r@) == json_view_entries(entries@),
        r@.len() == entries@.len(),
    decreases *entries,
{
    let mut out: Vec<(Vec<u8>, JsonValue)> = Vec::new();
    let mut i: usize = 0;
    while i < entries.len()
        invariant
            i <= entries@.len(),
            out@.len() == i,
            json_view_entries(out@) == json_view_entries(entries@.take(i as int)),
        decreases entries@.len() - i,
    {
        proof {
            broadcast use vstd::std_specs::vec::group_vec_axioms;

            let ghost pair = entries@[i as int];
            assert(decreases_to!(*entries => pair));
            assert(decreases_to!(pair => pair.1));
        }
        let copied = duplicate_json(&entries[i].1);
        let key = crate::crypto::copy_bytes(&entries[i].0);
        let ghost before = out@;
        out.push((key, copied));
        proof {
            assert(out@.drop_last() =~= before);
            assert(json_view_entries(out@) == json_view_entries(before).push(
                (out@.last().0@, json_view(out@.last().1)),
            ));
            let s = entries@.take(i + 1);
            assert(s.drop_last() =~= entries@.take(i as int));
            assert(s.last() == entries@[i as int]);
            assert(json_view_entries(s) == json_view_entries(entries@.take(i as int)).push(
                (entries@[i as int].0@, json_view(entries@[i as int].1)),
            ));
        }
        i = i + 1;
    }
    proof {
        assert(entries@.take(entries@.len() as int) =~= entries@);
    }
    out
}

/// Whether two JSON values have the same model.
pub fn json_eq(a: &JsonValue, b: &JsonValue) -> (r: bool)
    ensures
        r <==> a@ == b@,
    decreases *a,
{
    match (a, b) {
        (JsonValue::Null, JsonValue::Null) => true,
        (JsonValue::Bool(x), JsonValue::Bool(y)) => x == y,
        (JsonValue::UInt(x), JsonValue::UInt(y)) => x == y,
        (JsonValue::Text(x), JsonValue::Text(y)) => crate::crypto::bytes_eq(x, y),
        (JsonValue::Arr(xs), JsonValue::Arr(ys)) => {
            proof {
                assert(decreases_to!(*a => *xs));
            }
            json_eq_items(xs, ys)
        },
        (JsonValue::Obj(xs), JsonValue::Obj(ys)) => {
            proof {
                assert(decreases_to!(*a => *xs));
            }
            json_eq_entries(xs, ys)
        },
        _ => false,
    }
}

/// Whether two value sequences have the same models.
fn json_eq_items(xs: &Vec<JsonValue>, ys: &Vec<JsonValue>) -> (r: bool)
    ensures
        r <==> json_view_items(xs@) == json_view_items(ys@),
    decreases *xs,
{
    proof {
        lemma_json_view_items_len(xs@);
        lemma_json_view_items_len(ys@);
    }
    if xs.len() != ys.len() {
        return false;
    }
    let mut i: usize = 0;
    while i < xs.len()
        invariant
            i <= xs@.len(),
            xs@.len() == ys@.len(),
            json_view_items(xs@).len() == xs@.len(),
            json_view_items(ys@).len() == ys@.len(),
            forall|k: int|
                0 <= k < i ==> json_view_items(xs@)[k] == json_view_items(ys@)[k],
        decreases xs@.len() - i,
    {
        proof {
            broadcast use vstd::std_specs::vec::group_vec_axioms;

            lemma_json_view_items_index(xs@, i as int);
            lemma_json_view_items_index(ys@, i as int);
            assert(decreases_to!(*xs => xs@[i as int]));
        }
        if !json_eq(&xs[i], &ys[i]) {
            proof {
                assert(json_view_items(xs@)[i as int] != json_view_items(ys@)[i as int]);
            }
            return false;
        }
        i = i + 1;
    }
    proof {
        assert(json_view_items(xs@) =~= json_view_items(ys@));
    }
    true
}

/// Whether two entry sequences have the same models.
fn json_eq_entries(xs: &Vec<(Vec<u8>, JsonValue)>, ys: &Vec<(Vec<u8>, JsonValue)>) -> (r: bool)
    ensures
        r <==> json_view_entries(xs@) == json_view_entries(ys@),
    decreases *xs,
{
    proof {
        lemma_json_view_entries_len(xs@);
        lemma_json_view_entries_len(ys@);
    }
    if xs.len() != ys.len() {
        return false;
    }
    let mut i: usize = 0;
    while i < xs.len()
        invariant
            i <= xs@.len(),
            xs@.len() == ys@.len(),
            json_view_entries(xs@).len() == xs@.len(),
            json_view_entries(ys@).len() == ys@.len(),
            forall|k: int|
                0 <= k < i ==> json_view_entries(xs@)[k] == json_view_entries(ys@)[k],
        decreases xs@.len() - i,
    {
        proof {
            broadcast use vstd::std_specs::vec::group_vec_axioms;

            lemma_json_view_entries_index(xs@, i as int);
            lemma_json_view_entries_index(ys@, i as int);
            let ghost pair = xs@[i as int];
            assert(decreases_to!(*xs => pair));
            assert(decreases_to!(pair => pair.1));
        }
        if !crate::crypto::bytes_eq(&xs[i].0, &ys[i].0) {
            proof {
                assert(json_view_entries(xs@)[i as int].0 != json_view_entries(ys@)[i as int].0);
            }
            return false;
        }
        if !json_eq(&xs[i].1, &ys[i].1) {
            proof {
                assert(json_view_entries(xs@)[i as int].1 != json_view_entries(ys@)[i as int].1);
            }
            return false;
        }
        i = i + 1;
    }
    proof {
        assert(json_view_entries(xs@) =~= json_view_entries(ys@));
    }
    true
}

/// Values whose entry models agree have heights bounded alike: the height of
/// an object's entries is at most `b` when every entry value's height is.
pub proof fn lemma_entries_height_bound(es: Seq<(Seq<u8>, JsonV)>, b: nat)
    requires
        forall|i: int| 0 <= i < es.len() ==> json_height(#[trigger] es[i].1) <= b,
    ensures
        entries_height(es) <= b,
    decreases es,
{
    if es.len() > 0 {
        assert(forall|i: int|
            0 <= i < es.drop_last().len() ==> #[trigger] es.drop_last()[i] == es[i]);
        lemma_entries_height_bound(es.drop_last(), b);
    }
}

/// The canonical text of `v` as a fresh byte string, at depth zero.
pub fn json_to_bytes(v: &JsonValue) -> (r: Vec<u8>)
    requires
        json_height(v@) <= usize::MAX,
    ensures
        r@ == json_canon(v@, 0),
{
    let mut out: Vec<u8> = Vec::new();
    write_json(v, 0, &mut out);
    out
}

} // verus!
