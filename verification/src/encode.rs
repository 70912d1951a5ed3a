//! The encoder: from a value to its bytes in the wire format.

use vstd::prelude::*;
use crate::codes;
use crate::leaf::{bytes_encoding, int_encoding, list_header, str_encoding, str_writable};
use crate::leaf::{write_bytes, write_int, write_list_header, write_str};
use crate::value::{entries_view, list_view, type_key, ArrayKind, Value, ValueModel};
use crate::value::{Component, ComponentModel};

verus! {

/// The four bytes of `bits`, most significant first.
pub open spec fn be32(bits: u32) -> Seq<u8> {
    seq![(bits >> 24) as u8, (bits >> 16) as u8, (bits >> 8) as u8, bits as u8]
}

/// The eight bytes of `bits`, most significant first.
pub open spec fn be64(bits: u64) -> Seq<u8> {
    seq![
        (bits >> 56) as u8,
        (bits >> 48) as u8,
        (bits >> 40) as u8,
        (bits >> 32) as u8,
        (bits >> 24) as u8,
        (bits >> 16) as u8,
        (bits >> 8) as u8,
        bits as u8,
    ]
}

/// The bit pattern of the double 1.0.
pub const DOUBLE_ONE_BITS: u64 = 0x3FF0_0000_0000_0000;

/// The bit pattern of the double -0.0.
pub const DOUBLE_MINUS_ZERO_BITS: u64 = 0x8000_0000_0000_0000;

/// A double on the wire: zero (of either sign) and one have codes of their
/// own, every other double follows the double code in eight bytes.
pub open spec fn double_wire(bits: u64) -> Seq<u8> {
    if bits == 0 || bits == DOUBLE_MINUS_ZERO_BITS {
        seq![codes::DOUBLE_0]
    } else if bits == DOUBLE_ONE_BITS {
        seq![codes::DOUBLE_1]
    } else {
        seq![codes::DOUBLE] + be64(bits)
    }
}

/// The code of a typed array of the kind `kind`.
pub open spec fn array_code(kind: ArrayKind) -> u8 {
    match kind {
        ArrayKind::Long => codes::LONG_ARRAY,
        ArrayKind::Double => codes::DOUBLE_ARRAY,
        ArrayKind::Boolean => codes::BOOLEAN_ARRAY,
        ArrayKind::Int => codes::INT_ARRAY,
        ArrayKind::Float => codes::FLOAT_ARRAY,
    }
}

/// The code of a typed array of the kind `kind`.
pub fn code_of_array(kind: ArrayKind) -> (c: u8)
    ensures
        c == array_code(kind),
{
    match kind {
        ArrayKind::Long => codes::LONG_ARRAY,
        ArrayKind::Double => codes::DOUBLE_ARRAY,
        ArrayKind::Boolean => codes::BOOLEAN_ARRAY,
        ArrayKind::Int => codes::INT_ARRAY,
        ArrayKind::Float => codes::FLOAT_ARRAY,
    }
}

/// The bytes of a component of a keyword or of a symbol: the null code; a
/// string; the code that puts into the cache, and a string; or the code of a
/// place in the cache.
pub open spec fn component_wire(c: ComponentModel) -> Seq<u8> {
    match c {
        ComponentModel::Null => seq![codes::NULL],
        ComponentModel::Plain(s) => str_encoding(s),
        ComponentModel::Put(s) => seq![codes::PUT_CACHE] + str_encoding(s),
        ComponentModel::Ref(i) => seq![(codes::CACHED + i % 32) as u8],
    }
}

/// Whether a component can be written: its string is short enough for the
/// string writer.
pub open spec fn component_writable(c: ComponentModel) -> bool {
    match c {
        ComponentModel::Plain(s) => str_writable(s),
        ComponentModel::Put(s) => str_writable(s),
        _ => true,
    }
}

/// The bytes of a value in the wire format.
///
/// A list is its header and its items in order. A mapping is the map code, a
/// list header that counts keys and values, and the entries in order. A
/// tagged record is a map written as a closed list whose first entry maps
/// `"type"` to the tag. A value of a tagged kind is the code of the kind and
/// then its payload. A typed array is its code, the count of its items as an
/// integer, and the items in order. A keyword or a symbol is its code, its
/// namespace and its name.
pub open spec fn wire(v: ValueModel) -> Seq<u8>
    decreases v,
{
    match v {
        ValueModel::Null => seq![codes::NULL],
        ValueModel::Bool(b) => seq![if b { codes::TRUE } else { codes::FALSE }],
        ValueModel::Int(i) => int_encoding(i),
        ValueModel::Float(bits) => seq![codes::FLOAT] + be32(bits),
        ValueModel::Double(bits) => double_wire(bits),
        ValueModel::Str(s) => str_encoding(s),
        ValueModel::Bytes(b) => bytes_encoding(b),
        ValueModel::List(items) => list_header(items.len() as usize) + wire_all(items),
        ValueModel::Mapping(entries) => seq![codes::MAP] + list_header(
            (entries.len() as usize).wrapping_mul(2),
        ) + wire_entries(entries),
        ValueModel::Ext { tag, fields } => seq![codes::MAP, codes::BEGIN_CLOSED_LIST]
            + str_encoding(type_key()) + str_encoding(tag) + wire_entries(fields)
            + seq![codes::END_COLLECTION],
        ValueModel::SetOf(items) => seq![codes::SET] + list_header(items.len() as usize) + wire_all(
            items,
        ),
        ValueModel::Uuid(b) => seq![codes::UUID] + bytes_encoding(b),
        ValueModel::Regex(s) => seq![codes::REGEX] + str_encoding(s),
        ValueModel::Uri(s) => seq![codes::URI] + str_encoding(s),
        ValueModel::Inst(i) => seq![codes::INST] + int_encoding(i),
        ValueModel::Array { kind, items } => seq![array_code(kind)] + int_encoding(
            items.len() as usize as i64,
        ) + wire_all(items),
        ValueModel::Key { namespace, name } => seq![codes::KEY] + component_wire(namespace)
            + component_wire(name),
        ValueModel::Sym { namespace, name } => seq![codes::SYM] + component_wire(namespace)
            + component_wire(name),
    }
}

/// The bytes of a run of values, one after the other.
pub open spec fn wire_all(items: Seq<ValueModel>) -> Seq<u8>
    decreases items,
{
    if items.len() == 0 {
        Seq::empty()
    } else {
        wire_all(items.drop_last()) + wire(items.last())
    }
}

/// The bytes of a run of entries: each key, then its value.
pub open spec fn wire_entries(entries: Seq<(ValueModel, ValueModel)>) -> Seq<u8>
    decreases entries,
{
    if entries.len() == 0 {
        Seq::empty()
    } else {
        wire_entries(entries.drop_last()) + wire(entries.last().0) + wire(entries.last().1)
    }
}

/// Whether a value can be written: every string in it, the tags of its
/// records and their key included, is short enough for the string writer.
pub open spec fn writable(v: ValueModel) -> bool
    decreases v,
{
    match v {
        ValueModel::Str(s) => str_writable(s),
        ValueModel::List(items) => all_writable(items),
        ValueModel::Mapping(entries) => entries_writable(entries),
        ValueModel::Ext { tag, fields } => str_writable(type_key()) && str_writable(tag)
            && entries_writable(fields),
        ValueModel::SetOf(items) => all_writable(items),
        ValueModel::Array { kind, items } => all_writable(items),
        ValueModel::Key { namespace, name } => component_writable(namespace)
            && component_writable(name),
        ValueModel::Sym { namespace, name } => component_writable(namespace)
            && component_writable(name),
        ValueModel::Regex(s) => str_writable(s),
        ValueModel::Uri(s) => str_writable(s),
        _ => true,
    }
}

/// Whether every value of a run can be written.
pub open spec fn all_writable(items: Seq<ValueModel>) -> bool
    decreases items,
{
    if items.len() == 0 {
        true
    } else {
        all_writable(items.drop_last()) && writable(items.last())
    }
}

/// Whether every key and every value of a run of entries can be written.
pub open spec fn entries_writable(entries: Seq<(ValueModel, ValueModel)>) -> bool
    decreases entries,
{
    if entries.len() == 0 {
        true
    } else {
        entries_writable(entries.drop_last()) && writable(entries.last().0) && writable(
            entries.last().1,
        )
    }
}

/// Encodes a value, if it can be written. The bytes depend on the value
/// alone.
pub fn encode(v: &Value) -> (r: Option<Vec<u8>>)
    ensures
        match r {
            Some(out) => writable(v@) && out@ == wire(v@),
            None => !writable(v@),
        },
{
    let mut out: Vec<u8> = Vec::new();
    if encode_into(v, &mut out) {
        Some(out)
    } else {
        None
    }
}

/// Whether a string is short enough for the string writer.
fn fits_writer(s: &str) -> (r: bool)
    ensures
        r == str_writable(s@),
{
    s.len() <= usize::MAX / 3
}

/// Appends the bytes of `v` to `out`, if `v` can be written; says whether it
/// can. Where it cannot, what was appended is of no use.
pub fn encode_into(v: &Value, out: &mut Vec<u8>) -> (ok: bool)
    ensures
        ok == writable(v@),
        ok ==> final(out)@ == old(out)@ + wire(v@),
    decreases v,
{
    match v {
        Value::Null => {
            out.push(codes::NULL);
            true
        },
        Value::Bool(b) => {
            out.push(if *b { codes::TRUE } else { codes::FALSE });
            true
        },
        Value::Int(i) => {
            let leaf = write_int(*i);
            out.extend_from_slice(leaf.as_slice());
            true
        },
        Value::Float(bits) => {
            out.push(codes::FLOAT);
            push_be32(*bits, out);
            true
        },
        Value::Double(bits) => {
            if *bits == 0 || *bits == DOUBLE_MINUS_ZERO_BITS {
                out.push(codes::DOUBLE_0);
            } else if *bits == DOUBLE_ONE_BITS {
                out.push(codes::DOUBLE_1);
            } else {
                out.push(codes::DOUBLE);
                push_be64(*bits, out);
            }
            true
        },
        Value::Str(s) => {
            if !fits_writer(s.as_str()) {
                return false;
            }
            let leaf = write_str(s.as_str());
            out.extend_from_slice(leaf.as_slice());
            true
        },
        Value::Bytes(b) => {
            let leaf = write_bytes(b.as_slice());
            out.extend_from_slice(leaf.as_slice());
            true
        },
        Value::List(items) => {
            let header = write_list_header(items.len());
            out.extend_from_slice(header.as_slice());
            proof {
                assert(list_view(items@).len() == items.len());
            }
            encode_items(items, out)
        },
        Value::Mapping(entries) => {
            out.push(codes::MAP);
            let header = write_list_header(entries.len().wrapping_mul(2));
            out.extend_from_slice(header.as_slice());
            proof {
                assert(entries_view(entries@).len() == entries.len());
            }
            encode_entries(entries, out)
        },
        Value::Ext { tag, fields } => {
            if !fits_writer("type") || !fits_writer(tag.as_str()) {
                return false;
            }
            out.push(codes::MAP);
            out.push(codes::BEGIN_CLOSED_LIST);
            let key = write_str("type");
            out.extend_from_slice(key.as_slice());
            let leaf = write_str(tag.as_str());
            out.extend_from_slice(leaf.as_slice());
            if !encode_entries(fields, out) {
                return false;
            }
            out.push(codes::END_COLLECTION);
            true
        },
        Value::SetOf(items) => {
            out.push(codes::SET);
            let header = write_list_header(items.len());
            out.extend_from_slice(header.as_slice());
            proof {
                assert(list_view(items@).len() == items.len());
            }
            encode_items(items, out)
        },
        Value::Uuid(b) => {
            out.push(codes::UUID);
            let leaf = write_bytes(b.as_slice());
            out.extend_from_slice(leaf.as_slice());
            true
        },
        Value::Regex(s) => {
            if !fits_writer(s.as_str()) {
                return false;
            }
            out.push(codes::REGEX);
            let leaf = write_str(s.as_str());
            out.extend_from_slice(leaf.as_slice());
            true
        },
        Value::Uri(s) => {
            if !fits_writer(s.as_str()) {
                return false;
            }
            out.push(codes::URI);
            let leaf = write_str(s.as_str());
            out.extend_from_slice(leaf.as_slice());
            true
        },
        Value::Inst(i) => {
            out.push(codes::INST);
            let leaf = write_int(*i);
            out.extend_from_slice(leaf.as_slice());
            true
        },
        Value::Key { namespace, name } => {
            out.push(codes::KEY);
            encode_component(namespace, out) && encode_component(name, out)
        },
        Value::Sym { namespace, name } => {
            out.push(codes::SYM);
            encode_component(namespace, out) && encode_component(name, out)
        },
        Value::Array { kind, items } => {
            out.push(code_of_array(*kind));
            let count = write_int(items.len() as i64);
            out.extend_from_slice(count.as_slice());
            proof {
                assert(list_view(items@).len() == items.len());
            }
            encode_items(items, out)
        },
    }
}

/// Appends the bytes of a component to `out`, if it can be written; says
/// whether it can.
fn encode_component(c: &Component, out: &mut Vec<u8>) -> (ok: bool)
    ensures
        ok == component_writable(c@),
        ok ==> final(out)@ == old(out)@ + component_wire(c@),
{
    match c {
        Component::Null => {
            out.push(codes::NULL);
            true
        },
        Component::Plain(s) => {
            if !fits_writer(s.as_str()) {
                return false;
            }
            let leaf = write_str(s.as_str());
            out.extend_from_slice(leaf.as_slice());
            true
        },
        Component::Put(s) => {
            if !fits_writer(s.as_str()) {
                return false;
            }
            out.push(codes::PUT_CACHE);
            let leaf = write_str(s.as_str());
            out.extend_from_slice(leaf.as_slice());
            true
        },
        Component::Ref(i) => {
            out.push(codes::CACHED + *i % 32);
            true
        },
    }
}

/// Appends the bytes of each item of `items` to `out`, in order, as long as
/// the items can be written.
fn encode_items(items: &Vec<Value>, out: &mut Vec<u8>) -> (ok: bool)
    ensures
        ok == all_writable(list_view(items@)),
        ok ==> final(out)@ == old(out)@ + wire_all(list_view(items@)),
    decreases items,
{
    let mut i: usize = 0;
    while i < items.len()
        invariant
            i <= items.len(),
            all_writable(list_view(items@).take(i as int)),
            out@ == old(out)@ + wire_all(list_view(items@).take(i as int)),
        decreases items.len() - i,
    {
        let ok = encode_into(&items[i], out);
        proof {
            let all = list_view(items@);
            assert(all.take(i + 1).drop_last() =~= all.take(i as int));
            assert(all.take(i + 1).last() == items@[i as int]@);
        }
        if !ok {
            proof {
                if all_writable(list_view(items@)) {
                    lemma_all_writable_prefix(list_view(items@), i + 1);
                }
            }
            return false;
        }
        i += 1;
    }
    proof {
        assert(list_view(items@).take(items.len() as int) =~= list_view(items@));
    }
    true
}

/// Appends the bytes of each entry of `entries` to `out`, in order, as long
/// as the entries can be written.
fn encode_entries(entries: &Vec<(Value, Value)>, out: &mut Vec<u8>) -> (ok: bool)
    ensures
        ok == entries_writable(entries_view(entries@)),
        ok ==> final(out)@ == old(out)@ + wire_entries(entries_view(entries@)),
    decreases entries,
{
    let mut i: usize = 0;
    while i < entries.len()
        invariant
            i <= entries.len(),
            entries_writable(entries_view(entries@).take(i as int)),
            out@ == old(out)@ + wire_entries(entries_view(entries@).take(i as int)),
        decreases entries.len() - i,
    {
        let key_ok = encode_into(&entries[i].0, out);
        proof {
            let all = entries_view(entries@);
            assert(all.take(i + 1).drop_last() =~= all.take(i as int));
            assert(all.take(i + 1).last() == (entries@[i as int].0@, entries@[i as int].1@));
        }
        if !key_ok {
            proof {
                if entries_writable(entries_view(entries@)) {
                    lemma_entries_writable_prefix(entries_view(entries@), i + 1);
                }
            }
            return false;
        }
        let value_ok = encode_into(&entries[i].1, out);
        if !value_ok {
            proof {
                if entries_writable(entries_view(entries@)) {
                    lemma_entries_writable_prefix(entries_view(entries@), i + 1);
                }
            }
            return false;
        }
        i += 1;
    }
    proof {
        assert(entries_view(entries@).take(entries.len() as int) =~= entries_view(entries@));
    }
    true
}

/// Where a run can be written, so can each of its beginnings.
proof fn lemma_all_writable_prefix(items: Seq<ValueModel>, n: int)
    requires
        0 <= n <= items.len(),
        all_writable(items),
    ensures
        all_writable(items.take(n)),
    decreases items.len(),
{
    if n < items.len() {
        lemma_all_writable_prefix(items.drop_last(), n);
        assert(items.drop_last().take(n) =~= items.take(n));
    } else {
        assert(items.take(n) =~= items);
    }
}

/// Where a run of entries can be written, so can each of its beginnings.
proof fn lemma_entries_writable_prefix(entries: Seq<(ValueModel, ValueModel)>, n: int)
    requires
        0 <= n <= entries.len(),
        entries_writable(entries),
    ensures
        entries_writable(entries.take(n)),
    decreases entries.len(),
{
    if n < entries.len() {
        lemma_entries_writable_prefix(entries.drop_last(), n);
        assert(entries.drop_last().take(n) =~= entries.take(n));
    } else {
        assert(entries.take(n) =~= entries);
    }
}

/// Appends the four bytes of `bits`, most significant first.
fn push_be32(bits: u32, out: &mut Vec<u8>)
    ensures
        final(out)@ == old(out)@ + be32(bits),
{
    out.push((bits >> 24) as u8);
    out.push((bits >> 16) as u8);
    out.push((bits >> 8) as u8);
    out.push(bits as u8);
    assert(out@ =~= old(out)@ + be32(bits));
}

/// Appends the eight bytes of `bits`, most significant first.
fn push_be64(bits: u64, out: &mut Vec<u8>)
    ensures
        final(out)@ == old(out)@ + be64(bits),
{
    out.push((bits >> 56) as u8);
    out.push((bits >> 48) as u8);
    out.push((bits >> 40) as u8);
    out.push((bits >> 32) as u8);
    out.push((bits >> 24) as u8);
    out.push((bits >> 16) as u8);
    out.push((bits >> 8) as u8);
    out.push(bits as u8);
    assert(out@ =~= old(out)@ + be64(bits));
}

} // verus!
