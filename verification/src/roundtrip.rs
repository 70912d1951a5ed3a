//! Decoding what was encoded: when a value comes back from its own bytes.
//!
//! The bytes of integers and strings are written and read by
//! `serde_fressian`, and nothing is known here of how the two fit together.
//! The law of this module therefore takes it as given, for each such leaf of
//! a value, that the leaf is read back from its bytes; what it proves is that
//! the value as a whole then is.

use vstd::prelude::*;
use crate::codes;
use crate::encode::{array_code, be32, be64, component_wire, wire, wire_all, wire_entries};
use crate::encode::{DOUBLE_MINUS_ZERO_BITS, DOUBLE_ONE_BITS};
use crate::grammar::{be32_value, be64_value, decoding, parse_closed_entries, parse_count};
use crate::grammar::{parse_entries, parse_items, parse_list_body, parse_map, parse_scalar};
use crate::grammar::{array_kind, is_array_code, is_tag_code, parse_array, parse_tagged};
use crate::grammar::{parse_component, parse_named, parse_string, parse_utf8};
use crate::grammar::{parse_value, record_or_mapping};
use crate::leaf::{bytes_encoding, int_encoding, list_header, str_encoding, BYTE_CHUNK};
use crate::grammar::parse_text;
use crate::value::{has_key, keys_unique, lacks_tag_key, merged, tagged_of, type_key, with_entry};
use crate::value::{elements_fit, ArrayKind, ComponentModel, ValueModel};
use crate::error::FressErrorModel;
use crate::encode::writable;
use crate::exports::{buffer_for, payload_of, reply_payload};

verus! {

/// Whether the bytes `w` stand in `input` from `pos` on.
pub open spec fn stands_at(input: Seq<u8>, pos: int, w: Seq<u8>) -> bool {
    0 <= pos && pos + w.len() <= input.len() && input.subrange(pos, pos + w.len()) == w
}

/// Whether `v` is read back from its bytes, wherever they stand in an input.
pub open spec fn reads_back(v: ValueModel) -> bool {
    forall|input: Seq<u8>, pos: int|
        stands_at(input, pos, wire(v)) ==> #[trigger] parse_value(input, pos) == Ok::<
            (ValueModel, int),
            FressErrorModel,
        >((v, pos + wire(v).len()))
}

/// Whether the count `n` is read back from its bytes, wherever they stand in
/// an input.
pub open spec fn count_reads_back(n: usize) -> bool {
    forall|input: Seq<u8>, pos: int|
        stands_at(input, pos, int_encoding(n as i64)) ==> #[trigger] parse_count(input, pos)
            == Ok::<(int, int), FressErrorModel>((n as int, pos + int_encoding(n as i64).len()))
}

/// Whether a list of `n` items gets a header that tells `n`: a packed code
/// for fewer than eight items, or a count that is read back. A longer list
/// whose length has a low byte under eight gets a packed code that tells the
/// low byte only.
pub open spec fn header_tells(n: nat) -> bool {
    ||| n < 8
    ||| n <= i32::MAX && (n as usize as u8) >= 8 && count_reads_back(n as usize)
}

/// Whether a byte array of `n` bytes is written so that its length is told:
/// under eight bytes by a packed code, up to one chunk by a count that is
/// read back. A longer byte array is written in chunks, which are not read.
pub open spec fn length_tells(n: nat) -> bool {
    ||| n < 8
    ||| n <= BYTE_CHUNK && count_reads_back(n as usize)
}

/// Whether a value comes back from its bytes, given that its leaves do.
///
/// That is: every integer and string in it is read back, and the length of
/// every byte array is told; no
/// double is -0.0; every list and mapping has a header that tells its
/// length; no key occurs twice, and no field of a record has the key
/// `"type"`. For a value of a tagged kind it is its payload that has to be
/// read back; for a typed array its count and its items, each of the array's
/// kind; for a keyword or a symbol its components.
pub open spec fn faithful(v: ValueModel) -> bool
    decreases v,
{
    match v {
        ValueModel::Null => true,
        ValueModel::Bool(_) => true,
        ValueModel::Float(_) => true,
        ValueModel::Double(bits) => bits != DOUBLE_MINUS_ZERO_BITS,
        ValueModel::Int(_) => reads_back(v),
        ValueModel::Str(_) => reads_back(v),
        ValueModel::Bytes(b) => length_tells(b.len()),
        ValueModel::List(items) => {
            &&& header_tells(items.len())
            &&& all_faithful(items)
        },
        ValueModel::Mapping(entries) => {
            &&& 2 * entries.len() <= usize::MAX
            &&& header_tells(2 * entries.len())
            &&& keys_unique(entries)
            &&& pairs_faithful(entries)
        },
        ValueModel::Ext { tag, fields } => {
            &&& reads_back(ValueModel::Str(type_key()))
            &&& reads_back(ValueModel::Str(tag))
            &&& keys_unique(fields)
            &&& lacks_tag_key(fields)
            &&& pairs_faithful(fields)
        },
        ValueModel::SetOf(items) => header_tells(items.len()) && all_faithful(items),
        ValueModel::Uuid(b) => length_tells(b.len()),
        ValueModel::Regex(s) => reads_back(ValueModel::Str(s)),
        ValueModel::Uri(s) => reads_back(ValueModel::Str(s)),
        ValueModel::Inst(i) => reads_back(ValueModel::Int(i)),
        ValueModel::Array { kind, items } => {
            &&& items.len() <= i32::MAX
            &&& count_reads_back(items.len() as usize)
            &&& elements_fit(kind, items)
            &&& all_faithful(items)
        },
        ValueModel::Key { namespace, name } => component_faithful(namespace)
            && component_faithful(name) && !(name is Null),
        ValueModel::Sym { namespace, name } => component_faithful(namespace)
            && component_faithful(name) && !(name is Null),
    }
}

/// Whether a component comes back from its bytes: its string is read back,
/// or its place in the cache is one of the first thirty-two.
pub open spec fn component_faithful(c: ComponentModel) -> bool {
    match c {
        ComponentModel::Null => true,
        ComponentModel::Plain(s) => reads_back(ValueModel::Str(s)),
        ComponentModel::Put(s) => reads_back(ValueModel::Str(s)),
        ComponentModel::Ref(i) => i < 32,
    }
}

/// Whether every item is faithful.
pub open spec fn all_faithful(items: Seq<ValueModel>) -> bool
    decreases items,
{
    if items.len() == 0 {
        true
    } else {
        faithful(items[0]) && all_faithful(items.drop_first())
    }
}

/// Whether every key and every value is faithful.
pub open spec fn pairs_faithful(entries: Seq<(ValueModel, ValueModel)>) -> bool
    decreases entries,
{
    if entries.len() == 0 {
        true
    } else {
        &&& faithful(entries[0].0)
        &&& faithful(entries[0].1)
        &&& pairs_faithful(entries.drop_first())
    }
}

proof fn lemma_be32_round_trip(bits: u32)
    ensures
        be32_value(be32(bits)) == bits,
{
    let b = be32(bits);
    assert(b[0] == (bits >> 24) as u8 && b[1] == (bits >> 16) as u8 && b[2] == (bits >> 8) as u8
        && b[3] == bits as u8);
    assert((((bits >> 24) as u8) as u32) << 24 | (((bits >> 16) as u8) as u32) << 16 | (((bits
        >> 8) as u8) as u32) << 8 | ((bits as u8) as u32) == bits) by (bit_vector);
}

proof fn lemma_be64_round_trip(bits: u64)
    ensures
        be64_value(be64(bits)) == bits,
{
    let b = be64(bits);
    assert(b[0] == (bits >> 56) as u8 && b[1] == (bits >> 48) as u8 && b[2] == (bits >> 40) as u8
        && b[3] == (bits >> 32) as u8 && b[4] == (bits >> 24) as u8 && b[5] == (bits >> 16) as u8
        && b[6] == (bits >> 8) as u8 && b[7] == bits as u8);
    assert((((bits >> 56) as u8) as u64) << 56 | (((bits >> 48) as u8) as u64) << 48 | (((bits
        >> 40) as u8) as u64) << 40 | (((bits >> 32) as u8) as u64) << 32 | (((bits >> 24) as u8)
        as u64) << 24 | (((bits >> 16) as u8) as u64) << 16 | (((bits >> 8) as u8) as u64) << 8 | (
    (bits as u8) as u64) == bits) by (bit_vector);
}

/// The bytes of a run of values are those of the first and then those of
/// the rest.
proof fn lemma_wire_all_first(items: Seq<ValueModel>)
    requires
        items.len() > 0,
    ensures
        wire_all(items) == wire(items[0]) + wire_all(items.drop_first()),
    decreases items.len(),
{
    if items.len() == 1 {
        assert(items.drop_last() =~= Seq::<ValueModel>::empty());
        assert(items.drop_first() =~= Seq::<ValueModel>::empty());
        assert(wire_all(items) =~= wire(items[0]) + wire_all(items.drop_first()));
    } else {
        lemma_wire_all_first(items.drop_last());
        assert(items.drop_last().drop_first() =~= items.drop_first().drop_last());
        assert(items.drop_last()[0] == items[0]);
        assert(items.drop_first().last() == items.last());
        assert(wire_all(items) =~= wire(items[0]) + wire_all(items.drop_first()));
    }
}

/// The bytes of a run of entries are those of the first entry and then
/// those of the rest.
proof fn lemma_wire_entries_first(entries: Seq<(ValueModel, ValueModel)>)
    requires
        entries.len() > 0,
    ensures
        wire_entries(entries) == wire(entries[0].0) + wire(entries[0].1) + wire_entries(
            entries.drop_first(),
        ),
    decreases entries.len(),
{
    if entries.len() == 1 {
        assert(entries.drop_last() =~= Seq::<(ValueModel, ValueModel)>::empty());
        assert(entries.drop_first() =~= Seq::<(ValueModel, ValueModel)>::empty());
        assert(wire_entries(entries) =~= wire(entries[0].0) + wire(entries[0].1) + wire_entries(
            entries.drop_first(),
        ));
    } else {
        lemma_wire_entries_first(entries.drop_last());
        assert(entries.drop_last().drop_first() =~= entries.drop_first().drop_last());
        assert(entries.drop_last()[0] == entries[0]);
        assert(entries.drop_first().last() == entries.last());
        assert(wire_entries(entries) =~= wire(entries[0].0) + wire(entries[0].1) + wire_entries(
            entries.drop_first(),
        ));
    }
}

/// Entries with unique keys build up to themselves.
proof fn lemma_merged_unique(entries: Seq<(ValueModel, ValueModel)>)
    requires
        keys_unique(entries),
    ensures
        merged(entries) == entries,
    decreases entries.len(),
{
    if entries.len() > 0 {
        let front = entries.drop_last();
        assert forall|i: int, j: int| 0 <= i < j < front.len() implies (#[trigger] front[i]).0 != (
        #[trigger] front[j]).0 by {
            assert(entries[i].0 != entries[j].0);
        }
        lemma_merged_unique(front);
        assert(!has_key(front, entries.last().0)) by {
            if has_key(front, entries.last().0) {
                let i = choose|i: int|
                    0 <= i < front.len() && (#[trigger] front[i]).0 == entries.last().0;
                assert(entries[i].0 != entries[entries.len() - 1].0);
            }
        }
        assert(with_entry(front, entries.last().0, entries.last().1) =~= entries);
    } else {
        assert(merged(entries) =~= entries);
    }
}

/// Where `whole` stands in an input, its first part stands at the same
/// place and the rest right after it.
proof fn lemma_stands_split(input: Seq<u8>, pos: int, first: Seq<u8>, rest: Seq<u8>)
    requires
        stands_at(input, pos, first + rest),
    ensures
        stands_at(input, pos, first),
        stands_at(input, pos + first.len(), rest),
{
    let whole = first + rest;
    assert(input.subrange(pos, pos + first.len()) =~= whole.subrange(0, first.len() as int));
    assert(whole.subrange(0, first.len() as int) =~= first);
    assert(input.subrange(pos + first.len(), pos + first.len() + rest.len()) =~= whole.subrange(
        first.len() as int,
        whole.len() as int,
    ));
    assert(whole.subrange(first.len() as int, whole.len() as int) =~= rest);
}

/// The byte at a place where bytes stand is the first of them.
proof fn lemma_stands_first(input: Seq<u8>, pos: int, w: Seq<u8>)
    requires
        stands_at(input, pos, w),
        w.len() >= 1,
    ensures
        pos < input.len(),
        input[pos] == w[0],
{
    assert(input.subrange(pos, pos + w.len())[0] == input[pos]);
}

/// A leaf that is read back has bytes.
proof fn lemma_leaf_has_bytes(v: ValueModel)
    requires
        reads_back(v),
    ensures
        wire(v).len() >= 1,
{
    if wire(v).len() == 0 {
        let input = Seq::<u8>::empty();
        assert(input.subrange(0, 0) =~= wire(v));
        assert(stands_at(input, 0, wire(v)));
        assert(parse_value(input, 0) is Err);
    }
}

/// What stands where a value is read is not the end of a closed list.
proof fn lemma_read_is_no_end(input: Seq<u8>, pos: int)
    requires
        parse_value(input, pos) is Ok,
    ensures
        0 <= pos < input.len(),
        input[pos] != codes::END_COLLECTION,
{
}

/// The header of a list that tells its length is read back as a list of
/// that length.
proof fn lemma_header_read(input: Seq<u8>, pos: int, n: nat)
    requires
        header_tells(n),
        stands_at(input, pos, list_header(n as usize)),
    ensures
        list_header(n as usize).len() >= 1,
        pos < input.len(),
        codes::LIST_PACKED <= input[pos] <= codes::LIST,
        input[pos] < codes::LIST ==> input[pos] - codes::LIST_PACKED == n && list_header(
            n as usize,
        ).len() == 1,
        input[pos] == codes::LIST ==> parse_count(input, pos + 1) == Ok::<
            (int, int),
            FressErrorModel,
        >((n as int, pos + list_header(n as usize).len())),
{
    let header = list_header(n as usize);
    if n < 8 {
        assert(header =~= seq![(0xE4 + (n as usize as u8)) as u8]);
        lemma_stands_first(input, pos, header);
    } else {
        let count = int_encoding(n as usize as i64);
        assert(header == seq![0xECu8] + count);
        lemma_stands_split(input, pos, seq![0xECu8], count);
        lemma_stands_first(input, pos, seq![0xECu8]);
        assert(parse_count(input, pos + 1) == Ok::<(int, int), FressErrorModel>(
            (n as int, pos + 1 + count.len()),
        ));
    }
}

/// A value without parts and without a leaf of `serde_fressian` is read
/// back from its bytes.
proof fn lemma_scalar_read_back(v: ValueModel, input: Seq<u8>, pos: int)
    requires
        v is Null || v is Bool || v is Float || v is Double,
        faithful(v),
        stands_at(input, pos, wire(v)),
    ensures
        wire(v).len() >= 1,
        parse_value(input, pos) == Ok::<(ValueModel, int), FressErrorModel>(
            (v, pos + wire(v).len()),
        ),
{
    match v {
        ValueModel::Float(bits) => {
            lemma_stands_split(input, pos, seq![codes::FLOAT], be32(bits));
            lemma_stands_first(input, pos, seq![codes::FLOAT]);
            lemma_be32_round_trip(bits);
            assert(input.subrange(pos + 1, pos + 5) == be32(bits));
            assert(parse_scalar(input, pos) == Ok::<(ValueModel, int), FressErrorModel>(
                (v, pos + 5),
            ));
        },
        ValueModel::Double(bits) => {
            if bits == 0 || bits == DOUBLE_ONE_BITS {
                lemma_stands_first(input, pos, wire(v));
                assert(parse_scalar(input, pos) == Ok::<(ValueModel, int), FressErrorModel>(
                    (v, pos + 1),
                ));
            } else {
                lemma_stands_split(input, pos, seq![codes::DOUBLE], be64(bits));
                lemma_stands_first(input, pos, seq![codes::DOUBLE]);
                lemma_be64_round_trip(bits);
                assert(input.subrange(pos + 1, pos + 9) == be64(bits));
                assert(parse_scalar(input, pos) == Ok::<(ValueModel, int), FressErrorModel>(
                    (v, pos + 9),
                ));
            }
        },
        _ => {
            lemma_stands_first(input, pos, wire(v));
            assert(parse_scalar(input, pos) == Ok::<(ValueModel, int), FressErrorModel>(
                (v, pos + 1),
            ));
        },
    }
}

/// A byte array whose length is told is read back from its bytes.
proof fn lemma_bytes_read_back(b: Seq<u8>, input: Seq<u8>, pos: int)
    requires
        length_tells(b.len()),
        stands_at(input, pos, bytes_encoding(b)),
    ensures
        bytes_encoding(b).len() >= 1,
        parse_value(input, pos) == Ok::<(ValueModel, int), FressErrorModel>(
            (ValueModel::Bytes(b), pos + bytes_encoding(b).len()),
        ),
{
    let w = bytes_encoding(b);
    if b.len() < 8 {
        let head = seq![(0xD0 + b.len()) as u8];
        lemma_stands_split(input, pos, head, b);
        lemma_stands_first(input, pos, head);
        assert(parse_text(input, pos) == Ok::<(ValueModel, int), FressErrorModel>(
            (ValueModel::Bytes(b), pos + w.len()),
        ));
    } else {
        let count = int_encoding(b.len() as i64);
        assert(w == seq![0xD9u8] + count + b);
        lemma_stands_split(input, pos, seq![0xD9u8] + count, b);
        lemma_stands_split(input, pos, seq![0xD9u8], count);
        lemma_stands_first(input, pos, seq![0xD9u8]);
        assert(b.len() as usize as i64 == b.len() as i64);
        assert(parse_count(input, pos + 1) == Ok::<(int, int), FressErrorModel>(
            (b.len() as int, pos + 1 + count.len()),
        ));
        assert(parse_text(input, pos) == Ok::<(ValueModel, int), FressErrorModel>(
            (ValueModel::Bytes(b), pos + w.len()),
        ));
    }
}

/// A leaf that is read back is read back here.
proof fn lemma_leaf_read_back(v: ValueModel, input: Seq<u8>, pos: int)
    requires
        reads_back(v),
        stands_at(input, pos, wire(v)),
    ensures
        wire(v).len() >= 1,
        parse_value(input, pos) == Ok::<(ValueModel, int), FressErrorModel>(
            (v, pos + wire(v).len()),
        ),
{
    lemma_leaf_has_bytes(v);
}

/// A list whose items are read back is read back.
proof fn lemma_list_read_back(items: Seq<ValueModel>, input: Seq<u8>, pos: int)
    requires
        header_tells(items.len()),
        stands_at(input, pos, wire(ValueModel::List(items))),
        parse_items(
            input,
            pos + list_header(items.len() as usize).len(),
            items.len() as int) == Ok::<(Seq<ValueModel>, int), FressErrorModel>(
            (items, pos + list_header(items.len() as usize).len() + wire_all(items).len()),
        ),
    ensures
        wire(ValueModel::List(items)).len() >= 1,
        parse_value(input, pos) == Ok::<(ValueModel, int), FressErrorModel>(
            (ValueModel::List(items), pos + wire(ValueModel::List(items)).len()),
        ),
{
    let v = ValueModel::List(items);
    let header = list_header(items.len() as usize);
    lemma_stands_split(input, pos, header, wire_all(items));
    lemma_header_read(input, pos, items.len());
    assert(parse_list_body(input, pos) == Ok::<(Seq<ValueModel>, int), FressErrorModel>(
        (items, pos + wire(v).len()),
    ));
}

/// The header of a mapping counts keys and values.
proof fn lemma_twice(n: nat)
    requires
        2 * n <= usize::MAX,
    ensures
        (n as usize).wrapping_mul(2) == 2 * n,
{
    assert((n * 2) % (usize::MAX as nat + 1) == n * 2) by (nonlinear_arith)
        requires
            n * 2 <= usize::MAX,
    ;
}

/// A mapping whose entries are read back is read back.
proof fn lemma_mapping_read_back(
    entries: Seq<(ValueModel, ValueModel)>,
    input: Seq<u8>,
    pos: int,
)
    requires
        2 * entries.len() <= usize::MAX,
        header_tells(2 * entries.len()),
        keys_unique(entries),
        stands_at(input, pos, wire(ValueModel::Mapping(entries))),
        parse_entries(
            input,
            pos + 1 + list_header((2 * entries.len()) as usize).len(),
            2 * (entries.len() as int)) == Ok::<(Seq<(ValueModel, ValueModel)>, int), FressErrorModel>(
            (
                entries,
                pos + 1 + list_header((2 * entries.len()) as usize).len() + wire_entries(
                    entries,
                ).len(),
            ),
        ),
    ensures
        wire(ValueModel::Mapping(entries)).len() >= 1,
        parse_value(input, pos) == Ok::<(ValueModel, int), FressErrorModel>(
            (ValueModel::Mapping(entries), pos + wire(ValueModel::Mapping(entries)).len()),
        ),
{
    let v = ValueModel::Mapping(entries);
    let n = 2 * entries.len();
    lemma_twice(entries.len());
    let header = list_header(n as usize);
    assert(wire(v) == seq![codes::MAP] + header + wire_entries(entries));
    lemma_stands_split(input, pos, seq![codes::MAP] + header, wire_entries(entries));
    lemma_stands_split(input, pos, seq![codes::MAP], header);
    lemma_stands_first(input, pos, seq![codes::MAP]);
    lemma_header_read(input, pos + 1, n as nat);
    lemma_merged_unique(entries);
    assert(parse_map(input, pos) == Ok::<(ValueModel, int), FressErrorModel>(
        (v, pos + wire(v).len()),
    ));
}

/// Where the fields of a record stand in an input: after the two opening
/// codes, the tag's key and the tag.
spec fn fields_offset(tag: Seq<char>) -> int {
    (2 + str_encoding(type_key()).len() + str_encoding(tag).len()) as int
}

/// A record whose fields are read back is read back.
proof fn lemma_record_read_back(
    tag: Seq<char>,
    fields: Seq<(ValueModel, ValueModel)>,
    input: Seq<u8>,
    pos: int,
)
    requires
        reads_back(ValueModel::Str(type_key())),
        reads_back(ValueModel::Str(tag)),
        keys_unique(fields),
        lacks_tag_key(fields),
        stands_at(input, pos, wire(ValueModel::Ext { tag, fields })),
        parse_closed_entries(input, pos + fields_offset(tag)) == Ok::<
            (Seq<(ValueModel, ValueModel)>, int),
            FressErrorModel,
        >((fields, pos + fields_offset(tag) + wire_entries(fields).len() + 1)),
    ensures
        wire(ValueModel::Ext { tag, fields }).len() >= 1,
        parse_value(input, pos) == Ok::<(ValueModel, int), FressErrorModel>(
            (
                ValueModel::Ext { tag, fields },
                pos + wire(ValueModel::Ext { tag, fields }).len(),
            ),
        ),
{
    let v = ValueModel::Ext { tag, fields };
    let open = seq![codes::MAP, codes::BEGIN_CLOSED_LIST];
    let key = ValueModel::Str(type_key());
    let name = ValueModel::Str(tag);
    let close = seq![codes::END_COLLECTION];
    assert(wire(v) == open + wire(key) + wire(name) + wire_entries(fields) + close);
    lemma_stands_split(input, pos, open + wire(key) + wire(name) + wire_entries(fields), close);
    lemma_stands_split(input, pos, open + wire(key) + wire(name), wire_entries(fields));
    lemma_stands_split(input, pos, open + wire(key), wire(name));
    lemma_stands_split(input, pos, open, wire(key));
    assert(seq![codes::MAP] + seq![codes::BEGIN_CLOSED_LIST] =~= open);
    lemma_stands_split(input, pos, seq![codes::MAP], seq![codes::BEGIN_CLOSED_LIST]);
    lemma_stands_first(input, pos, seq![codes::MAP]);
    lemma_stands_first(input, pos + 1, seq![codes::BEGIN_CLOSED_LIST]);
    let at_key = pos + 2;
    let at_name = at_key + wire(key).len();
    let at_fields = at_name + wire(name).len();
    let end = at_fields + wire_entries(fields).len() + 1;
    lemma_leaf_read_back(key, input, at_key);
    lemma_leaf_read_back(name, input, at_name);
    lemma_read_is_no_end(input, at_key);
    lemma_read_is_no_end(input, at_name);
    let raw = seq![(key, name)] + fields;
    assert(parse_closed_entries(input, at_key) == Ok::<
        (Seq<(ValueModel, ValueModel)>, int),
        FressErrorModel,
    >((raw, end)));
    assert(keys_unique(raw)) by {
        assert forall|i: int, j: int| 0 <= i < j < raw.len() implies (#[trigger] raw[i]).0 != (
        #[trigger] raw[j]).0 by {
            if i == 0 {
                assert(raw[j] == fields[j - 1]);
            } else {
                assert(raw[i] == fields[i - 1]);
                assert(raw[j] == fields[j - 1]);
            }
        }
    }
    lemma_merged_unique(raw);
    assert(raw.skip(1) =~= fields);
    assert(record_or_mapping(raw) == v);
    assert(parse_map(input, pos) == Ok::<(ValueModel, int), FressErrorModel>((v, end)));
}

/// A value of a tagged kind whose payload is read back is read back.
proof fn lemma_tagged_read_back(
    code: u8,
    payload: ValueModel,
    v: ValueModel,
    input: Seq<u8>,
    pos: int,
)
    requires
        is_tag_code(code),
        tagged_of(code, payload) == Some(v),
        wire(v) == seq![code] + wire(payload),
        stands_at(input, pos, wire(v)),
        wire(payload).len() >= 1,
        parse_value(input, pos + 1) == Ok::<(ValueModel, int), FressErrorModel>(
            (payload, pos + 1 + wire(payload).len()),
        ),
    ensures
        wire(v).len() >= 1,
        parse_value(input, pos) == Ok::<(ValueModel, int), FressErrorModel>(
            (v, pos + wire(v).len()),
        ),
{
    lemma_stands_split(input, pos, seq![code], wire(payload));
    lemma_stands_first(input, pos, seq![code]);
    assert(parse_tagged(input, pos) == Ok::<(ValueModel, int), FressErrorModel>(
        (v, pos + wire(v).len()),
    ));
}

/// A typed array whose count and items are read back is read back.
proof fn lemma_array_read_back(
    kind: ArrayKind,
    items: Seq<ValueModel>,
    input: Seq<u8>,
    pos: int,
)
    requires
        items.len() <= i32::MAX,
        count_reads_back(items.len() as usize),
        elements_fit(kind, items),
        stands_at(input, pos, wire(ValueModel::Array { kind, items })),
        parse_items(
            input,
            pos + 1 + int_encoding(items.len() as usize as i64).len(),
            items.len() as int,
        ) == Ok::<(Seq<ValueModel>, int), FressErrorModel>(
            (items, pos + wire(ValueModel::Array { kind, items }).len()),
        ),
    ensures
        wire(ValueModel::Array { kind, items }).len() >= 1,
        parse_value(input, pos) == Ok::<(ValueModel, int), FressErrorModel>(
            (ValueModel::Array { kind, items }, pos + wire(ValueModel::Array { kind, items }).len()),
        ),
{
    let v = ValueModel::Array { kind, items };
    let count = int_encoding(items.len() as usize as i64);
    assert(wire(v) == seq![array_code(kind)] + count + wire_all(items));
    lemma_stands_split(input, pos, seq![array_code(kind)] + count, wire_all(items));
    lemma_stands_split(input, pos, seq![array_code(kind)], count);
    lemma_stands_first(input, pos, seq![array_code(kind)]);
    assert(is_array_code(input[pos]));
    assert(array_kind(input[pos]) == kind);
    assert(parse_count(input, pos + 1) == Ok::<(int, int), FressErrorModel>(
        (items.len() as int, pos + 1 + count.len()),
    ));
    assert(parse_array(input, pos) == Ok::<(ValueModel, int), FressErrorModel>(
        (v, pos + wire(v).len()),
    ));
}

/// A string that is read back as a value is read back as a string.
proof fn lemma_string_read_back(s: Seq<char>, input: Seq<u8>, pos: int)
    requires
        reads_back(ValueModel::Str(s)),
        stands_at(input, pos, str_encoding(s)),
    ensures
        str_encoding(s).len() >= 1,
        parse_string(input, pos) == Ok::<(Seq<char>, int), FressErrorModel>(
            (s, pos + str_encoding(s).len()),
        ),
        0 <= pos < input.len(),
        input[pos] != codes::NULL,
        input[pos] != codes::PUT_CACHE,
        !(codes::CACHED <= input[pos] && input[pos] < codes::CACHED + 32),
{
    let v = ValueModel::Str(s);
    lemma_leaf_read_back(v, input, pos);
    let c = input[pos];
    assert(parse_value(input, pos) == Ok::<(ValueModel, int), FressErrorModel>(
        (v, pos + wire(v).len()),
    ));
    if c == codes::UTF8 {
        assert(parse_utf8(input, pos) == parse_value(input, pos));
    } else {
        assert(parse_text(input, pos) == parse_value(input, pos));
    }
}

/// A faithful component is read back from its bytes.
proof fn lemma_component_read_back(c: ComponentModel, input: Seq<u8>, pos: int)
    requires
        component_faithful(c),
        stands_at(input, pos, component_wire(c)),
    ensures
        component_wire(c).len() >= 1,
        parse_component(input, pos) == Ok::<(ComponentModel, int), FressErrorModel>(
            (c, pos + component_wire(c).len()),
        ),
{
    match c {
        ComponentModel::Null => {
            lemma_stands_first(input, pos, component_wire(c));
        },
        ComponentModel::Ref(i) => {
            lemma_stands_first(input, pos, component_wire(c));
        },
        ComponentModel::Plain(s) => {
            lemma_string_read_back(s, input, pos);
        },
        ComponentModel::Put(s) => {
            lemma_stands_split(input, pos, seq![codes::PUT_CACHE], str_encoding(s));
            lemma_stands_first(input, pos, seq![codes::PUT_CACHE]);
            lemma_string_read_back(s, input, pos + 1);
        },
    }
}

/// A keyword or a symbol whose components are faithful is read back.
proof fn lemma_named_read_back(
    code: u8,
    namespace: ComponentModel,
    name: ComponentModel,
    v: ValueModel,
    input: Seq<u8>,
    pos: int,
)
    requires
        code == codes::KEY && v == (ValueModel::Key { namespace, name }) || code == codes::SYM
            && v == (ValueModel::Sym { namespace, name }),
        component_faithful(namespace),
        component_faithful(name),
        !(name is Null),
        stands_at(input, pos, wire(v)),
    ensures
        wire(v).len() >= 1,
        parse_value(input, pos) == Ok::<(ValueModel, int), FressErrorModel>(
            (v, pos + wire(v).len()),
        ),
{
    assert(wire(v) == seq![code] + component_wire(namespace) + component_wire(name));
    lemma_stands_split(input, pos, seq![code] + component_wire(namespace), component_wire(name));
    lemma_stands_split(input, pos, seq![code], component_wire(namespace));
    lemma_stands_first(input, pos, seq![code]);
    lemma_component_read_back(namespace, input, pos + 1);
    lemma_component_read_back(name, input, pos + 1 + component_wire(namespace).len());
    assert(parse_named(input, pos) == Ok::<(ValueModel, int), FressErrorModel>(
        (v, pos + wire(v).len()),
    ));
}

/// A faithful value is read back from its bytes, wherever they stand.
proof fn lemma_read_back(v: ValueModel, input: Seq<u8>, pos: int)
    requires
        faithful(v),
        stands_at(input, pos, wire(v)),
    ensures
        wire(v).len() >= 1,
        parse_value(input, pos) == Ok::<(ValueModel, int), FressErrorModel>(
            (v, pos + wire(v).len()),
        ),
    decreases v,
{
    match v {
        ValueModel::Int(_) => {
            lemma_leaf_read_back(v, input, pos);
        },
        ValueModel::Str(_) => {
            lemma_leaf_read_back(v, input, pos);
        },
        ValueModel::Bytes(b) => {
            lemma_bytes_read_back(b, input, pos);
        },
        ValueModel::List(items) => {
            let header = list_header(items.len() as usize);
            lemma_stands_split(input, pos, header, wire_all(items));
            lemma_items(items, input, pos + header.len());
            lemma_list_read_back(items, input, pos);
        },
        ValueModel::Mapping(entries) => {
            lemma_twice(entries.len());
            let header = list_header((2 * entries.len()) as usize);
            assert(wire(v) == seq![codes::MAP] + header + wire_entries(entries));
            lemma_stands_split(input, pos, seq![codes::MAP] + header, wire_entries(entries));
            lemma_entries(entries, input, pos + 1 + header.len());
            lemma_mapping_read_back(entries, input, pos);
        },
        ValueModel::SetOf(items) => {
            let header = list_header(items.len() as usize);
            let list = ValueModel::List(items);
            assert(wire(v) == seq![codes::SET] + wire(list));
            lemma_stands_split(input, pos, seq![codes::SET], wire(list));
            lemma_stands_split(input, pos + 1, header, wire_all(items));
            lemma_items(items, input, pos + 1 + header.len());
            lemma_list_read_back(items, input, pos + 1);
            lemma_tagged_read_back(codes::SET, list, v, input, pos);
        },
        ValueModel::Uuid(b) => {
            let leaf = ValueModel::Bytes(b);
            lemma_stands_split(input, pos, seq![codes::UUID], wire(leaf));
            lemma_bytes_read_back(b, input, pos + 1);
            lemma_tagged_read_back(codes::UUID, leaf, v, input, pos);
        },
        ValueModel::Regex(s) => {
            let leaf = ValueModel::Str(s);
            lemma_stands_split(input, pos, seq![codes::REGEX], wire(leaf));
            lemma_leaf_read_back(leaf, input, pos + 1);
            lemma_tagged_read_back(codes::REGEX, leaf, v, input, pos);
        },
        ValueModel::Uri(s) => {
            let leaf = ValueModel::Str(s);
            lemma_stands_split(input, pos, seq![codes::URI], wire(leaf));
            lemma_leaf_read_back(leaf, input, pos + 1);
            lemma_tagged_read_back(codes::URI, leaf, v, input, pos);
        },
        ValueModel::Key { namespace, name } => {
            lemma_named_read_back(codes::KEY, namespace, name, v, input, pos);
        },
        ValueModel::Sym { namespace, name } => {
            lemma_named_read_back(codes::SYM, namespace, name, v, input, pos);
        },
        ValueModel::Array { kind, items } => {
            let count = int_encoding(items.len() as usize as i64);
            assert(wire(v) == seq![array_code(kind)] + count + wire_all(items));
            lemma_stands_split(input, pos, seq![array_code(kind)] + count, wire_all(items));
            lemma_items(items, input, pos + 1 + count.len());
            lemma_array_read_back(kind, items, input, pos);
        },
        ValueModel::Inst(i) => {
            let leaf = ValueModel::Int(i);
            lemma_stands_split(input, pos, seq![codes::INST], wire(leaf));
            lemma_leaf_read_back(leaf, input, pos + 1);
            lemma_tagged_read_back(codes::INST, leaf, v, input, pos);
        },
        ValueModel::Ext { tag, fields } => {
            let open = seq![codes::MAP, codes::BEGIN_CLOSED_LIST];
            let head = open + str_encoding(type_key()) + str_encoding(tag);
            let close = seq![codes::END_COLLECTION];
            assert(wire(v) =~= head + (wire_entries(fields) + close));
            lemma_stands_split(input, pos, head, wire_entries(fields) + close);
            lemma_closed_entries(fields, input, pos + head.len());
            lemma_record_read_back(tag, fields, input, pos);
        },
        _ => {
            lemma_scalar_read_back(v, input, pos);
        },
    }
}

/// Faithful items are read back from their bytes, one after the other.
proof fn lemma_items(items: Seq<ValueModel>, input: Seq<u8>, pos: int)
    requires
        all_faithful(items),
        stands_at(input, pos, wire_all(items)),
    ensures
        parse_items(input, pos, items.len() as int) == Ok::<
            (Seq<ValueModel>, int),
            FressErrorModel,
        >((items, pos + wire_all(items).len())),
    decreases items,
{
    if items.len() == 0 {
        assert(items =~= Seq::<ValueModel>::empty());
    } else {
        let rest = items.drop_first();
        lemma_wire_all_first(items);
        lemma_stands_split(input, pos, wire(items[0]), wire_all(rest));
        lemma_read_back(items[0], input, pos);
        lemma_items(rest, input, pos + wire(items[0]).len());
        assert(seq![items[0]] + rest =~= items);
    }
}

/// Faithful entries are read back from their bytes, one after the other.
proof fn lemma_entries(
    entries: Seq<(ValueModel, ValueModel)>,
    input: Seq<u8>,
    pos: int,
)
    requires
        pairs_faithful(entries),
        stands_at(input, pos, wire_entries(entries)),
    ensures
        parse_entries(input, pos, 2 * (entries.len() as int)) == Ok::<
            (Seq<(ValueModel, ValueModel)>, int),
            FressErrorModel,
        >((entries, pos + wire_entries(entries).len())),
    decreases entries,
{
    if entries.len() == 0 {
        assert(entries =~= Seq::<(ValueModel, ValueModel)>::empty());
    } else {
        let rest = entries.drop_first();
        let k = entries[0].0;
        let v = entries[0].1;
        lemma_wire_entries_first(entries);
        lemma_stands_split(input, pos, wire(k) + wire(v), wire_entries(rest));
        lemma_stands_split(input, pos, wire(k), wire(v));
        lemma_read_back(k, input, pos);
        lemma_read_back(v, input, pos + wire(k).len());
        lemma_entries(rest, input, pos + wire(k).len() + wire(v).len());
        assert(seq![(k, v)] + rest =~= entries);
    }
}

/// Faithful entries before the end of a closed list are read back up to
/// that end.
proof fn lemma_closed_entries(
    entries: Seq<(ValueModel, ValueModel)>,
    input: Seq<u8>,
    pos: int,
)
    requires
        pairs_faithful(entries),
        stands_at(input, pos, wire_entries(entries) + seq![codes::END_COLLECTION]),
    ensures
        parse_closed_entries(input, pos) == Ok::<
            (Seq<(ValueModel, ValueModel)>, int),
            FressErrorModel,
        >((entries, pos + wire_entries(entries).len() + 1)),
    decreases entries,
{
    let close = seq![codes::END_COLLECTION];
    if entries.len() == 0 {
        assert(entries =~= Seq::<(ValueModel, ValueModel)>::empty());
        assert(wire_entries(entries) + close =~= close);
        lemma_stands_first(input, pos, close);
    } else {
        let rest = entries.drop_first();
        let k = entries[0].0;
        let v = entries[0].1;
        lemma_wire_entries_first(entries);
        lemma_stands_split(input, pos, wire_entries(entries), close);
        lemma_stands_split(input, pos, wire(k) + wire(v), wire_entries(rest));
        lemma_stands_split(input, pos, wire(k), wire(v));
        lemma_read_back(k, input, pos);
        lemma_read_back(v, input, pos + wire(k).len());
        lemma_read_is_no_end(input, pos);
        lemma_read_is_no_end(input, pos + wire(k).len());
        let next = pos + wire(k).len() + wire(v).len();
        assert(stands_at(input, next, wire_entries(rest) + close)) by {
            assert(input.subrange(next, next + wire_entries(rest).len() + 1) =~= wire_entries(rest)
                + close);
        }
        lemma_closed_entries(rest, input, next);
        assert(seq![(k, v)] + rest =~= entries);
    }
}

/// Round trip: a faithful value that is encoded and then decoded is the
/// value again.
pub proof fn law_round_trip(v: ValueModel)
    requires
        faithful(v),
    ensures
        decoding(wire(v)) == Ok::<ValueModel, FressErrorModel>(v),
{
    assert(wire(v).subrange(0, wire(v).len() as int) =~= wire(v));
    lemma_read_back(v, wire(v), 0);
}

/// Whether a value is plain: built of null, booleans, floats, doubles other
/// than -0.0, byte arrays and UUIDs of fewer than eight bytes, lists and sets
/// of fewer than eight items and mappings of fewer than four entries with
/// unique keys. Of such a value nothing has to be taken as given.
pub open spec fn plain(v: ValueModel) -> bool
    decreases v,
{
    match v {
        ValueModel::Null => true,
        ValueModel::Bool(_) => true,
        ValueModel::Float(_) => true,
        ValueModel::Double(bits) => bits != DOUBLE_MINUS_ZERO_BITS,
        ValueModel::List(items) => {
            &&& items.len() < 8
            &&& all_plain(items)
        },
        ValueModel::Mapping(entries) => {
            &&& entries.len() < 4
            &&& keys_unique(entries)
            &&& pairs_plain(entries)
        },
        ValueModel::Bytes(b) => b.len() < 8,
        ValueModel::Uuid(b) => b.len() < 8,
        ValueModel::SetOf(items) => items.len() < 8 && all_plain(items),
        _ => false,
    }
}

/// Whether every item is plain.
pub open spec fn all_plain(items: Seq<ValueModel>) -> bool
    decreases items,
{
    if items.len() == 0 {
        true
    } else {
        plain(items[0]) && all_plain(items.drop_first())
    }
}

/// Whether every key and every value is plain.
pub open spec fn pairs_plain(entries: Seq<(ValueModel, ValueModel)>) -> bool
    decreases entries,
{
    if entries.len() == 0 {
        true
    } else {
        &&& plain(entries[0].0)
        &&& plain(entries[0].1)
        &&& pairs_plain(entries.drop_first())
    }
}

proof fn lemma_plain_faithful(v: ValueModel)
    requires
        plain(v),
    ensures
        faithful(v),
    decreases v,
{
    match v {
        ValueModel::List(items) => {
            lemma_all_plain_faithful(items);
        },
        ValueModel::Mapping(entries) => {
            lemma_pairs_plain_faithful(entries);
        },
        ValueModel::SetOf(items) => {
            lemma_all_plain_faithful(items);
        },
        _ => {},
    }
}

proof fn lemma_all_plain_faithful(items: Seq<ValueModel>)
    requires
        all_plain(items),
    ensures
        all_faithful(items),
    decreases items,
{
    if items.len() > 0 {
        lemma_plain_faithful(items[0]);
        lemma_all_plain_faithful(items.drop_first());
    }
}

proof fn lemma_pairs_plain_faithful(entries: Seq<(ValueModel, ValueModel)>)
    requires
        pairs_plain(entries),
    ensures
        pairs_faithful(entries),
    decreases entries,
{
    if entries.len() > 0 {
        lemma_plain_faithful(entries[0].0);
        lemma_plain_faithful(entries[0].1);
        lemma_pairs_plain_faithful(entries.drop_first());
    }
}

/// Round trip of plain values: a plain value that is encoded and then
/// decoded is the value again. Nothing is taken as given here.
pub proof fn law_round_trip_plain(v: ValueModel)
    requires
        plain(v),
    ensures
        decoding(wire(v)) == Ok::<ValueModel, FressErrorModel>(v),
{
    lemma_plain_faithful(v);
    law_round_trip(v);
}

/// Feeding a produced payload back: the reply to the bytes of a faithful
/// value is those bytes again, so the buffer that is sent back is the buffer
/// that was sent out.
pub proof fn law_echo_of_produced(v: ValueModel)
    requires
        faithful(v),
        writable(v),
    ensures
        reply_payload(decoding(wire(v))) == Some(wire(v)),
        buffer_for(reply_payload(decoding(wire(v)))) == buffer_for(payload_of(v)),
{
    law_round_trip(v);
}

} // verus!
