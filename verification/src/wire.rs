//! The wire form of a tag tree, and the proof that the decoder reads it back.

use crate::bytes::{be_u16, be_u32, be_u64, signed32, signed64, signed8};
use crate::nbt::{
    available, distinct_names, document_at, field, items_at, lemma_member_index_is, length_at,
    members_at, payload_at, text_at, with_member, Members, NbtError, TagValue,
};
use vstd::prelude::*;
use vstd::utf8::encode_utf8;

verus! {

/// The id that announces a tag of the kind of `v`.
pub open spec fn tag_id(v: TagValue) -> u8 {
    match v {
        TagValue::Byte(_) => 1,
        TagValue::Short(_) => 2,
        TagValue::Int(_) => 3,
        TagValue::Long(_) => 4,
        TagValue::Float(_) => 5,
        TagValue::Double(_) => 6,
        TagValue::ByteArray(_) => 7,
        TagValue::String(_) => 8,
        TagValue::List(_) => 9,
        TagValue::Compound(_) => 10,
        TagValue::IntArray(_) => 11,
        TagValue::LongArray(_) => 12,
    }
}

/// The unsigned number below `modulus` with the two's-complement bits of `v`.
pub open spec fn unsigned(v: int, modulus: int) -> int {
    if v < 0 {
        v + modulus
    } else {
        v
    }
}

/// Two bytes, most significant first.
pub open spec fn be16(n: int) -> Seq<u8> {
    seq![(n / 0x100) as u8, (n % 0x100) as u8]
}

/// Four bytes, most significant first.
pub open spec fn be32(n: int) -> Seq<u8> {
    seq![
        (n / 0x100_0000) as u8,
        (n / 0x1_0000 % 0x100) as u8,
        (n / 0x100 % 0x100) as u8,
        (n % 0x100) as u8,
    ]
}

/// Eight bytes, most significant first.
pub open spec fn be64(n: int) -> Seq<u8> {
    be32(n / 0x1_0000_0000) + be32(n % 0x1_0000_0000)
}

/// A text with its length prefix.
pub open spec fn text_bytes(s: Seq<char>) -> Seq<u8> {
    be16(encode_utf8(s).len() as int) + encode_utf8(s)
}

/// Whether a tag tree can be written: counts fit their prefixes, the items of
/// a list are of one kind, and the names of a compound differ.
pub open spec fn writable(v: TagValue) -> bool
    decreases v,
{
    match v {
        TagValue::ByteArray(a) => a.len() <= 0x7fff_ffff,
        TagValue::IntArray(a) => a.len() <= 0x7fff_ffff,
        TagValue::LongArray(a) => a.len() <= 0x7fff_ffff,
        TagValue::String(s) => encode_utf8(s).len() <= 0xffff,
        TagValue::List(items) => {
            &&& items.len() <= 0x7fff_ffff
            &&& forall|i: int|
                0 <= i < items.len() ==> writable(#[trigger] items[i]) && tag_id(items[i])
                    == tag_id(items[0])
        },
        TagValue::Compound(members) => {
            &&& distinct_names(members)
            &&& forall|i: int|
                0 <= i < members.len() ==> writable((#[trigger] members[i]).1) && encode_utf8(
                    members[i].0,
                ).len() <= 0xffff
        },
        _ => true,
    }
}

/// The id that a list announces for its items; zero for an empty list.
pub open spec fn item_id(items: Seq<TagValue>) -> u8 {
    if items.len() == 0 {
        0
    } else {
        tag_id(items[0])
    }
}

/// The body of a tag on the wire.
pub open spec fn payload_bytes(v: TagValue) -> Seq<u8>
    decreases v, 0nat,
{
    match v {
        TagValue::Byte(n) => seq![unsigned(n as int, 0x100) as u8],
        TagValue::Short(n) => be16(unsigned(n as int, 0x1_0000)),
        TagValue::Int(n) => be32(unsigned(n as int, 0x1_0000_0000)),
        TagValue::Long(n) => be64(unsigned(n as int, 0x1_0000_0000_0000_0000)),
        TagValue::Float(n) => be32(n as int),
        TagValue::Double(n) => be64(n as int),
        TagValue::ByteArray(a) => be32(a.len() as int) + Seq::new(
            a.len(),
            |i: int| unsigned(a[i] as int, 0x100) as u8,
        ),
        TagValue::String(s) => text_bytes(s),
        TagValue::List(items) => seq![item_id(items)] + be32(items.len() as int) + items_bytes(
            items,
            0,
        ),
        TagValue::Compound(members) => members_bytes(members, 0),
        TagValue::IntArray(a) => be32(a.len() as int) + Seq::new(
            4 * a.len(),
            |j: int| be32(unsigned(a[j / 4] as int, 0x1_0000_0000))[j % 4],
        ),
        TagValue::LongArray(a) => be32(a.len() as int) + Seq::new(
            8 * a.len(),
            |j: int| be64(unsigned(a[j / 8] as int, 0x1_0000_0000_0000_0000))[j % 8],
        ),
    }
}

/// The bodies of the items from position `k` on, one after the other.
pub open spec fn items_bytes(items: Seq<TagValue>, k: nat) -> Seq<u8>
    decreases items, items.len() - k,
{
    if k >= items.len() {
        Seq::empty()
    } else {
        payload_bytes(items[k as int]) + items_bytes(items, k + 1)
    }
}

/// The named tags from position `k` on, and the terminating zero.
pub open spec fn members_bytes(members: Members, k: nat) -> Seq<u8>
    decreases members, members.len() - k,
{
    if k >= members.len() {
        seq![0u8]
    } else {
        seq![tag_id(members[k as int].1)] + text_bytes(members[k as int].0) + payload_bytes(
            members[k as int].1,
        ) + members_bytes(members, k + 1)
    }
}

/// The byte string `enc` stands at `pos` in `b`.
pub open spec fn holds(b: Seq<u8>, pos: int, enc: Seq<u8>) -> bool {
    0 <= pos && pos + enc.len() <= b.len() && b.subrange(pos, pos + enc.len()) == enc
}

/// Where a concatenation stands, its two parts stand one behind the other.
pub proof fn lemma_holds_split(b: Seq<u8>, pos: int, x: Seq<u8>, y: Seq<u8>)
    requires
        holds(b, pos, x + y),
    ensures
        holds(b, pos, x),
        holds(b, pos + x.len(), y),
{
    let whole = b.subrange(pos, pos + (x + y).len());
    assert forall|i: int| 0 <= i < x.len() implies b.subrange(pos, pos + x.len())[i] == x[i] by {
        assert(whole[i] == (x + y)[i]);
    }
    assert(b.subrange(pos, pos + x.len()) =~= x);
    assert forall|i: int| 0 <= i < y.len() implies b.subrange(
        pos + x.len(),
        pos + x.len() + y.len(),
    )[i] == y[i] by {
        assert(whole[x.len() + i] == (x + y)[x.len() + i]);
    }
    assert(b.subrange(pos + x.len(), pos + x.len() + y.len()) =~= y);
}

/// A byte string that stands at `pos` is the field of its length there.
pub proof fn lemma_holds_field(b: Seq<u8>, pos: int, enc: Seq<u8>)
    requires
        holds(b, pos, enc),
    ensures
        available(b, pos, enc.len() as int),
        field(b, pos, enc.len() as int) == enc,
        forall|i: int| 0 <= i < enc.len() ==> b[pos + i] == #[trigger] enc[i],
{
    assert forall|i: int| 0 <= i < enc.len() implies b[pos + i] == #[trigger] enc[i] by {
        assert(b.subrange(pos, pos + enc.len())[i] == b[pos + i]);
    }
}

/// Reading what `be16` wrote.
pub proof fn lemma_be16(n: int)
    requires
        0 <= n < 0x1_0000,
    ensures
        be16(n).len() == 2,
        be_u16(be16(n)) == n,
{
}

/// Reading what `be32` wrote.
pub proof fn lemma_be32(n: int)
    requires
        0 <= n < 0x1_0000_0000,
    ensures
        be32(n).len() == 4,
        be_u32(be32(n)) == n,
{
}

/// Reading what `be64` wrote.
pub proof fn lemma_be64(n: int)
    requires
        0 <= n < 0x1_0000_0000_0000_0000,
    ensures
        be64(n).len() == 8,
        be_u64(be64(n)) == n,
{
    let high = n / 0x1_0000_0000;
    let low = n % 0x1_0000_0000;
    lemma_be32(high);
    lemma_be32(low);
    assert(be64(n).subrange(4, 8) =~= be32(low));
    assert(be_u32(be64(n)) == be_u32(be32(high)));
}

/// A text that stands at `pos` is read back.
pub proof fn lemma_text_round_trip(b: Seq<u8>, pos: int, s: Seq<char>)
    requires
        encode_utf8(s).len() <= 0xffff,
        holds(b, pos, text_bytes(s)),
    ensures
        text_at(b, pos) == Ok::<(Seq<char>, int), NbtError>((s, pos + text_bytes(s).len())),
        text_bytes(s).len() == 2 + encode_utf8(s).len(),
{
    let raw = encode_utf8(s);
    lemma_be16(raw.len() as int);
    lemma_holds_split(b, pos, be16(raw.len() as int), raw);
    lemma_holds_field(b, pos, be16(raw.len() as int));
    lemma_holds_field(b, pos + 2, raw);
    vstd::utf8::encode_utf8_valid_utf8(s);
    vstd::utf8::encode_utf8_decode_utf8(s);
}


/// Every body takes up at least one byte.
pub proof fn lemma_payload_nonempty(v: TagValue)
    ensures
        payload_bytes(v).len() >= 1,
{
    match v {
        TagValue::Long(n) => {
            assert(be64(unsigned(n as int, 0x1_0000_0000_0000_0000)).len() == 8);
        },
        TagValue::Double(n) => {
            assert(be64(n as int).len() == 8);
        },
        TagValue::Compound(members) => {
            reveal_with_fuel(members_bytes, 2);
        },
        _ => {},
    }
}

/// A writable tag body that stands at `pos` is read back, and reading ends
/// behind it.
pub proof fn lemma_payload_round_trip(b: Seq<u8>, pos: int, v: TagValue)
    requires
        writable(v),
        holds(b, pos, payload_bytes(v)),
    ensures
        payload_at(b, pos, tag_id(v)) == Ok::<(TagValue, int), NbtError>(
            (v, pos + payload_bytes(v).len()),
        ),
        pos < pos + payload_bytes(v).len() <= b.len(),
    decreases v, 0nat,
{
    let enc = payload_bytes(v);
    lemma_payload_nonempty(v);
    lemma_holds_field(b, pos, enc);
    match v {
        TagValue::Byte(n) => {
            assert(enc[0] == unsigned(n as int, 0x100) as u8);
        },
        TagValue::Short(n) => {
            lemma_be16(unsigned(n as int, 0x1_0000));
        },
        TagValue::Int(n) => {
            lemma_be32(unsigned(n as int, 0x1_0000_0000));
        },
        TagValue::Long(n) => {
            lemma_be64(unsigned(n as int, 0x1_0000_0000_0000_0000));
        },
        TagValue::Float(n) => {
            lemma_be32(n as int);
        },
        TagValue::Double(n) => {
            lemma_be64(n as int);
        },
        TagValue::ByteArray(a) => {
            let body = Seq::new(a.len(), |i: int| unsigned(a[i] as int, 0x100) as u8);
            lemma_be32(a.len() as int);
            lemma_holds_split(b, pos, be32(a.len() as int), body);
            lemma_holds_field(b, pos, be32(a.len() as int));
            lemma_holds_field(b, pos + 4, body);
            let read = Seq::new(a.len(), |i: int| signed8(b[pos + 4 + i] as int) as i8);
            assert forall|i: int| 0 <= i < a.len() implies read[i] == a[i] by {
                assert(b[pos + 4 + i] == body[i]);
            }
            assert(read =~= a);
        },
        TagValue::String(s) => {
            lemma_text_round_trip(b, pos, s);
        },
        TagValue::List(items) => {
            let head = seq![item_id(items)] + be32(items.len() as int);
            lemma_be32(items.len() as int);
            assert(enc == head + items_bytes(items, 0));
            lemma_holds_split(b, pos, head, items_bytes(items, 0));
            lemma_holds_split(b, pos, seq![item_id(items)], be32(items.len() as int));
            lemma_holds_field(b, pos, seq![item_id(items)]);
            lemma_holds_field(b, pos + 1, be32(items.len() as int));
            assert(seq![item_id(items)][0] == item_id(items));
            assert(b[pos] == item_id(items));
            assert(length_at(b, pos + 1) == items.len());
            lemma_items_round_trip(b, pos + 5, items, 0, b[pos], Seq::empty());
            assert(Seq::<TagValue>::empty() + items.skip(0) =~= items);
        },
        TagValue::Compound(members) => {
            assert(members.skip(0) =~= members);
            assert(Members::empty() + members.skip(0) =~= members);
            lemma_members_round_trip(b, pos, members, 0, Seq::empty(), false);
        },
        TagValue::IntArray(a) => {
            let body = Seq::new(
                4 * a.len(),
                |j: int| be32(unsigned(a[j / 4] as int, 0x1_0000_0000))[j % 4],
            );
            lemma_be32(a.len() as int);
            lemma_holds_split(b, pos, be32(a.len() as int), body);
            lemma_holds_field(b, pos, be32(a.len() as int));
            lemma_holds_field(b, pos + 4, body);
            let read = Seq::new(
                a.len(),
                |i: int| signed32(be_u32(field(b, pos + 4 + 4 * i, 4))) as i32,
            );
            assert forall|i: int| 0 <= i < a.len() implies read[i] == a[i] by {
                let u = unsigned(a[i] as int, 0x1_0000_0000);
                lemma_be32(u);
                let f = field(b, pos + 4 + 4 * i, 4);
                assert forall|k: int| 0 <= k < 4 implies f[k] == be32(u)[k] by {
                    assert(b[pos + 4 + (4 * i + k)] == body[4 * i + k]);
                }
                assert(f =~= be32(u));
            }
            assert(read =~= a);
        },
        TagValue::LongArray(a) => {
            let body = Seq::new(
                8 * a.len(),
                |j: int| be64(unsigned(a[j / 8] as int, 0x1_0000_0000_0000_0000))[j % 8],
            );
            lemma_be32(a.len() as int);
            lemma_holds_split(b, pos, be32(a.len() as int), body);
            lemma_holds_field(b, pos, be32(a.len() as int));
            lemma_holds_field(b, pos + 4, body);
            let read = Seq::new(
                a.len(),
                |i: int| signed64(be_u64(field(b, pos + 4 + 8 * i, 8))) as i64,
            );
            assert forall|i: int| 0 <= i < a.len() implies read[i] == a[i] by {
                let u = unsigned(a[i] as int, 0x1_0000_0000_0000_0000);
                lemma_be64(u);
                let f = field(b, pos + 4 + 8 * i, 8);
                assert forall|k: int| 0 <= k < 8 implies f[k] == be64(u)[k] by {
                    assert(b[pos + 4 + (8 * i + k)] == body[8 * i + k]);
                }
                assert(f =~= be64(u));
            }
            assert(read =~= a);
        },
    }
}

/// The bodies of the items from `k` on, where they stand at `pos`, are read
/// back behind what was read before.
pub proof fn lemma_items_round_trip(
    b: Seq<u8>,
    pos: int,
    items: Seq<TagValue>,
    k: nat,
    id: u8,
    done: Seq<TagValue>,
)
    requires
        k <= items.len(),
        forall|i: int| 0 <= i < items.len() ==> writable(#[trigger] items[i]),
        forall|i: int| k <= i < items.len() ==> tag_id(#[trigger] items[i]) == id,
        holds(b, pos, items_bytes(items, k)),
    ensures
        items_at(b, pos, id, (items.len() - k) as nat, done) == Ok::<(Seq<TagValue>, int), NbtError>(
            (done + items.skip(k as int), pos + items_bytes(items, k).len()),
        ),
    decreases items, items.len() - k,
{
    if k >= items.len() {
        assert(done + items.skip(k as int) =~= done);
    } else {
        let item = items[k as int];
        lemma_holds_split(b, pos, payload_bytes(item), items_bytes(items, k + 1));
        lemma_payload_round_trip(b, pos, item);
        let next = pos + payload_bytes(item).len();
        lemma_items_round_trip(b, next, items, k + 1, id, done.push(item));
        assert(done.push(item) + items.skip(k as int + 1) =~= done + items.skip(k as int));
    }
}

/// The named tags from `k` on, where they stand at `pos` with their
/// terminator, are read back behind what was read before.
pub proof fn lemma_members_round_trip(
    b: Seq<u8>,
    pos: int,
    members: Members,
    k: nat,
    done: Members,
    root: bool,
)
    requires
        k <= members.len(),
        forall|i: int|
            0 <= i < members.len() ==> writable((#[trigger] members[i]).1) && encode_utf8(
                members[i].0,
            ).len() <= 0xffff,
        distinct_names(done + members.skip(k as int)),
        holds(b, pos, members_bytes(members, k)),
    ensures
        members_at(b, pos, done, root) == Ok::<(Members, int), NbtError>(
            (done + members.skip(k as int), pos + members_bytes(members, k).len()),
        ),
    decreases members, members.len() - k,
{
    let enc = members_bytes(members, k);
    lemma_holds_field(b, pos, enc);
    if k >= members.len() {
        assert(enc[0] == 0u8);
        assert(done + members.skip(k as int) =~= done);
    } else {
        let name = members[k as int].0;
        let value = members[k as int].1;
        let rest = members_bytes(members, k + 1);
        let head = seq![tag_id(value)];
        assert(enc == head + text_bytes(name) + payload_bytes(value) + rest);
        lemma_holds_split(b, pos, head + text_bytes(name) + payload_bytes(value), rest);
        lemma_holds_split(b, pos, head + text_bytes(name), payload_bytes(value));
        lemma_holds_split(b, pos, head, text_bytes(name));
        assert(enc[0] == tag_id(value));
        assert(b[pos] == tag_id(value));
        lemma_text_round_trip(b, pos + 1, name);
        let start = pos + 1 + text_bytes(name).len();
        lemma_payload_round_trip(b, start, value);
        let next = start + payload_bytes(value).len();
        let all = done + members.skip(k as int);
        assert(all[done.len() as int] == members[k as int]);
        assert forall|j: int| 0 <= j < done.len() implies (#[trigger] done[j]).0 != name by {
            assert(all[j] == done[j]);
        }
        lemma_member_index_is(done, name, done.len() as int);
        assert(with_member(done, name, value) == done.push((name, value)));
        assert(done.push((name, value)) + members.skip(k as int + 1) =~= all);
        lemma_members_round_trip(b, next, members, k + 1, done.push((name, value)), root);
    }
}

/// Decoding the wire form of a writable compound as a document gives the
/// compound back, whatever bytes follow it.
pub proof fn lemma_document_round_trip(members: Members, rest: Seq<u8>)
    requires
        writable(TagValue::Compound(members)),
    ensures
        document_at(members_bytes(members, 0) + rest, 0) == Ok::<(TagValue, int), NbtError>(
            (TagValue::Compound(members), members_bytes(members, 0).len() as int),
        ),
{
    let enc = members_bytes(members, 0);
    let b = enc + rest;
    assert(b.subrange(0, enc.len() as int) =~= enc);
    assert(Members::empty() + members.skip(0) =~= members);
    lemma_members_round_trip(b, 0, members, 0, Seq::empty(), true);
}

} // verus!
