//! Named binary tags: the tag tree and its decoder.

use crate::bytes::{
    be_u16, be_u32, be_u64, read_be_i16, read_be_i32, read_be_i64, read_be_u16, read_be_u32,
    read_be_u64, signed16, signed32, signed64, signed8,
};
use crate::text::{str_eq, string_from_utf8};
use vstd::prelude::*;
use vstd::slice::slice_subrange;
use vstd::utf8::{decode_utf8, valid_utf8};

verus! {

/// One node of a tag tree.
///
/// The two floating-point kinds are kept as the IEEE-754 bit pattern that
/// stood in the stream.
#[derive(Debug, PartialEq)]
pub enum Tag {
    Byte(i8),
    Short(i16),
    Int(i32),
    Long(i64),
    Float(u32),
    Double(u64),
    ByteArray(Vec<i8>),
    String(String),
    List(Vec<Tag>),
    Compound(Compound),
    IntArray(Vec<i32>),
    LongArray(Vec<i64>),
}

/// The members of a compound tag, in the order in which they were first
/// inserted. `new` and `insert` never let a name occur twice.
#[derive(Debug, PartialEq)]
pub struct Compound {
    entries: Vec<(String, Tag)>,
}

/// The mathematical value of a tag tree.
pub enum TagValue {
    Byte(i8),
    Short(i16),
    Int(i32),
    Long(i64),
    Float(u32),
    Double(u64),
    ByteArray(Seq<i8>),
    String(Seq<char>),
    List(Seq<TagValue>),
    Compound(Seq<(Seq<char>, TagValue)>),
    IntArray(Seq<i32>),
    LongArray(Seq<i64>),
}

/// The members of a compound as (name, value) pairs.
pub type Members = Seq<(Seq<char>, TagValue)>;

/// No two members carry the same name.
pub open spec fn distinct_names(m: Members) -> bool {
    forall|i: int, j: int| 0 <= i < j < m.len() ==> (#[trigger] m[i]).0 != (#[trigger] m[j]).0
}

/// Position of the first member called `name`; `m.len()` when there is none.
pub open spec fn member_index(m: Members, name: Seq<char>) -> int
    decreases m.len(),
{
    if m.len() == 0 {
        0
    } else if m[0].0 == name {
        0
    } else {
        1 + member_index(m.drop_first(), name)
    }
}

/// The value stored under `name`, if any.
pub open spec fn member(m: Members, name: Seq<char>) -> Option<TagValue> {
    let i = member_index(m, name);
    if i < m.len() {
        Some(m[i].1)
    } else {
        None
    }
}

/// `m` after storing `value` under `name`: an existing member keeps its place
/// and takes the new value, a new one goes to the end.
pub open spec fn with_member(m: Members, name: Seq<char>, value: TagValue) -> Members {
    let i = member_index(m, name);
    if i < m.len() {
        m.update(i, (name, value))
    } else {
        m.push((name, value))
    }
}

/// The values of a sequence of tags.
pub open spec fn tag_values(tags: Seq<Tag>) -> Seq<TagValue> {
    Seq::new(tags.len(), |i: int| tags[i]@)
}

/// The (name, value) pairs of a sequence of named tags.
pub open spec fn member_values(entries: Seq<(String, Tag)>) -> Members {
    Seq::new(entries.len(), |i: int| (entries[i].0@, entries[i].1@))
}

impl View for Tag {
    type V = TagValue;

    open spec fn view(&self) -> TagValue
        decreases self,
    {
        match self {
            Tag::Byte(n) => TagValue::Byte(*n),
            Tag::Short(n) => TagValue::Short(*n),
            Tag::Int(n) => TagValue::Int(*n),
            Tag::Long(n) => TagValue::Long(*n),
            Tag::Float(n) => TagValue::Float(*n),
            Tag::Double(n) => TagValue::Double(*n),
            Tag::ByteArray(v) => TagValue::ByteArray(v@),
            Tag::String(s) => TagValue::String(s@),
            Tag::List(v) => TagValue::List(
                Seq::new(
                    v@.len(),
                    |i: int|
                        if 0 <= i < v@.len() {
                            v@[i].view()
                        } else {
                            TagValue::Byte(0)
                        },
                ),
            ),
            Tag::Compound(c) => TagValue::Compound(c.view()),
            Tag::IntArray(v) => TagValue::IntArray(v@),
            Tag::LongArray(v) => TagValue::LongArray(v@),
        }
    }
}

impl View for Compound {
    type V = Members;

    closed spec fn view(&self) -> Members
        decreases self,
    {
        Seq::new(
            self.entries@.len(),
            |i: int|
                if 0 <= i < self.entries@.len() {
                    (self.entries@[i].0@, self.entries@[i].1.view())
                } else {
                    (Seq::empty(), TagValue::Byte(0))
                },
        )
    }
}

/// The value of a list tag is the sequence of the values of its items.
pub proof fn lemma_list_view(v: Vec<Tag>)
    ensures
        Tag::List(v)@ == TagValue::List(tag_values(v@)),
{
    reveal_with_fuel(<Tag as View>::view, 2);
    assert(Tag::List(v)@->List_0 =~= tag_values(v@));
}


/// `member_index` finds the first member called `name`, and nothing before it
/// carries that name.
pub proof fn lemma_member_index(m: Members, name: Seq<char>)
    ensures
        0 <= member_index(m, name) <= m.len(),
        member_index(m, name) < m.len() ==> m[member_index(m, name)].0 == name,
        forall|k: int| 0 <= k < member_index(m, name) ==> (#[trigger] m[k]).0 != name,
    decreases m.len(),
{
    if m.len() == 0 {
    } else if m[0].0 == name {
    } else {
        let rest = m.drop_first();
        lemma_member_index(rest, name);
        let i = member_index(rest, name);
        assert forall|k: int| 0 <= k < 1 + i implies (#[trigger] m[k]).0 != name by {
            if k > 0 {
                assert(rest[k - 1] == m[k]);
            }
        }
        if i < rest.len() {
            assert(rest[i] == m[i + 1]);
        }
    }
}

/// A position that holds `name` and has no earlier holder is the one that
/// `member_index` finds.
pub proof fn lemma_member_index_is(m: Members, name: Seq<char>, i: int)
    requires
        0 <= i <= m.len(),
        i < m.len() ==> m[i].0 == name,
        forall|k: int| 0 <= k < i ==> (#[trigger] m[k]).0 != name,
    ensures
        member_index(m, name) == i,
{
    lemma_member_index(m, name);
    let j = member_index(m, name);
    if j < i {
        assert(m[j].0 != name);
    } else if i < j {
        assert(m[i].0 != name);
    }
}

/// Storing a member keeps the names distinct.
pub proof fn lemma_with_member_distinct(m: Members, name: Seq<char>, value: TagValue)
    requires
        distinct_names(m),
    ensures
        distinct_names(with_member(m, name, value)),
{
    lemma_member_index(m, name);
    let i = member_index(m, name);
    let r = with_member(m, name, value);
    assert forall|a: int, b: int| 0 <= a < b < r.len() implies (#[trigger] r[a]).0 != (
    #[trigger] r[b]).0 by {
        if i < m.len() {
            assert(r[a].0 == m[a].0);
            assert(r[b].0 == m[b].0);
        } else {
            if b == m.len() {
                assert(r[a] == m[a]);
            } else {
                assert(r[a] == m[a]);
                assert(r[b] == m[b]);
            }
        }
    }
}

impl Compound {
    /// The compound's value lists its entries in order.
    proof fn lemma_view(self)
        ensures
            self@ == member_values(self.entries@),
    {
        reveal_with_fuel(<Tag as View>::view, 2);
        assert(self@ =~= member_values(self.entries@));
    }

    /// A compound without members.
    pub fn new() -> (c: Compound)
        ensures
            c@ == Members::empty(),
    {
        let c = Compound { entries: Vec::new() };
        proof {
            c.lemma_view();
            assert(c@ =~= Members::empty());
        }
        c
    }

    /// Number of members.
    pub fn len(&self) -> (n: usize)
        ensures
            n == self@.len(),
    {
        proof {
            self.lemma_view();
        }
        self.entries.len()
    }

    /// Name of the member at position `i`.
    pub fn name_at(&self, i: usize) -> (name: &str)
        requires
            i < self@.len(),
        ensures
            name@ == self@[i as int].0,
    {
        proof {
            self.lemma_view();
        }
        self.entries[i].0.as_str()
    }

    /// Tag of the member at position `i`.
    pub fn tag_at(&self, i: usize) -> (tag: &Tag)
        requires
            i < self@.len(),
        ensures
            tag@ == self@[i as int].1,
    {
        proof {
            self.lemma_view();
        }
        &self.entries[i].1
    }

    /// Position of the member called `name`, or the number of members when
    /// there is none.
    fn find(&self, name: &str) -> (i: usize)
        ensures
            i == member_index(self@, name@),
            i <= self@.len(),
    {
        proof {
            self.lemma_view();
        }
        let mut i: usize = 0;
        while i < self.entries.len()
            invariant
                i <= self.entries.len(),
                self@ == member_values(self.entries@),
                forall|k: int| 0 <= k < i ==> (#[trigger] self@[k]).0 != name@,
            decreases self.entries.len() - i,
        {
            if str_eq(self.entries[i].0.as_str(), name) {
                proof {
                    lemma_member_index_is(self@, name@, i as int);
                }
                return i;
            }
            i += 1;
        }
        proof {
            lemma_member_index_is(self@, name@, i as int);
        }
        i
    }

    /// The tag stored under `name`, if any.
    pub fn get(&self, name: &str) -> (r: Option<&Tag>)
        ensures
            match r {
                Some(tag) => member(self@, name@) == Some(tag@),
                None => member(self@, name@) is None,
            },
    {
        let i = self.find(name);
        proof {
            self.lemma_view();
        }
        if i < self.entries.len() {
            Some(&self.entries[i].1)
        } else {
            None
        }
    }

    /// Stores `tag` under `name`, replacing the tag of an existing member.
    pub fn insert(&mut self, name: String, tag: Tag)
        ensures
            final(self)@ == with_member(old(self)@, name@, tag@),
            distinct_names(old(self)@) ==> distinct_names(final(self)@),
    {
        proof {
            if distinct_names(self@) {
                lemma_with_member_distinct(self@, name@, tag@);
            }
        }
        let i = self.find(name.as_str());
        proof {
            self.lemma_view();
        }
        let ghost before = self@;
        let ghost after = with_member(before, name@, tag@);
        if i < self.entries.len() {
            assert(member_values(self.entries@.update(i as int, (name, tag))) =~= after);
            self.entries[i] = (name, tag);
        } else {
            assert(member_values(self.entries@.push((name, tag))) =~= after);
            self.entries.push((name, tag));
        }
        proof {
            self.lemma_view();
        }
    }
}


impl Tag {
    /// The members, when this is a compound.
    pub fn as_compound(&self) -> (r: Option<&Compound>)
        ensures
            r == (match self {
                Tag::Compound(c) => Some(c),
                _ => None,
            }),
    {
        if let Tag::Compound(comp) = self {
            Some(comp)
        } else {
            None
        }
    }

    /// The number, when this is a byte.
    pub fn as_i8(&self) -> (r: Option<&i8>)
        ensures
            r == (match self {
                Tag::Byte(n) => Some(n),
                _ => None,
            }),
    {
        if let Tag::Byte(n) = self {
            Some(n)
        } else {
            None
        }
    }

    /// The number, when this is a short.
    pub fn as_i16(&self) -> (r: Option<&i16>)
        ensures
            r == (match self {
                Tag::Short(n) => Some(n),
                _ => None,
            }),
    {
        if let Tag::Short(n) = self {
            Some(n)
        } else {
            None
        }
    }

    /// The number, when this is an int.
    pub fn as_i32(&self) -> (r: Option<&i32>)
        ensures
            r == (match self {
                Tag::Int(n) => Some(n),
                _ => None,
            }),
    {
        if let Tag::Int(n) = self {
            Some(n)
        } else {
            None
        }
    }

    /// The number, when this is a long.
    pub fn as_i64(&self) -> (r: Option<&i64>)
        ensures
            r == (match self {
                Tag::Long(n) => Some(n),
                _ => None,
            }),
    {
        if let Tag::Long(n) = self {
            Some(n)
        } else {
            None
        }
    }

    /// The bytes, when this is a byte array.
    pub fn as_i8_vec(&self) -> (r: Option<&Vec<i8>>)
        ensures
            r == (match self {
                Tag::ByteArray(v) => Some(v),
                _ => None,
            }),
    {
        if let Tag::ByteArray(n) = self {
            Some(n)
        } else {
            None
        }
    }

    /// The text, when this is a string.
    pub fn as_string(&self) -> (r: Option<&str>)
        ensures
            match self {
                Tag::String(s) => r is Some && r->0@ == s@,
                _ => r is None,
            },
    {
        if let Tag::String(n) = self {
            Some(n.as_str())
        } else {
            None
        }
    }

    /// The items, when this is a list.
    pub fn as_list(&self) -> (r: Option<&Vec<Tag>>)
        ensures
            r == (match self {
                Tag::List(v) => Some(v),
                _ => None,
            }),
    {
        if let Tag::List(n) = self {
            Some(n)
        } else {
            None
        }
    }

    /// The numbers, when this is an int array.
    pub fn as_i32_vec(&self) -> (r: Option<&Vec<i32>>)
        ensures
            r == (match self {
                Tag::IntArray(v) => Some(v),
                _ => None,
            }),
    {
        if let Tag::IntArray(n) = self {
            Some(n)
        } else {
            None
        }
    }

    /// The numbers, when this is a long array.
    pub fn as_i64_vec(&self) -> (r: Option<&Vec<i64>>)
        ensures
            r == (match self {
                Tag::LongArray(v) => Some(v),
                _ => None,
            }),
    {
        if let Tag::LongArray(n) = self {
            Some(n)
        } else {
            None
        }
    }
}

/// Why a byte stream is not a tag tree.
#[derive(Debug, Clone, Copy, PartialEq, Eq, Structural)]
pub enum NbtError {
    /// The stream ends inside a tag.
    UnexpectedEof,
    /// A tag id outside 1..=12 stands where a tag body is due.
    UnknownTag(u8),
    /// A name or a string is not well-formed UTF-8.
    InvalidUtf8,
}

/// A decoded item together with the position that follows it.
pub type Parsed<T> = Result<(T, int), NbtError>;

/// `n` bytes stand at `pos`.
pub open spec fn available(b: Seq<u8>, pos: int, n: int) -> bool {
    0 <= pos && 0 <= n && pos + n <= b.len()
}

/// The `n` bytes at `pos`.
pub open spec fn field(b: Seq<u8>, pos: int, n: int) -> Seq<u8> {
    b.subrange(pos, pos + n)
}

/// The signed 32-bit length prefix at `pos`.
pub open spec fn length_at(b: Seq<u8>, pos: int) -> int {
    signed32(be_u32(field(b, pos, 4)))
}

/// A length-prefixed text at `pos`: a big-endian `u16` byte count, then that
/// many bytes of UTF-8.
pub open spec fn text_at(b: Seq<u8>, pos: int) -> Parsed<Seq<char>> {
    if !available(b, pos, 2) {
        Err(NbtError::UnexpectedEof)
    } else {
        let n = be_u16(field(b, pos, 2));
        if !available(b, pos + 2, n) {
            Err(NbtError::UnexpectedEof)
        } else if !valid_utf8(field(b, pos + 2, n)) {
            Err(NbtError::InvalidUtf8)
        } else {
            Ok((decode_utf8(field(b, pos + 2, n)), pos + 2 + n))
        }
    }
}

/// Whether an array of elements of `width` bytes lies at `pos`: a signed
/// 32-bit count that is not negative, then that many elements.
pub open spec fn array_fits(b: Seq<u8>, pos: int, width: int) -> bool {
    available(b, pos, 4) && length_at(b, pos) >= 0 && available(
        b,
        pos + 4,
        length_at(b, pos) * width,
    )
}

/// The body of a tag of kind `id` at `pos`.
///
/// Numbers are big-endian. A list whose count is not positive has no items.
/// An array with a negative count asks for more bytes than any stream holds.
pub open spec fn payload_at(b: Seq<u8>, pos: int, id: u8) -> Parsed<TagValue>
    decreases b.len() - pos, 2int, 0int,
{
    if id == 1 {
        if available(b, pos, 1) {
            Ok((TagValue::Byte(signed8(b[pos] as int) as i8), pos + 1))
        } else {
            Err(NbtError::UnexpectedEof)
        }
    } else if id == 2 {
        if available(b, pos, 2) {
            Ok((TagValue::Short(signed16(be_u16(field(b, pos, 2))) as i16), pos + 2))
        } else {
            Err(NbtError::UnexpectedEof)
        }
    } else if id == 3 {
        if available(b, pos, 4) {
            Ok((TagValue::Int(signed32(be_u32(field(b, pos, 4))) as i32), pos + 4))
        } else {
            Err(NbtError::UnexpectedEof)
        }
    } else if id == 4 {
        if available(b, pos, 8) {
            Ok((TagValue::Long(signed64(be_u64(field(b, pos, 8))) as i64), pos + 8))
        } else {
            Err(NbtError::UnexpectedEof)
        }
    } else if id == 5 {
        if available(b, pos, 4) {
            Ok((TagValue::Float(be_u32(field(b, pos, 4)) as u32), pos + 4))
        } else {
            Err(NbtError::UnexpectedEof)
        }
    } else if id == 6 {
        if available(b, pos, 8) {
            Ok((TagValue::Double(be_u64(field(b, pos, 8)) as u64), pos + 8))
        } else {
            Err(NbtError::UnexpectedEof)
        }
    } else if id == 7 {
        if array_fits(b, pos, 1) {
            let n = length_at(b, pos);
            Ok(
                (
                    TagValue::ByteArray(
                        Seq::new(n as nat, |i: int| signed8(b[pos + 4 + i] as int) as i8),
                    ),
                    pos + 4 + n,
                ),
            )
        } else {
            Err(NbtError::UnexpectedEof)
        }
    } else if id == 8 {
        match text_at(b, pos) {
            Ok((text, end)) => Ok((TagValue::String(text), end)),
            Err(e) => Err(e),
        }
    } else if id == 9 {
        if available(b, pos, 5) {
            let count = length_at(b, pos + 1);
            match items_at(b, pos + 5, b[pos], if count > 0 {
                count as nat
            } else {
                0
            }, Seq::empty()) {
                Ok((items, end)) => Ok((TagValue::List(items), end)),
                Err(e) => Err(e),
            }
        } else {
            Err(NbtError::UnexpectedEof)
        }
    } else if id == 10 {
        match members_at(b, pos, Seq::empty(), false) {
            Ok((members, end)) => Ok((TagValue::Compound(members), end)),
            Err(e) => Err(e),
        }
    } else if id == 11 {
        if array_fits(b, pos, 4) {
            let n = length_at(b, pos);
            Ok(
                (
                    TagValue::IntArray(
                        Seq::new(
                            n as nat,
                            |i: int| signed32(be_u32(field(b, pos + 4 + 4 * i, 4))) as i32,
                        ),
                    ),
                    pos + 4 + 4 * n,
                ),
            )
        } else {
            Err(NbtError::UnexpectedEof)
        }
    } else if id == 12 {
        if array_fits(b, pos, 8) {
            let n = length_at(b, pos);
            Ok(
                (
                    TagValue::LongArray(
                        Seq::new(
                            n as nat,
                            |i: int| signed64(be_u64(field(b, pos + 4 + 8 * i, 8))) as i64,
                        ),
                    ),
                    pos + 4 + 8 * n,
                ),
            )
        } else {
            Err(NbtError::UnexpectedEof)
        }
    } else {
        Err(NbtError::UnknownTag(id))
    }
}

/// `count` more bodies of kind `id` from `pos` on, appended to `done`.
///
/// Every body takes up at least one byte, so the test on the position that
/// follows an item never fails; it makes the recursion well-founded.
pub open spec fn items_at(b: Seq<u8>, pos: int, id: u8, count: nat, done: Seq<TagValue>) -> Parsed<
    Seq<TagValue>,
>
    decreases b.len() - pos, 3int, count,
{
    if count == 0 {
        Ok((done, pos))
    } else {
        match payload_at(b, pos, id) {
            Ok((item, next)) => if pos < next <= b.len() {
                items_at(b, next, id, (count - 1) as nat, done.push(item))
            } else {
                Err(NbtError::UnexpectedEof)
            },
            Err(e) => Err(e),
        }
    }
}

/// Named tags from `pos` on, stored one after the other into `done`, up to
/// the terminating zero id.
///
/// The outermost level of a document (`root`) also ends where the stream
/// ends; inside the document a missing terminator is a truncation.
pub open spec fn members_at(b: Seq<u8>, pos: int, done: Members, root: bool) -> Parsed<Members>
    decreases b.len() - pos, 1int, 0int,
{
    if !available(b, pos, 1) {
        if root {
            Ok((done, pos))
        } else {
            Err(NbtError::UnexpectedEof)
        }
    } else if b[pos] == 0 {
        Ok((done, pos + 1))
    } else {
        match text_at(b, pos + 1) {
            Err(e) => Err(e),
            Ok((name, start)) => match payload_at(b, start, b[pos]) {
                Err(e) => Err(e),
                Ok((value, next)) => if pos < next <= b.len() {
                    members_at(b, next, with_member(done, name, value), root)
                } else {
                    Err(NbtError::UnexpectedEof)
                },
            },
        }
    }
}

/// The document that `b` holds from `pos` on: a compound of the named tags
/// found there.
pub open spec fn document_at(b: Seq<u8>, pos: int) -> Parsed<TagValue> {
    match members_at(b, pos, Seq::empty(), true) {
        Ok((members, end)) => Ok((TagValue::Compound(members), end)),
        Err(e) => Err(e),
    }
}


/// Every compound of the tree carries each of its names once.
pub open spec fn unique_names(v: TagValue) -> bool
    decreases v,
{
    match v {
        TagValue::List(items) => forall|i: int|
            0 <= i < items.len() ==> unique_names(#[trigger] items[i]),
        TagValue::Compound(members) => distinct_names(members) && forall|i: int|
            0 <= i < members.len() ==> unique_names((#[trigger] members[i]).1),
        _ => true,
    }
}

/// Every value of the sequence has unique names.
pub open spec fn all_unique(items: Seq<TagValue>) -> bool {
    forall|i: int| 0 <= i < items.len() ==> unique_names(#[trigger] items[i])
}

/// The members differ in their names, and their values have unique names.
pub open spec fn members_unique(members: Members) -> bool {
    distinct_names(members) && forall|i: int|
        0 <= i < members.len() ==> unique_names((#[trigger] members[i]).1)
}

/// In a decoded tag body every compound carries each of its names once.
pub proof fn lemma_decoded_names_unique(b: Seq<u8>, pos: int, id: u8)
    ensures
        payload_at(b, pos, id) matches Ok((value, _)) ==> unique_names(value),
    decreases b.len() - pos, 2int, 0int,
{
    if id == 9 {
        if available(b, pos, 5) {
            let count = length_at(b, pos + 1);
            lemma_items_unique(b, pos + 5, b[pos], if count > 0 {
                count as nat
            } else {
                0
            }, Seq::empty());
        }
    } else if id == 10 {
        lemma_members_unique(b, pos, Seq::empty(), false);
    }
}

/// Decoded items have unique names where those decoded before them have.
proof fn lemma_items_unique(b: Seq<u8>, pos: int, id: u8, count: nat, done: Seq<TagValue>)
    requires
        all_unique(done),
    ensures
        items_at(b, pos, id, count, done) matches Ok((items, _)) ==> all_unique(items),
    decreases b.len() - pos, 3int, count,
{
    if count > 0 {
        lemma_decoded_names_unique(b, pos, id);
        match payload_at(b, pos, id) {
            Ok((item, next)) => {
                if pos < next <= b.len() {
                    assert forall|i: int| 0 <= i < done.push(item).len() implies unique_names(
                        #[trigger] done.push(item)[i],
                    ) by {
                        if i < done.len() {
                            assert(done.push(item)[i] == done[i]);
                        }
                    }
                    lemma_items_unique(b, next, id, (count - 1) as nat, done.push(item));
                }
            },
            Err(_) => {},
        }
    }
}

/// Decoded members differ in their names where those decoded before them do.
proof fn lemma_members_unique(b: Seq<u8>, pos: int, done: Members, root: bool)
    requires
        members_unique(done),
    ensures
        members_at(b, pos, done, root) matches Ok((members, _)) ==> members_unique(members),
    decreases b.len() - pos, 1int, 0int,
{
    if available(b, pos, 1) && b[pos] != 0 {
        match text_at(b, pos + 1) {
            Err(_) => {},
            Ok((name, start)) => {
                lemma_decoded_names_unique(b, start, b[pos]);
                match payload_at(b, start, b[pos]) {
                    Err(_) => {},
                    Ok((value, next)) => {
                        if pos < next <= b.len() {
                            let after = with_member(done, name, value);
                            lemma_with_member_distinct(done, name, value);
                            lemma_member_index(done, name);
                            assert forall|i: int| 0 <= i < after.len() implies unique_names(
                                (#[trigger] after[i]).1,
                            ) by {
                                if i != member_index(done, name) {
                                    assert(after[i] == done[i]);
                                }
                            }
                            lemma_members_unique(b, next, after, root);
                        }
                    },
                }
            },
        }
    }
}

/// In a decoded document every compound carries each of its names once.
pub proof fn lemma_document_names_unique(b: Seq<u8>, pos: int)
    ensures
        document_at(b, pos) matches Ok((value, _)) ==> unique_names(value),
{
    lemma_members_unique(b, pos, Seq::empty(), true);
}

/// What a reader hands back: the decoded item and the position after it.
pub type Step<T> = Result<(T, usize), NbtError>;

/// `r` is the executable form of `expected`, and a successful step moves
/// forward from `pos` without leaving the `len` bytes of the stream.
pub open spec fn tag_step(r: Step<Tag>, expected: Parsed<TagValue>, pos: usize, len: nat) -> bool {
    match expected {
        Ok((value, end)) => r matches Ok((tag, next)) && tag@ == value && next == end && pos < next
            <= len,
        Err(e) => r matches Err(found) && found == e,
    }
}

/// The signed reading of one byte.
fn byte_to_i8(x: u8) -> (r: i8)
    ensures
        r as int == signed8(x as int),
{
    if x >= 128 {
        (x as i16 - 256) as i8
    } else {
        x as i8
    }
}

/// The `n` bytes at `pos`, when the stream holds them.
fn window(bytes: &[u8], pos: usize, n: usize) -> (r: Option<&[u8]>)
    ensures
        r is Some <==> available(bytes@, pos as int, n as int),
        r matches Some(w) ==> w@ == field(bytes@, pos as int, n as int),
        bytes@.len() <= usize::MAX,
{
    if pos <= bytes.len() && n <= bytes.len() - pos {
        Some(slice_subrange(bytes, pos, pos + n))
    } else {
        None
    }
}

/// Reads the count of an array of elements of `width` bytes and checks that
/// the stream holds all of them.
fn read_array_len(bytes: &[u8], pos: usize, width: u64) -> (r: Option<usize>)
    requires
        1 <= width <= 8,
    ensures
        r is Some <==> array_fits(bytes@, pos as int, width as int),
        r matches Some(n) ==> n == length_at(bytes@, pos as int),
        bytes@.len() <= usize::MAX,
{
    match window(bytes, pos, 4) {
        None => None,
        Some(w) => {
            let n: i32 = read_be_i32(w);
            if n < 0 {
                None
            } else {
                let room: u64 = (bytes.len() - (pos + 4)) as u64;
                assert(0 <= (n as int) * (width as int) <= 0x4_0000_0000) by (nonlinear_arith)
                    requires
                        0 <= n <= 0x7fff_ffff,
                        1 <= width <= 8,
                ;
                if (n as u64) * width <= room {
                    Some(n as usize)
                } else {
                    None
                }
            }
        },
    }
}

/// A tag-stream reader over a byte buffer held in memory.
pub struct NBTParser {
    bytes: Vec<u8>,
    pos: usize,
}

impl NBTParser {
    /// The whole buffer.
    pub closed spec fn data(&self) -> Seq<u8> {
        self.bytes@
    }

    /// Where the next read starts.
    pub closed spec fn position(&self) -> int {
        self.pos as int
    }

    /// A reader at the start of `bytes`.
    pub fn new(bytes: Vec<u8>) -> (parser: NBTParser)
        ensures
            parser.data() == bytes@,
            parser.position() == 0,
    {
        NBTParser { bytes, pos: 0 }
    }

    /// Reads the body of a tag of kind `id` at the current position.
    ///
    /// On success the reader stands behind the body; on failure it has not
    /// moved.
    pub fn read_id(&mut self, id: u8) -> (r: Result<Tag, NbtError>)
        ensures
            final(self).data() == old(self).data(),
            match payload_at(old(self).data(), old(self).position(), id) {
                Ok((value, end)) => r matches Ok(tag) && tag@ == value && final(self).position()
                    == end,
                Err(e) => r matches Err(found) && found == e && final(self).position() == old(
                    self,
                ).position(),
            },
    {
        match Self::read_payload(self.bytes.as_slice(), self.pos, id) {
            Ok((tag, next)) => {
                self.pos = next;
                Ok(tag)
            },
            Err(e) => Err(e),
        }
    }

    /// Reads a document at the current position: named tags up to a zero id or
    /// the end of the buffer, gathered into one compound.
    ///
    /// On success the reader stands behind the document; on failure it has not
    /// moved.
    pub fn read_compound(&mut self) -> (r: Result<Tag, NbtError>)
        ensures
            final(self).data() == old(self).data(),
            match document_at(old(self).data(), old(self).position()) {
                Ok((value, end)) => r matches Ok(tag) && tag@ == value && final(self).position()
                    == end,
                Err(e) => r matches Err(found) && found == e && final(self).position() == old(
                    self,
                ).position(),
            },
    {
        match Self::read_members(self.bytes.as_slice(), self.pos, true) {
            Ok((members, next)) => {
                self.pos = next;
                Ok(Tag::Compound(members))
            },
            Err(e) => Err(e),
        }
    }

    fn read_payload(bytes: &[u8], pos: usize, id: u8) -> (r: Step<Tag>)
        ensures
            tag_step(r, payload_at(bytes@, pos as int, id), pos, bytes@.len()),
        decreases bytes@.len() - pos, 1int,
    {
        match id {
            1 => Self::read_byte(bytes, pos),
            2 => Self::read_short(bytes, pos),
            3 => Self::read_int(bytes, pos),
            4 => Self::read_long(bytes, pos),
            5 => Self::read_float(bytes, pos),
            6 => Self::read_double(bytes, pos),
            7 => Self::read_byte_array(bytes, pos),
            8 => Self::read_string(bytes, pos),
            9 => Self::read_list(bytes, pos),
            10 => match Self::read_members(bytes, pos, false) {
                Ok((members, next)) => Ok((Tag::Compound(members), next)),
                Err(e) => Err(e),
            },
            11 => Self::read_int_array(bytes, pos),
            12 => Self::read_long_array(bytes, pos),
            _ => Err(NbtError::UnknownTag(id)),
        }
    }

    fn read_members(bytes: &[u8], pos: usize, root: bool) -> (r: Step<Compound>)
        ensures
            match members_at(bytes@, pos as int, Seq::empty(), root) {
                Ok((members, end)) => r matches Ok((c, next)) && c@ == members && next == end && (
                root || pos < next <= bytes@.len()),
                Err(e) => r matches Err(found) && found == e,
            },
        decreases bytes@.len() - pos, 0int,
    {
        let mut comp = Compound::new();
        let mut cur: usize = pos;
        loop
            invariant
                pos <= cur,
                members_at(bytes@, pos as int, Seq::empty(), root) == members_at(
                    bytes@,
                    cur as int,
                    comp@,
                    root,
                ),
            decreases bytes@.len() - cur,
        {
            if cur >= bytes.len() {
                if root {
                    return Ok((comp, cur));
                } else {
                    return Err(NbtError::UnexpectedEof);
                }
            }
            let id: u8 = bytes[cur];
            if id == 0 {
                return Ok((comp, cur + 1));
            }
            let (name, start) = match Self::read_name(bytes, cur + 1) {
                Ok(pair) => pair,
                Err(e) => {
                    return Err(e);
                },
            };
            let (tag, next) = match Self::read_payload(bytes, start, id) {
                Ok(pair) => pair,
                Err(e) => {
                    return Err(e);
                },
            };
            comp.insert(name, tag);
            cur = next;
        }
    }

    fn read_name(bytes: &[u8], pos: usize) -> (r: Step<String>)
        ensures
            match text_at(bytes@, pos as int) {
                Ok((text, end)) => r matches Ok((s, next)) && s@ == text && next == end && pos
                    < next <= bytes@.len(),
                Err(e) => r matches Err(found) && found == e,
            },
    {
        let n: usize = match window(bytes, pos, 2) {
            Some(w) => read_be_u16(w) as usize,
            None => {
                return Err(NbtError::UnexpectedEof);
            },
        };
        let raw = match window(bytes, pos + 2, n) {
            Some(w) => vstd::slice::slice_to_vec(w),
            None => {
                return Err(NbtError::UnexpectedEof);
            },
        };
        match string_from_utf8(raw) {
            Some(name) => Ok((name, pos + 2 + n)),
            None => Err(NbtError::InvalidUtf8),
        }
    }

    fn read_byte(bytes: &[u8], pos: usize) -> (r: Step<Tag>)
        ensures
            tag_step(r, payload_at(bytes@, pos as int, 1), pos, bytes@.len()),
    {
        match window(bytes, pos, 1) {
            Some(w) => Ok((Tag::Byte(byte_to_i8(w[0])), pos + 1)),
            None => Err(NbtError::UnexpectedEof),
        }
    }

    fn read_short(bytes: &[u8], pos: usize) -> (r: Step<Tag>)
        ensures
            tag_step(r, payload_at(bytes@, pos as int, 2), pos, bytes@.len()),
    {
        match window(bytes, pos, 2) {
            Some(w) => Ok((Tag::Short(read_be_i16(w)), pos + 2)),
            None => Err(NbtError::UnexpectedEof),
        }
    }

    fn read_int(bytes: &[u8], pos: usize) -> (r: Step<Tag>)
        ensures
            tag_step(r, payload_at(bytes@, pos as int, 3), pos, bytes@.len()),
    {
        match window(bytes, pos, 4) {
            Some(w) => Ok((Tag::Int(read_be_i32(w)), pos + 4)),
            None => Err(NbtError::UnexpectedEof),
        }
    }

    fn read_long(bytes: &[u8], pos: usize) -> (r: Step<Tag>)
        ensures
            tag_step(r, payload_at(bytes@, pos as int, 4), pos, bytes@.len()),
    {
        match window(bytes, pos, 8) {
            Some(w) => Ok((Tag::Long(read_be_i64(w)), pos + 8)),
            None => Err(NbtError::UnexpectedEof),
        }
    }

    fn read_float(bytes: &[u8], pos: usize) -> (r: Step<Tag>)
        ensures
            tag_step(r, payload_at(bytes@, pos as int, 5), pos, bytes@.len()),
    {
        match window(bytes, pos, 4) {
            Some(w) => Ok((Tag::Float(read_be_u32(w)), pos + 4)),
            None => Err(NbtError::UnexpectedEof),
        }
    }

    fn read_double(bytes: &[u8], pos: usize) -> (r: Step<Tag>)
        ensures
            tag_step(r, payload_at(bytes@, pos as int, 6), pos, bytes@.len()),
    {
        match window(bytes, pos, 8) {
            Some(w) => Ok((Tag::Double(read_be_u64(w)), pos + 8)),
            None => Err(NbtError::UnexpectedEof),
        }
    }

    fn read_byte_array(bytes: &[u8], pos: usize) -> (r: Step<Tag>)
        ensures
            tag_step(r, payload_at(bytes@, pos as int, 7), pos, bytes@.len()),
    {
        let length: usize = match read_array_len(bytes, pos, 1) {
            Some(n) => n,
            None => {
                return Err(NbtError::UnexpectedEof);
            },
        };
        let mut items: Vec<i8> = Vec::new();
        let mut i: usize = 0;
        while i < length
            invariant
                i <= length,
                pos + 4 + length <= bytes@.len() <= usize::MAX,
                items@ == Seq::new(i as nat, |k: int| signed8(bytes@[pos + 4 + k] as int) as i8),
            decreases length - i,
        {
            items.push(byte_to_i8(bytes[pos + 4 + i]));
            i += 1;
        }
        Ok((Tag::ByteArray(items), pos + 4 + length))
    }

    fn read_string(bytes: &[u8], pos: usize) -> (r: Step<Tag>)
        ensures
            tag_step(r, payload_at(bytes@, pos as int, 8), pos, bytes@.len()),
    {
        match Self::read_name(bytes, pos) {
            Ok((text, next)) => Ok((Tag::String(text), next)),
            Err(e) => Err(e),
        }
    }

    fn read_list(bytes: &[u8], pos: usize) -> (r: Step<Tag>)
        ensures
            tag_step(r, payload_at(bytes@, pos as int, 9), pos, bytes@.len()),
        decreases bytes@.len() - pos, 0int,
    {
        let (id, length) = match window(bytes, pos, 5) {
            Some(w) => (w[0], read_be_i32(slice_subrange(w, 1, 5))),
            None => {
                return Err(NbtError::UnexpectedEof);
            },
        };
        let total: usize = if length > 0 {
            length as usize
        } else {
            0
        };
        let mut tags: Vec<Tag> = Vec::new();
        assert(tag_values(tags@) =~= Seq::empty());
        let mut cur: usize = pos + 5;
        let mut done: usize = 0;
        while done < total
            invariant
                done <= total,
                pos < cur <= bytes@.len(),
                payload_at(bytes@, pos as int, 9) == (match items_at(
                    bytes@,
                    pos + 5,
                    id,
                    total as nat,
                    Seq::empty(),
                ) {
                    Ok((items, end)) => Ok::<(TagValue, int), NbtError>((TagValue::List(items), end)),
                    Err(e) => Err(e),
                }),
                items_at(bytes@, pos + 5, id, total as nat, Seq::empty()) == items_at(
                    bytes@,
                    cur as int,
                    id,
                    (total - done) as nat,
                    tag_values(tags@),
                ),
            decreases total - done,
        {
            let (tag, next) = match Self::read_payload(bytes, cur, id) {
                Ok(pair) => pair,
                Err(e) => {
                    return Err(e);
                },
            };
            assert(tag_values(tags@.push(tag)) =~= tag_values(tags@).push(tag@));
            tags.push(tag);
            cur = next;
            done += 1;
        }
        proof {
            lemma_list_view(tags);
        }
        Ok((Tag::List(tags), cur))
    }

    fn read_int_array(bytes: &[u8], pos: usize) -> (r: Step<Tag>)
        ensures
            tag_step(r, payload_at(bytes@, pos as int, 11), pos, bytes@.len()),
    {
        let length: usize = match read_array_len(bytes, pos, 4) {
            Some(n) => n,
            None => {
                return Err(NbtError::UnexpectedEof);
            },
        };
        let mut items: Vec<i32> = Vec::new();
        let mut i: usize = 0;
        while i < length
            invariant
                i <= length,
                pos + 4 + 4 * length <= bytes@.len() <= usize::MAX,
                items@ == Seq::new(
                    i as nat,
                    |k: int| signed32(be_u32(field(bytes@, pos + 4 + 4 * k, 4))) as i32,
                ),
            decreases length - i,
        {
            let w = slice_subrange(bytes, pos + 4 + 4 * i, pos + 4 + 4 * i + 4);
            items.push(read_be_i32(w));
            i += 1;
        }
        Ok((Tag::IntArray(items), pos + 4 + 4 * length))
    }

    fn read_long_array(bytes: &[u8], pos: usize) -> (r: Step<Tag>)
        ensures
            tag_step(r, payload_at(bytes@, pos as int, 12), pos, bytes@.len()),
    {
        let length: usize = match read_array_len(bytes, pos, 8) {
            Some(n) => n,
            None => {
                return Err(NbtError::UnexpectedEof);
            },
        };
        let mut items: Vec<i64> = Vec::new();
        let mut i: usize = 0;
        while i < length
            invariant
                i <= length,
                pos + 4 + 8 * length <= bytes@.len() <= usize::MAX,
                items@ == Seq::new(
                    i as nat,
                    |k: int| signed64(be_u64(field(bytes@, pos + 4 + 8 * k, 8))) as i64,
                ),
            decreases length - i,
        {
            let w = slice_subrange(bytes, pos + 4 + 8 * i, pos + 4 + 8 * i + 8);
            items.push(read_be_i64(w));
            i += 1;
        }
        Ok((Tag::LongArray(items), pos + 4 + 8 * length))
    }
}

} // verus!
