use region_map::nbt::{Compound, NBTParser, NbtError, Tag};

fn named(id: u8, name: &str, body: &[u8]) -> Vec<u8> {
    let mut out = vec![id];
    out.extend_from_slice(&(name.len() as u16).to_be_bytes());
    out.extend_from_slice(name.as_bytes());
    out.extend_from_slice(body);
    out
}

fn text(s: &str) -> Vec<u8> {
    let mut out = (s.len() as u16).to_be_bytes().to_vec();
    out.extend_from_slice(s.as_bytes());
    out
}

fn write_payload(tag: &Tag, out: &mut Vec<u8>) {
    match tag {
        Tag::Byte(n) => out.push(*n as u8),
        Tag::Short(n) => out.extend_from_slice(&n.to_be_bytes()),
        Tag::Int(n) => out.extend_from_slice(&n.to_be_bytes()),
        Tag::Long(n) => out.extend_from_slice(&n.to_be_bytes()),
        Tag::Float(n) => out.extend_from_slice(&n.to_be_bytes()),
        Tag::Double(n) => out.extend_from_slice(&n.to_be_bytes()),
        Tag::ByteArray(a) => {
            out.extend_from_slice(&(a.len() as i32).to_be_bytes());
            for b in a {
                out.push(*b as u8);
            }
        }
        Tag::String(s) => out.extend_from_slice(&text(s)),
        Tag::List(items) => {
            out.push(if items.is_empty() { 0 } else { id_of(&items[0]) });
            out.extend_from_slice(&(items.len() as i32).to_be_bytes());
            for item in items {
                write_payload(item, out);
            }
        }
        Tag::Compound(c) => write_members(c, out),
        Tag::IntArray(a) => {
            out.extend_from_slice(&(a.len() as i32).to_be_bytes());
            for n in a {
                out.extend_from_slice(&n.to_be_bytes());
            }
        }
        Tag::LongArray(a) => {
            out.extend_from_slice(&(a.len() as i32).to_be_bytes());
            for n in a {
                out.extend_from_slice(&n.to_be_bytes());
            }
        }
    }
}

fn write_members(c: &Compound, out: &mut Vec<u8>) {
    for i in 0..c.len() {
        out.push(id_of(c.tag_at(i)));
        out.extend_from_slice(&text(c.name_at(i)));
        write_payload(c.tag_at(i), out);
    }
    out.push(0);
}

fn id_of(tag: &Tag) -> u8 {
    match tag {
        Tag::Byte(_) => 1,
        Tag::Short(_) => 2,
        Tag::Int(_) => 3,
        Tag::Long(_) => 4,
        Tag::Float(_) => 5,
        Tag::Double(_) => 6,
        Tag::ByteArray(_) => 7,
        Tag::String(_) => 8,
        Tag::List(_) => 9,
        Tag::Compound(_) => 10,
        Tag::IntArray(_) => 11,
        Tag::LongArray(_) => 12,
    }
}

fn parse(bytes: Vec<u8>) -> Result<Tag, NbtError> {
    NBTParser::new(bytes).read_compound()
}

fn single(bytes: Vec<u8>, name: &str) -> Tag {
    let root = parse(bytes).unwrap();
    let comp = root.as_compound().unwrap();
    assert_eq!(comp.len(), 1);
    assert_eq!(comp.name_at(0), name);
    copy(comp.get(name).unwrap())
}

fn copy(tag: &Tag) -> Tag {
    match tag {
        Tag::Byte(n) => Tag::Byte(*n),
        Tag::Short(n) => Tag::Short(*n),
        Tag::Int(n) => Tag::Int(*n),
        Tag::Long(n) => Tag::Long(*n),
        Tag::Float(n) => Tag::Float(*n),
        Tag::Double(n) => Tag::Double(*n),
        Tag::ByteArray(a) => Tag::ByteArray(a.clone()),
        Tag::String(s) => Tag::String(s.clone()),
        Tag::List(items) => Tag::List(items.iter().map(copy).collect()),
        Tag::Compound(c) => {
            let mut out = Compound::new();
            for i in 0..c.len() {
                out.insert(String::from(c.name_at(i)), copy(c.tag_at(i)));
            }
            Tag::Compound(out)
        }
        Tag::IntArray(a) => Tag::IntArray(a.clone()),
        Tag::LongArray(a) => Tag::LongArray(a.clone()),
    }
}

#[test]
fn byte_is_read_as_signed() {
    assert_eq!(single(named(1, "b", &[0x7f]), "b"), Tag::Byte(127));
    assert_eq!(single(named(1, "b", &[0x80]), "b"), Tag::Byte(-128));
    assert_eq!(single(named(1, "b", &[0xff]), "b"), Tag::Byte(-1));
}

#[test]
fn short_is_big_endian() {
    assert_eq!(single(named(2, "s", &[0x01, 0x02]), "s"), Tag::Short(0x0102));
    assert_eq!(single(named(2, "s", &[0xff, 0xfe]), "s"), Tag::Short(-2));
    assert_eq!(single(named(2, "s", &[0x80, 0x00]), "s"), Tag::Short(i16::MIN));
}

#[test]
fn int_is_big_endian() {
    assert_eq!(single(named(3, "i", &[0x01, 0x02, 0x03, 0x04]), "i"), Tag::Int(0x01020304));
    assert_eq!(single(named(3, "i", &[0xff, 0xff, 0xff, 0xff]), "i"), Tag::Int(-1));
    assert_eq!(single(named(3, "i", &[0x80, 0, 0, 0]), "i"), Tag::Int(i32::MIN));
}

#[test]
fn long_is_big_endian() {
    assert_eq!(
        single(named(4, "l", &[1, 2, 3, 4, 5, 6, 7, 8]), "l"),
        Tag::Long(0x0102030405060708)
    );
    assert_eq!(single(named(4, "l", &[0xff; 8]), "l"), Tag::Long(-1));
    assert_eq!(single(named(4, "l", &[0x80, 0, 0, 0, 0, 0, 0, 0]), "l"), Tag::Long(i64::MIN));
}

#[test]
fn floats_keep_their_bit_pattern() {
    let f = 1.5f32;
    let d = -2.25f64;
    assert_eq!(single(named(5, "f", &f.to_be_bytes()), "f"), Tag::Float(f.to_bits()));
    assert_eq!(single(named(6, "d", &d.to_be_bytes()), "d"), Tag::Double(d.to_bits()));
    match single(named(5, "f", &f.to_be_bytes()), "f") {
        Tag::Float(bits) => assert_eq!(f32::from_bits(bits), 1.5f32),
        _ => panic!("not a float"),
    }
}

#[test]
fn byte_array_is_read() {
    let body = [0, 0, 0, 3, 1, 0xff, 0x80];
    assert_eq!(single(named(7, "a", &body), "a"), Tag::ByteArray(vec![1, -1, -128]));
}

#[test]
fn string_is_read() {
    let body = text("héllo");
    assert_eq!(single(named(8, "s", &body), "s"), Tag::String(String::from("héllo")));
}

#[test]
fn int_and_long_arrays_are_read() {
    let ints = [0, 0, 0, 2, 0, 0, 0, 1, 0xff, 0xff, 0xff, 0xfe];
    assert_eq!(single(named(11, "i", &ints), "i"), Tag::IntArray(vec![1, -2]));
    let mut longs = vec![0, 0, 0, 2];
    longs.extend_from_slice(&5i64.to_be_bytes());
    longs.extend_from_slice(&(-7i64).to_be_bytes());
    assert_eq!(single(named(12, "l", &longs), "l"), Tag::LongArray(vec![5, -7]));
}

#[test]
fn list_holds_unnamed_bodies() {
    let body = [2, 0, 0, 0, 3, 0, 1, 0, 2, 0xff, 0xff];
    assert_eq!(
        single(named(9, "l", &body), "l"),
        Tag::List(vec![Tag::Short(1), Tag::Short(2), Tag::Short(-1)])
    );
}

#[test]
fn empty_list_may_announce_the_end_id() {
    let body = [0, 0, 0, 0, 0];
    assert_eq!(single(named(9, "l", &body), "l"), Tag::List(vec![]));
}

#[test]
fn list_with_negative_count_is_empty() {
    let body = [1, 0xff, 0xff, 0xff, 0xff];
    assert_eq!(single(named(9, "l", &body), "l"), Tag::List(vec![]));
}

#[test]
fn nested_compound_is_read() {
    let mut inner = named(1, "a", &[5]);
    inner.extend_from_slice(&named(8, "b", &text("x")));
    inner.push(0);
    let root = parse(named(10, "", &inner)).unwrap();
    let level = root.as_compound().unwrap().get("").unwrap().as_compound().unwrap();
    assert_eq!(level.len(), 2);
    assert_eq!(level.get("a"), Some(&Tag::Byte(5)));
    assert_eq!(level.get("b").unwrap().as_string(), Some("x"));
    assert_eq!(level.get("c"), None);
}

#[test]
fn document_ends_at_the_end_of_the_buffer() {
    let root = parse(named(1, "a", &[1])).unwrap();
    assert_eq!(root.as_compound().unwrap().len(), 1);
    let empty = parse(vec![]).unwrap();
    assert_eq!(empty.as_compound().unwrap().len(), 0);
}

#[test]
fn document_ends_at_a_zero_id() {
    let mut bytes = named(1, "a", &[1]);
    bytes.push(0);
    bytes.extend_from_slice(&named(1, "b", &[2]));
    let mut parser = NBTParser::new(bytes);
    let root = parser.read_compound().unwrap();
    let comp = root.as_compound().unwrap();
    assert_eq!(comp.len(), 1);
    assert_eq!(comp.get("a"), Some(&Tag::Byte(1)));
    let rest = parser.read_compound().unwrap();
    assert_eq!(rest.as_compound().unwrap().get("b"), Some(&Tag::Byte(2)));
}

#[test]
fn nested_compound_without_terminator_is_truncated() {
    let inner = named(1, "a", &[5]);
    assert_eq!(parse(named(10, "", &inner)), Err(NbtError::UnexpectedEof));
}

#[test]
fn truncated_bodies_are_errors() {
    assert_eq!(parse(named(2, "s", &[1])), Err(NbtError::UnexpectedEof));
    assert_eq!(parse(named(3, "i", &[1, 2, 3])), Err(NbtError::UnexpectedEof));
    assert_eq!(parse(named(4, "l", &[1, 2, 3, 4, 5, 6, 7])), Err(NbtError::UnexpectedEof));
    assert_eq!(parse(named(7, "a", &[0, 0, 0, 2, 1])), Err(NbtError::UnexpectedEof));
    assert_eq!(parse(named(8, "s", &[0, 5, b'a'])), Err(NbtError::UnexpectedEof));
    assert_eq!(parse(named(9, "l", &[1, 0, 0, 0, 2, 1])), Err(NbtError::UnexpectedEof));
    assert_eq!(parse(named(11, "i", &[0, 0, 0, 1, 0, 0])), Err(NbtError::UnexpectedEof));
    assert_eq!(parse(named(12, "l", &[0, 0, 0, 1, 0, 0, 0, 0])), Err(NbtError::UnexpectedEof));
    assert_eq!(parse(vec![1, 0]), Err(NbtError::UnexpectedEof));
    assert_eq!(parse(vec![1, 0, 3, b'a']), Err(NbtError::UnexpectedEof));
}

#[test]
fn negative_array_length_is_truncated() {
    assert_eq!(parse(named(7, "a", &[0xff, 0xff, 0xff, 0xff])), Err(NbtError::UnexpectedEof));
    assert_eq!(parse(named(11, "a", &[0x80, 0, 0, 0])), Err(NbtError::UnexpectedEof));
    assert_eq!(parse(named(12, "a", &[0xff, 0, 0, 0])), Err(NbtError::UnexpectedEof));
}

#[test]
fn unknown_tag_id_is_an_error() {
    assert_eq!(parse(named(13, "x", &[0])), Err(NbtError::UnknownTag(13)));
    assert_eq!(parse(named(9, "l", &[0, 0, 0, 0, 1])), Err(NbtError::UnknownTag(0)));
    assert_eq!(parse(named(9, "l", &[200, 0, 0, 0, 1, 0])), Err(NbtError::UnknownTag(200)));
}

#[test]
fn invalid_utf8_is_an_error() {
    assert_eq!(parse(vec![1, 0, 1, 0xff, 0]), Err(NbtError::InvalidUtf8));
    assert_eq!(parse(named(8, "s", &[0, 2, 0xc3, 0x28])), Err(NbtError::InvalidUtf8));
}

#[test]
fn later_member_replaces_an_earlier_one_of_the_same_name() {
    let mut bytes = named(1, "a", &[1]);
    bytes.extend_from_slice(&named(1, "b", &[2]));
    bytes.extend_from_slice(&named(3, "a", &[0, 0, 0, 9]));
    let root = parse(bytes).unwrap();
    let comp = root.as_compound().unwrap();
    assert_eq!(comp.len(), 2);
    assert_eq!(comp.name_at(0), "a");
    assert_eq!(comp.get("a"), Some(&Tag::Int(9)));
    assert_eq!(comp.name_at(1), "b");
}

#[test]
fn read_id_reads_one_body_and_moves_on() {
    let mut parser = NBTParser::new(vec![0, 7, 0, 0, 0, 9]);
    assert_eq!(parser.read_id(2), Ok(Tag::Short(7)));
    assert_eq!(parser.read_id(3), Ok(Tag::Int(9)));
    assert_eq!(parser.read_id(1), Err(NbtError::UnexpectedEof));
}

#[test]
fn failed_read_leaves_the_reader_in_place() {
    let mut parser = NBTParser::new(vec![0, 7, 0, 8]);
    assert_eq!(parser.read_id(4), Err(NbtError::UnexpectedEof));
    assert_eq!(parser.read_id(99), Err(NbtError::UnknownTag(99)));
    assert_eq!(parser.read_id(2), Ok(Tag::Short(7)));
    assert_eq!(parser.read_id(2), Ok(Tag::Short(8)));
}

#[test]
fn accessors_tell_the_kinds_apart() {
    let b = Tag::Byte(1);
    assert_eq!(b.as_i8(), Some(&1));
    assert_eq!(b.as_i16(), None);
    assert_eq!(b.as_i32(), None);
    assert_eq!(b.as_i64(), None);
    assert_eq!(b.as_string(), None);
    assert!(b.as_list().is_none());
    assert!(b.as_compound().is_none());
    assert_eq!(b.as_i8_vec(), None);
    assert_eq!(b.as_i32_vec(), None);
    assert_eq!(b.as_i64_vec(), None);
    assert_eq!(Tag::Short(2).as_i16(), Some(&2));
    assert_eq!(Tag::Int(3).as_i32(), Some(&3));
    assert_eq!(Tag::Long(4).as_i64(), Some(&4));
    assert_eq!(Tag::ByteArray(vec![1]).as_i8_vec(), Some(&vec![1i8]));
    assert_eq!(Tag::String(String::from("s")).as_string(), Some("s"));
    assert_eq!(Tag::List(vec![Tag::Byte(1)]).as_list(), Some(&vec![Tag::Byte(1)]));
    assert_eq!(Tag::IntArray(vec![1]).as_i32_vec(), Some(&vec![1i32]));
    assert_eq!(Tag::LongArray(vec![1]).as_i64_vec(), Some(&vec![1i64]));
    assert_eq!(Tag::Compound(Compound::new()).as_compound().map(|c| c.len()), Some(0));
    assert_eq!(Tag::Short(2).as_i8(), None);
}

#[test]
fn compound_insert_replaces_in_place() {
    let mut c = Compound::new();
    c.insert(String::from("a"), Tag::Byte(1));
    c.insert(String::from("b"), Tag::Byte(2));
    c.insert(String::from("a"), Tag::Byte(3));
    assert_eq!(c.len(), 2);
    assert_eq!(c.name_at(0), "a");
    assert_eq!(c.tag_at(0), &Tag::Byte(3));
    assert_eq!(c.name_at(1), "b");
    assert_eq!(c.get("b"), Some(&Tag::Byte(2)));
    assert_eq!(c.get("z"), None);
}

#[test]
fn written_tree_is_read_back() {
    let mut props = Compound::new();
    props.insert(String::from("facing"), Tag::String(String::from("north")));
    props.insert(String::from("lit"), Tag::String(String::from("false")));
    let mut block = Compound::new();
    block.insert(String::from("Name"), Tag::String(String::from("minecraft:furnace")));
    block.insert(String::from("Properties"), Tag::Compound(props));
    let mut tree = Compound::new();
    tree.insert(String::from("byte"), Tag::Byte(-5));
    tree.insert(String::from("short"), Tag::Short(-300));
    tree.insert(String::from("int"), Tag::Int(i32::MAX));
    tree.insert(String::from("long"), Tag::Long(i64::MIN + 1));
    tree.insert(String::from("float"), Tag::Float(0.1f32.to_bits()));
    tree.insert(String::from("double"), Tag::Double(1e300f64.to_bits()));
    tree.insert(String::from("bytes"), Tag::ByteArray(vec![-1, 0, 1]));
    tree.insert(String::from("ints"), Tag::IntArray(vec![i32::MIN, 0, 7]));
    tree.insert(String::from("longs"), Tag::LongArray(vec![i64::MAX, -1]));
    tree.insert(String::from("empty"), Tag::List(vec![]));
    tree.insert(
        String::from("lists"),
        Tag::List(vec![Tag::List(vec![Tag::Byte(1)]), Tag::List(vec![])]),
    );
    tree.insert(String::from("palette"), Tag::List(vec![Tag::Compound(block)]));
    let mut bytes = Vec::new();
    write_members(&tree, &mut bytes);
    let copy_of_tree = copy(&Tag::Compound(tree));
    assert_eq!(parse(bytes.clone()), Ok(copy_of_tree));
    // without the terminator the document ends with the buffer
    bytes.pop();
    let again = parse(bytes).unwrap();
    assert_eq!(again.as_compound().unwrap().len(), 12);
}
