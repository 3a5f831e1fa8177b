//! Small helpers on strings.

use vstd::prelude::*;

verus! {

/// `str::eq` of std: whether two string slices hold the same characters.
#[verifier::external_body]
pub(crate) fn str_eq(a: &str, b: &str) -> (r: bool)
    ensures
        r == (a@ == b@),
{
    a == b
}

/// `String::from_utf8` of std: the text that `bytes` encodes, or `None` when
/// `bytes` is not well-formed UTF-8.
#[verifier::external_body]
pub(crate) fn string_from_utf8(bytes: Vec<u8>) -> (r: Option<String>)
    ensures
        r is Some <==> vstd::utf8::valid_utf8(bytes@),
        r matches Some(s) ==> s@ == vstd::utf8::decode_utf8(bytes@),
{
    match String::from_utf8(bytes) {
        Ok(s) => Some(s),
        Err(_) => None,
    }
}


/// The character sequences of a sequence of strings.
pub open spec fn texts(parts: Seq<String>) -> Seq<Seq<char>> {
    Seq::new(parts.len(), |i: int| parts[i]@)
}

/// `key`, an equals sign, `value`.
pub open spec fn key_value(key: Seq<char>, value: Seq<char>) -> Seq<char> {
    key + seq!['='] + value
}

/// The parts with a comma between each two neighbours.
pub open spec fn comma_joined(parts: Seq<Seq<char>>) -> Seq<char>
    decreases parts.len(),
{
    if parts.len() == 0 {
        Seq::empty()
    } else if parts.len() == 1 {
        parts[0]
    } else {
        comma_joined(parts.drop_last()) + seq![','] + parts.last()
    }
}

/// Builds the text `key=value`.
pub fn make_key_value(key: &str, value: &str) -> (text: String)
    ensures
        text@ == key_value(key@, value@),
{
    let mut text = String::from_str(key);
    text.append("=");
    text.append(value);
    proof {
        reveal_strlit("=");
        assert("="@ =~= seq!['=']);
    }
    text
}

/// Joins the parts with commas.
pub fn join_with_commas(parts: &Vec<String>) -> (text: String)
    ensures
        text@ == comma_joined(texts(parts@)),
{
    let mut text = String::new();
    let mut i: usize = 0;
    proof {
        reveal_strlit(",");
        assert(","@ =~= seq![',']);
        assert(texts(parts@).take(0) =~= Seq::<Seq<char>>::empty());
    }
    while i < parts.len()
        invariant
            i <= parts@.len(),
            ","@ == seq![','],
            text@ == comma_joined(texts(parts@).take(i as int)),
        decreases parts@.len() - i,
    {
        proof {
            let before = texts(parts@).take(i as int);
            let after = texts(parts@).take(i + 1);
            assert(after.drop_last() =~= before);
            assert(after.last() == parts@[i as int]@);
            if i == 0 {
                assert(text@ + parts@[0]@ =~= parts@[0]@);
            }
        }
        if i > 0 {
            text.append(",");
        }
        text.append(parts[i].as_str());
        i += 1;
    }
    proof {
        assert(texts(parts@).take(parts@.len() as int) =~= texts(parts@));
    }
    text
}


/// The pieces of `s` between the occurrences of `sep`. There is always at
/// least one piece; a text without `sep` is its own single piece.
pub open spec fn split_at(s: Seq<char>, sep: char) -> Seq<Seq<char>>
    decreases s.len(),
{
    if s.len() == 0 {
        seq![Seq::empty()]
    } else {
        let before = split_at(s.drop_last(), sep);
        if s.last() == sep {
            before.push(Seq::empty())
        } else {
            before.update(before.len() - 1, before.last().push(s.last()))
        }
    }
}

/// Splits `s` at every occurrence of `sep`.
pub fn split(s: &str, sep: char) -> (parts: Vec<String>)
    ensures
        texts(parts@) == split_at(s@, sep),
        parts@.len() >= 1,
{
    let total: usize = s.unicode_len();
    let mut parts: Vec<String> = Vec::new();
    let mut start: usize = 0;
    let mut i: usize = 0;
    proof {
        assert(s@.take(0) =~= Seq::<char>::empty());
        assert(texts(parts@).push(s@.subrange(0, 0)) =~= seq![Seq::<char>::empty()]);
    }
    for c in it: s.chars()
        invariant
            i == it.index(),
            it.seq() == s@,
            total == s@.len(),
            start <= i <= total,
            texts(parts@).push(s@.subrange(start as int, i as int)) == split_at(
                s@.take(i as int),
                sep,
            ),
    {
        proof {
            let whole = s@.take(i + 1);
            assert(whole.drop_last() =~= s@.take(i as int));
            assert(whole.last() == s@[i as int]);
        }
        if c == sep {
            let piece = String::from_str(s.substring_char(start, i));
            proof {
                assert(texts(parts@.push(piece)) =~= texts(parts@).push(
                    s@.subrange(start as int, i as int),
                ));
                assert(s@.subrange(i + 1, i + 1) =~= Seq::<char>::empty());
            }
            parts.push(piece);
            start = i + 1;
        } else {
            proof {
                let before = texts(parts@).push(s@.subrange(start as int, i as int));
                assert(c == s@[i as int]);
                assert(s@.subrange(start as int, i as int).push(c) =~= s@.subrange(
                    start as int,
                    i + 1,
                ));
                assert(before.update(before.len() - 1, before.last().push(c)) =~= texts(
                    parts@,
                ).push(s@.subrange(start as int, i + 1)));
            }
        }
        i += 1;
    }
    let piece = String::from_str(s.substring_char(start, i));
    proof {
        assert(texts(parts@.push(piece)) =~= texts(parts@).push(
            s@.subrange(start as int, i as int),
        ));
        assert(s@.take(i as int) =~= s@);
    }
    parts.push(piece);
    parts
}

} // verus!
