//! Length-prefixed byte strings and lists of them, the building blocks of the
//! canonical wire encoding.

use crate::error::CodecError;
use crate::uleb128::{
    lemma_capacity_of_u32, lemma_parse_encoded, lemma_parsed_is_encoded, parse_u32, read_u32,
    uleb128, write_u32, MAX_DIGITS,
};
use vstd::prelude::*;
use vstd::slice::{slice_subrange, slice_to_vec};

verus! {

/// The longest sequence the encoding can express.
pub const MAX_SEQUENCE_LENGTH: usize = 0x7fff_ffff;

/// The views of the byte strings of a list.
pub open spec fn items_view(items: Seq<Vec<u8>>) -> Seq<Seq<u8>> {
    Seq::new(items.len(), |i: int| items[i]@)
}

/// A byte string on the wire: its length, then its bytes.
pub open spec fn bytes_encoding(data: Seq<u8>) -> Seq<u8> {
    uleb128(data.len()) + data
}

/// The byte strings of a list on the wire, one after another.
pub open spec fn items_encoding(items: Seq<Seq<u8>>) -> Seq<u8>
    decreases items.len(),
{
    if items.len() == 0 {
        Seq::empty()
    } else {
        bytes_encoding(items[0]) + items_encoding(items.skip(1))
    }
}

/// A list of byte strings on the wire: the number of items, then the items.
pub open spec fn list_encoding(items: Seq<Seq<u8>>) -> Seq<u8> {
    uleb128(items.len()) + items_encoding(items)
}

/// Whether a list and each of its items are short enough to be encoded.
pub open spec fn list_fits(items: Seq<Seq<u8>>) -> bool {
    &&& items.len() <= MAX_SEQUENCE_LENGTH
    &&& forall|i: int| 0 <= i < items.len() ==> (#[trigger] items[i]).len() <= MAX_SEQUENCE_LENGTH
}

/// Reads a sequence length from the front of `bytes`.
pub open spec fn parse_length(bytes: Seq<u8>) -> Result<(nat, nat), CodecError> {
    match parse_u32(bytes) {
        Ok((len, used)) => if len > MAX_SEQUENCE_LENGTH {
            Err(CodecError::MalformedLength)
        } else {
            Ok((len, used))
        },
        Err(e) => Err(e),
    }
}

/// Reads one byte string from the front of `bytes`; gives it and the number
/// of bytes it occupies.
pub open spec fn parse_bytes(bytes: Seq<u8>) -> Result<(Seq<u8>, nat), CodecError> {
    match parse_length(bytes) {
        Ok((len, used)) => if bytes.len() - used < len {
            Err(CodecError::UnexpectedEnd)
        } else {
            Ok((bytes.subrange(used as int, (used + len) as int), used + len))
        },
        Err(e) => Err(e),
    }
}

/// Reads `count` byte strings from the front of `bytes`.
pub open spec fn parse_items(bytes: Seq<u8>, count: nat) -> Result<(Seq<Seq<u8>>, nat), CodecError>
    decreases count,
{
    if count == 0 {
        Ok((Seq::empty(), 0))
    } else {
        match parse_bytes(bytes) {
            Ok((first, used)) => match parse_items(bytes.skip(used as int), (count - 1) as nat) {
                Ok((rest, more)) => Ok((seq![first] + rest, used + more)),
                Err(e) => Err(e),
            },
            Err(e) => Err(e),
        }
    }
}

/// Reads one list of byte strings from the front of `bytes`.
pub open spec fn parse_list(bytes: Seq<u8>) -> Result<(Seq<Seq<u8>>, nat), CodecError> {
    match parse_length(bytes) {
        Ok((count, used)) => match parse_items(bytes.skip(used as int), count) {
            Ok((items, more)) => Ok((items, used + more)),
            Err(e) => Err(e),
        },
        Err(e) => Err(e),
    }
}

/// A length that fits is read back from its encoding, whatever follows.
pub proof fn lemma_parse_length_encoded(len: nat, rest: Seq<u8>)
    requires
        len <= MAX_SEQUENCE_LENGTH,
    ensures
        parse_length(uleb128(len) + rest) == Ok::<(nat, nat), CodecError>(
            (len, uleb128(len).len()),
        ),
{
    lemma_capacity_of_u32();
    lemma_parse_encoded(len, rest, MAX_DIGITS as nat);
}

/// A length that was read stands at the front in canonical form.
pub proof fn lemma_parsed_length_is_encoded(bytes: Seq<u8>)
    requires
        parse_length(bytes) is Ok,
    ensures
        ({
            let (len, used) = parse_length(bytes).unwrap();
            &&& len <= MAX_SEQUENCE_LENGTH
            &&& 1 <= used <= bytes.len()
            &&& bytes.subrange(0, used as int) == uleb128(len)
        }),
{
    lemma_parsed_is_encoded(bytes, MAX_DIGITS as nat);
}

/// A byte string that fits is read back from its encoding, whatever follows.
pub proof fn lemma_parse_bytes_encoded(data: Seq<u8>, rest: Seq<u8>)
    requires
        data.len() <= MAX_SEQUENCE_LENGTH,
    ensures
        parse_bytes(bytes_encoding(data) + rest) == Ok::<(Seq<u8>, nat), CodecError>(
            (data, bytes_encoding(data).len()),
        ),
{
    let prefix = uleb128(data.len());
    let bytes = bytes_encoding(data) + rest;
    assert(bytes =~= prefix + (data + rest));
    lemma_parse_length_encoded(data.len(), data + rest);
    assert(bytes.subrange(prefix.len() as int, (prefix.len() + data.len()) as int) =~= data);
}

/// A byte string that was read stands at the front in canonical form.
pub proof fn lemma_parsed_bytes_is_encoded(bytes: Seq<u8>)
    requires
        parse_bytes(bytes) is Ok,
    ensures
        ({
            let (data, used) = parse_bytes(bytes).unwrap();
            &&& data.len() <= MAX_SEQUENCE_LENGTH
            &&& 1 <= used <= bytes.len()
            &&& bytes.subrange(0, used as int) == bytes_encoding(data)
        }),
{
    lemma_parsed_length_is_encoded(bytes);
    let (len, prefix_len) = parse_length(bytes).unwrap();
    let (data, used) = parse_bytes(bytes).unwrap();
    assert(bytes.subrange(0, used as int) =~= bytes.subrange(0, prefix_len as int) + data);
}

/// The items of a list that fits are read back from their encoding.
pub proof fn lemma_parse_items_encoded(items: Seq<Seq<u8>>, rest: Seq<u8>)
    requires
        forall|i: int| 0 <= i < items.len() ==> (#[trigger] items[i]).len() <= MAX_SEQUENCE_LENGTH,
    ensures
        parse_items(items_encoding(items) + rest, items.len()) == Ok::<
            (Seq<Seq<u8>>, nat),
            CodecError,
        >((items, items_encoding(items).len())),
    decreases items.len(),
{
    if items.len() == 0 {
        assert(items =~= Seq::empty());
    } else {
        let first = bytes_encoding(items[0]);
        let tail = items.skip(1);
        let bytes = items_encoding(items) + rest;
        assert(bytes =~= first + (items_encoding(tail) + rest));
        lemma_parse_bytes_encoded(items[0], items_encoding(tail) + rest);
        assert(bytes.skip(first.len() as int) =~= items_encoding(tail) + rest);
        assert forall|i: int| 0 <= i < tail.len() implies (#[trigger] tail[i]).len()
            <= MAX_SEQUENCE_LENGTH by {
            assert(tail[i] == items[i + 1]);
        }
        lemma_parse_items_encoded(tail, rest);
        assert(seq![items[0]] + tail =~= items);
    }
}

/// Items that were read stand at the front in canonical form.
pub proof fn lemma_parsed_items_is_encoded(bytes: Seq<u8>, count: nat)
    requires
        parse_items(bytes, count) is Ok,
    ensures
        ({
            let (items, used) = parse_items(bytes, count).unwrap();
            &&& items.len() == count
            &&& forall|i: int|
                0 <= i < items.len() ==> (#[trigger] items[i]).len() <= MAX_SEQUENCE_LENGTH
            &&& used <= bytes.len()
            &&& bytes.subrange(0, used as int) == items_encoding(items)
        }),
    decreases count,
{
    let (items, used) = parse_items(bytes, count).unwrap();
    if count == 0 {
        assert(bytes.subrange(0, 0) =~= items_encoding(items));
    } else {
        lemma_parsed_bytes_is_encoded(bytes);
        let (first, first_used) = parse_bytes(bytes).unwrap();
        let tail_bytes = bytes.skip(first_used as int);
        lemma_parsed_items_is_encoded(tail_bytes, (count - 1) as nat);
        let (rest, more) = parse_items(tail_bytes, (count - 1) as nat).unwrap();
        assert(items.skip(1) =~= rest);
        assert(items[0] == first);
        assert(bytes.subrange(0, used as int) =~= bytes.subrange(0, first_used as int)
            + tail_bytes.subrange(0, more as int));
    }
}

/// A list that fits is read back from its encoding, whatever follows.
pub proof fn lemma_parse_list_encoded(items: Seq<Seq<u8>>, rest: Seq<u8>)
    requires
        list_fits(items),
    ensures
        parse_list(list_encoding(items) + rest) == Ok::<(Seq<Seq<u8>>, nat), CodecError>(
            (items, list_encoding(items).len()),
        ),
{
    let prefix = uleb128(items.len());
    let bytes = list_encoding(items) + rest;
    assert(bytes =~= prefix + (items_encoding(items) + rest));
    lemma_parse_length_encoded(items.len(), items_encoding(items) + rest);
    assert(bytes.skip(prefix.len() as int) =~= items_encoding(items) + rest);
    lemma_parse_items_encoded(items, rest);
}

/// A list that was read stands at the front in canonical form.
pub proof fn lemma_parsed_list_is_encoded(bytes: Seq<u8>)
    requires
        parse_list(bytes) is Ok,
    ensures
        ({
            let (items, used) = parse_list(bytes).unwrap();
            &&& list_fits(items)
            &&& 1 <= used <= bytes.len()
            &&& bytes.subrange(0, used as int) == list_encoding(items)
        }),
{
    lemma_parsed_length_is_encoded(bytes);
    let (count, prefix_len) = parse_length(bytes).unwrap();
    let tail_bytes = bytes.skip(prefix_len as int);
    lemma_parsed_items_is_encoded(tail_bytes, count);
    let (items, more) = parse_items(tail_bytes, count).unwrap();
    assert(bytes.subrange(0, (prefix_len + more) as int) =~= bytes.subrange(0, prefix_len as int)
        + tail_bytes.subrange(0, more as int));
}

/// The encoding of a list grows by the encoding of an item added at its end.
pub proof fn lemma_items_encoding_push(items: Seq<Seq<u8>>, last: Seq<u8>)
    ensures
        items_encoding(items.push(last)) == items_encoding(items) + bytes_encoding(last),
    decreases items.len(),
{
    let longer = items.push(last);
    if items.len() == 0 {
        assert(longer.skip(1) =~= Seq::<Seq<u8>>::empty());
        assert(items_encoding(longer.skip(1)) =~= Seq::<u8>::empty());
        assert(items_encoding(longer) =~= bytes_encoding(last));
        assert(items_encoding(items) + bytes_encoding(last) =~= bytes_encoding(last));
    } else {
        assert(longer.skip(1) =~= items.skip(1).push(last));
        lemma_items_encoding_push(items.skip(1), last);
        assert(items_encoding(longer) =~= items_encoding(items) + bytes_encoding(last));
    }
}

/// Appends the encoding of the byte string `data` to `out`. Fails, and
/// leaves `out` as it is, exactly when `data` is too long to be encoded.
pub fn write_bytes(out: &mut Vec<u8>, data: &[u8]) -> (r: Result<(), CodecError>)
    ensures
        match r {
            Ok(_) => {
                &&& data@.len() <= MAX_SEQUENCE_LENGTH
                &&& final(out)@ == old(out)@ + bytes_encoding(data@)
            },
            Err(e) => {
                &&& data@.len() > MAX_SEQUENCE_LENGTH
                &&& e == CodecError::SequenceTooLong
                &&& final(out)@ == old(out)@
            },
        },
{
    if data.len() > MAX_SEQUENCE_LENGTH {
        return Err(CodecError::SequenceTooLong);
    }
    let ghost before = out@;
    write_u32(out, data.len() as u32);
    let ghost prefixed = out@;
    out.extend_from_slice(data);
    assert(out@ =~= prefixed + data@);
    assert(out@ =~= before + bytes_encoding(data@));
    Ok(())
}

/// Appends the encoding of the list `items` to `out`. Fails, and leaves
/// `out` as it is, exactly when the list or one of its items is too long to
/// be encoded.
pub fn write_list(out: &mut Vec<u8>, items: &Vec<Vec<u8>>) -> (r: Result<(), CodecError>)
    ensures
        match r {
            Ok(_) => {
                &&& list_fits(items_view(items@))
                &&& final(out)@ == old(out)@ + list_encoding(items_view(items@))
            },
            Err(e) => {
                &&& !list_fits(items_view(items@))
                &&& e == CodecError::SequenceTooLong
                &&& final(out)@ == old(out)@
            },
        },
{
    if !list_is_encodable(items) {
        return Err(CodecError::SequenceTooLong);
    }
    let ghost before = out@;
    let ghost all = items_view(items@);
    write_u32(out, items.len() as u32);
    let ghost prefixed = out@;
    let mut i: usize = 0;
    while i < items.len()
        invariant
            i <= items.len(),
            all == items_view(items@),
            list_fits(all),
            out@ == prefixed + items_encoding(all.take(i as int)),
        decreases items.len() - i,
    {
        let ghost so_far = out@;
        assert(all[i as int] == items[i as int]@);
        let written = write_bytes(out, items[i].as_slice());
        assert(written is Ok);
        proof {
            lemma_items_encoding_push(all.take(i as int), all[i as int]);
            assert(all.take(i as int).push(all[i as int]) =~= all.take(i + 1));
            assert(out@ =~= prefixed + items_encoding(all.take(i + 1)));
        }
        i += 1;
    }
    assert(all.take(i as int) =~= all);
    assert(out@ =~= before + list_encoding(all));
    Ok(())
}

/// Whether every item of `items`, and the list itself, is short enough to be
/// encoded.
pub fn list_is_encodable(items: &Vec<Vec<u8>>) -> (fits: bool)
    ensures
        fits == list_fits(items_view(items@)),
{
    if items.len() > MAX_SEQUENCE_LENGTH {
        return false;
    }
    let mut i: usize = 0;
    while i < items.len()
        invariant
            i <= items.len(),
            items.len() <= MAX_SEQUENCE_LENGTH,
            forall|j: int|
                0 <= j < i ==> (#[trigger] items_view(items@)[j]).len() <= MAX_SEQUENCE_LENGTH,
        decreases items.len() - i,
    {
        if items[i].len() > MAX_SEQUENCE_LENGTH {
            assert(items_view(items@)[i as int].len() > MAX_SEQUENCE_LENGTH);
            return false;
        }
        assert(items_view(items@)[i as int] == items[i as int]@);
        i += 1;
    }
    true
}

/// Reads a sequence length at `pos`.
pub fn read_length(input: &[u8], pos: usize) -> (r: Result<(usize, usize), CodecError>)
    requires
        pos <= input@.len(),
    ensures
        match r {
            Ok((len, next)) => parse_length(input@.skip(pos as int)) == Ok::<
                (nat, nat),
                CodecError,
            >((len as nat, (next - pos) as nat)) && pos < next <= input@.len(),
            Err(e) => parse_length(input@.skip(pos as int)) == Err::<(nat, nat), CodecError>(e),
        },
{
    match read_u32(input, pos) {
        Ok((len, next)) => {
            if len > 0x7fff_ffff {
                Err(CodecError::MalformedLength)
            } else {
                Ok((len as usize, next))
            }
        },
        Err(e) => Err(e),
    }
}

/// Reads one byte string at `pos`; gives it and the position behind it.
pub fn read_bytes(input: &[u8], pos: usize) -> (r: Result<(Vec<u8>, usize), CodecError>)
    requires
        pos <= input@.len(),
    ensures
        match r {
            Ok((data, next)) => parse_bytes(input@.skip(pos as int)) == Ok::<
                (Seq<u8>, nat),
                CodecError,
            >((data@, (next - pos) as nat)) && pos < next <= input@.len(),
            Err(e) => parse_bytes(input@.skip(pos as int)) == Err::<(Seq<u8>, nat), CodecError>(e),
        },
{
    match read_length(input, pos) {
        Ok((len, start)) => {
            if input.len() - start < len {
                Err(CodecError::UnexpectedEnd)
            } else {
                let data = slice_to_vec(slice_subrange(input, start, start + len));
                assert(data@ =~= input@.skip(pos as int).subrange(
                    start - pos,
                    start - pos + len,
                ));
                Ok((data, start + len))
            }
        },
        Err(e) => Err(e),
    }
}

/// Reads one list of byte strings at `pos`; gives it and the position behind it.
pub fn read_list(input: &[u8], pos: usize) -> (r: Result<(Vec<Vec<u8>>, usize), CodecError>)
    requires
        pos <= input@.len(),
    ensures
        match r {
            Ok((items, next)) => parse_list(input@.skip(pos as int)) == Ok::<
                (Seq<Seq<u8>>, nat),
                CodecError,
            >((items_view(items@), (next - pos) as nat)) && pos < next <= input@.len(),
            Err(e) => parse_list(input@.skip(pos as int)) == Err::<(Seq<Seq<u8>>, nat), CodecError>(
                e,
            ),
        },
{
    let (count, start) = match read_length(input, pos) {
        Ok(found) => found,
        Err(e) => { return Err(e); },
    };
    let ghost body = input@.skip(pos as int).skip(start - pos);
    assert(body =~= input@.skip(start as int));
    let mut items: Vec<Vec<u8>> = Vec::new();
    let mut at: usize = start;
    let mut left: usize = count;
    while left > 0
        invariant
            pos < start <= at <= input@.len(),
            left <= count,
            parse_length(input@.skip(pos as int)) == Ok::<(nat, nat), CodecError>(
                (count as nat, (start - pos) as nat),
            ),
            input@.skip(pos as int).skip(start - pos) == input@.skip(start as int),
            match parse_items(input@.skip(at as int), left as nat) {
                Ok((rest, more)) => parse_items(input@.skip(start as int), count as nat) == Ok::<
                    (Seq<Seq<u8>>, nat),
                    CodecError,
                >((items_view(items@) + rest, (at - start + more) as nat)),
                Err(e) => parse_items(input@.skip(start as int), count as nat) == Err::<
                    (Seq<Seq<u8>>, nat),
                    CodecError,
                >(e),
            },
        decreases left,
    {
        let ghost here = input@.skip(at as int);
        let ghost seen = items_view(items@);
        match read_bytes(input, at) {
            Ok((data, next)) => {
                assert(here.skip(next - at) =~= input@.skip(next as int));
                items.push(data);
                proof {
                    assert(items_view(items@) =~= seen.push(data@));
                    match parse_items(input@.skip(next as int), (left - 1) as nat) {
                        Ok((rest, more)) => {
                            assert(seen + (seq![data@] + rest) =~= seen.push(data@) + rest);
                        },
                        Err(e) => {},
                    }
                }
                at = next;
                left -= 1;
            },
            Err(e) => {
                return Err(e);
            },
        }
    }
    assert(items_view(items@) + Seq::<Seq<u8>>::empty() =~= items_view(items@));
    Ok((items, at))
}

} // verus!
