//! Decoding stored auxv images: the binary format of the procfs auxv file.
//!
//! An image is a flat run of records, each a key word then a value word, with
//! no header, closed by a record whose key is the sentinel `0` (`AT_NULL`).
//! [`ProcfsAuxvIter`] drains a [`ByteSource`] one record at a time: data
//! records come out as [`AuxvPair`]s, the sentinel ends the iteration without
//! being yielded, input that runs out mid-record or without a sentinel ends it
//! with one [`ProcfsAuxvError::InvalidFormat`], and a failing source ends it
//! with one [`ProcfsAuxvError::IoError`]. After any of those the iterator is
//! exhausted for good.
//!
//! The specification model lives in [`decoded_entries`] and
//! [`well_terminated`]: what a byte sequence holds, and whether it is closed
//! by a sentinel. Every contract here is stated against those two functions,
//! so decoding the same bytes again gives the same outcome.

use vstd::prelude::*;
use vstd::slice::{slice_index_get, slice_subrange};

use std::collections::HashMap;

use crate::source::{ByteSource, ReadResult};
use crate::words::{read_long, word_value};
use crate::{AuxvPair, AuxvType, Endianness, WordWidth};

verus! {

broadcast use vstd::std_specs::hash::group_hash_axioms;

/// Errors from decoding a stored auxv image.
#[derive(Debug, Clone, Copy, PartialEq, Eq, Structural)]
pub enum ProcfsAuxvError {
    /// The byte source failed to produce bytes: an I/O fault, not bad data.
    IoError,
    /// The image is malformed: it ran out before a full record and a sentinel.
    InvalidFormat,
}

/// True when `bytes` opens with a full record: a key word and a value word.
pub open spec fn has_full_record(bytes: Seq<u8>, width: WordWidth) -> bool {
    bytes.len() >= width.spec_record_bytes()
}

/// The key of the record at the front of `bytes`.
pub open spec fn head_key(bytes: Seq<u8>, endian: Endianness, width: WordWidth) -> nat {
    word_value(bytes.subrange(0, width.spec_word_bytes() as int), endian)
}

/// The value of the record at the front of `bytes`.
pub open spec fn head_value(bytes: Seq<u8>, endian: Endianness, width: WordWidth) -> nat {
    word_value(
        bytes.subrange(width.spec_word_bytes() as int, width.spec_record_bytes() as int),
        endian,
    )
}

/// The record at the front of `bytes`, as a pair.
pub open spec fn head_pair(bytes: Seq<u8>, endian: Endianness, width: WordWidth) -> AuxvPair {
    AuxvPair {
        key: head_key(bytes, endian, width) as u64,
        value: head_value(bytes, endian, width) as u64,
    }
}

/// The data records of `bytes`, in order: every record before the first
/// sentinel key, and nothing at or past it. Stops at a trailing partial
/// record, whose bytes decode to nothing.
pub open spec fn decoded_entries(bytes: Seq<u8>, endian: Endianness, width: WordWidth) -> Seq<
    AuxvPair,
>
    decreases bytes.len(),
{
    if !has_full_record(bytes, width) {
        Seq::empty()
    } else if head_key(bytes, endian, width) == 0 {
        Seq::empty()
    } else {
        seq![head_pair(bytes, endian, width)] + decoded_entries(
            bytes.skip(width.spec_record_bytes() as int),
            endian,
            width,
        )
    }
}

/// True when `bytes` is a well-formed image: full records up to a record
/// whose key is the sentinel `0`.
pub open spec fn well_terminated(bytes: Seq<u8>, endian: Endianness, width: WordWidth) -> bool
    decreases bytes.len(),
{
    has_full_record(bytes, width) && (head_key(bytes, endian, width) == 0 || well_terminated(
        bytes.skip(width.spec_record_bytes() as int),
        endian,
        width,
    ))
}

/// An iterator over the records of a stored auxv image, pulled from a
/// [`ByteSource`]. Single pass: once it has ended — at the sentinel or with
/// an error — every further pull returns `None`.
pub struct ProcfsAuxvIter<S: ByteSource> {
    input: S,
    endian: Endianness,
    width: WordWidth,
    keep_going: bool,
}

impl<S: ByteSource> ProcfsAuxvIter<S> {
    /// The bytes still to be decoded.
    pub closed spec fn pending(&self) -> Seq<u8> {
        self.input.remaining()
    }

    /// The byte order this iterator decodes with.
    pub closed spec fn endianness(&self) -> Endianness {
        self.endian
    }

    /// The word width this iterator decodes with.
    pub closed spec fn word_width(&self) -> WordWidth {
        self.width
    }

    /// True until the iterator has yielded the sentinel or an error.
    pub closed spec fn live(&self) -> bool {
        self.keep_going
    }

    /// True when the underlying source can never fault.
    pub closed spec fn source_infallible(&self) -> bool {
        self.input.infallible()
    }

    /// An iterator that decodes the bytes of `input` as records of the given
    /// byte order and word width.
    pub fn new(input: S, endian: Endianness, width: WordWidth) -> (it: Self)
        ensures
            it.pending() == input.remaining(),
            it.endianness() == endian,
            it.word_width() == width,
            it.live(),
            it.source_infallible() == input.infallible(),
    {
        ProcfsAuxvIter { input, endian, width, keep_going: true }
    }

    /// The next item of the image, if any.
    ///
    /// Yields `Some(Ok(pair))` for the data record at the front of the
    /// pending bytes, `None` at the sentinel record (which is consumed, never
    /// yielded) and forever after the iterator has ended,
    /// `Some(Err(InvalidFormat))` when the pending bytes end before a full
    /// record, and `Some(Err(IoError))` when the source faults — which an
    /// infallible source never does.
    #[verifier::loop_isolation(false)]
    pub fn next(&mut self) -> (r: Option<Result<AuxvPair, ProcfsAuxvError>>)
        ensures
            final(self).endianness() == old(self).endianness(),
            final(self).word_width() == old(self).word_width(),
            final(self).source_infallible() == old(self).source_infallible(),
            !old(self).live() ==> r is None && !final(self).live() && final(self).pending() == old(
                self,
            ).pending(),
            old(self).live() ==> match r {
                None => {
                    &&& has_full_record(old(self).pending(), old(self).word_width())
                    &&& head_key(old(self).pending(), old(self).endianness(), old(self).word_width())
                        == 0
                    &&& !final(self).live()
                },
                Some(item) => match item {
                    Ok(pair) => {
                        &&& has_full_record(old(self).pending(), old(self).word_width())
                        &&& head_key(
                            old(self).pending(),
                            old(self).endianness(),
                            old(self).word_width(),
                        ) != 0
                        &&& pair == head_pair(
                            old(self).pending(),
                            old(self).endianness(),
                            old(self).word_width(),
                        )
                        &&& final(self).live()
                        &&& final(self).pending() == old(self).pending().skip(
                            old(self).word_width().spec_record_bytes() as int,
                        )
                    },
                    Err(ProcfsAuxvError::InvalidFormat) => {
                        &&& !has_full_record(old(self).pending(), old(self).word_width())
                        &&& !final(self).live()
                    },
                    Err(ProcfsAuxvError::IoError) => {
                        &&& !old(self).source_infallible()
                        &&& !final(self).live()
                    },
                },
            },
    {
        if !self.keep_going {
            return None;
        }
        // assume something will fail; only a full data record switches it back
        self.keep_going = false;

        let pair_size: usize = self.width.record_bytes();
        let word_size: usize = self.width.word_bytes();
        let ghost pending0 = self.input.remaining();
        let ghost inf0 = self.input.infallible();
        let ghost endian0 = self.endian;
        let ghost width0 = self.width;

        let mut buf: Vec<u8> = Vec::new();
        while buf.len() < pair_size
            invariant
                buf@.len() <= pair_size,
                pair_size == width0.spec_record_bytes(),
                pending0 == buf@ + self.input.remaining(),
                self.input.infallible() == inf0,
                self.endian == endian0,
                self.width == width0,
                self.keep_going == false,
            decreases pair_size - buf.len(),
        {
            let want: usize = pair_size - buf.len();
            match self.input.read(want) {
                ReadResult::Chunk(chunk) => {
                    if chunk.len() == 0 {
                        // end of input before a full record: with nothing
                        // left to come, the pending bytes are what the buffer
                        // holds, short of a record
                        proof {
                            assert(pending0 =~= buf@);
                        }
                        return Some(Err(ProcfsAuxvError::InvalidFormat));
                    }
                    let mut rest = chunk;
                    let ghost buf0 = buf@;
                    let ghost rest0 = rest@;
                    buf.append(&mut rest);
                    proof {
                        assert(pending0 =~= (buf0 + rest0) + self.input.remaining());
                    }
                },
                ReadResult::Fault => {
                    return Some(Err(ProcfsAuxvError::IoError));
                },
            }
        }

        // a full record is in the buffer; the pending bytes open with it
        proof {
            assert(pending0.subrange(0, word_size as int) =~= buf@.subrange(0, word_size as int));
            assert(pending0.subrange(word_size as int, pair_size as int) =~= buf@.subrange(
                word_size as int,
                pair_size as int,
            ));
        }
        let key: AuxvType = read_long(
            slice_subrange(buf.as_slice(), 0, word_size),
            self.endian,
            self.width,
        );
        let value: AuxvType = read_long(
            slice_subrange(buf.as_slice(), word_size, pair_size),
            self.endian,
            self.width,
        );
        proof {
            let sub = buf@.subrange(0, word_size as int);
            assert(sub.subrange(0, word_size as int) =~= sub);
            let sub2 = buf@.subrange(word_size as int, pair_size as int);
            assert(sub2.subrange(0, word_size as int) =~= sub2);
            assert(self.input.remaining() =~= pending0.skip(pair_size as int));
        }

        if key == 0 {
            // the sentinel record: the image ends here, nothing is yielded
            return None;
        }

        self.keep_going = true;
        Some(Ok(AuxvPair { key, value }))
    }
}

/// Decode a whole image from `input`: the data records in order, and how the
/// iteration ended — `None` for a clean end at the sentinel,
/// `Some(InvalidFormat)` for input that ran out first, `Some(IoError)` for a
/// source fault.
///
/// The outcome is a function of the source's bytes alone: on an infallible
/// source the records are exactly [`decoded_entries`] of those bytes, and the
/// end is clean exactly when the bytes are [`well_terminated`] — so decoding
/// a freshly reopened identical source again gives the same result.
#[verifier::loop_isolation(false)]
pub fn decode_stream<S: ByteSource>(input: S, endian: Endianness, width: WordWidth) -> (r: (
    Vec<AuxvPair>,
    Option<ProcfsAuxvError>,
))
    ensures
        ({
            let entries = decoded_entries(input.remaining(), endian, width);
            match r.1 {
                None => well_terminated(input.remaining(), endian, width) && r.0@ == entries,
                Some(ProcfsAuxvError::InvalidFormat) => !well_terminated(
                    input.remaining(),
                    endian,
                    width,
                ) && r.0@ == entries,
                Some(ProcfsAuxvError::IoError) => !input.infallible() && r.0@.len()
                    <= entries.len() && r.0@ == entries.take(r.0@.len() as int),
            }
        }),
{
    let ghost bytes0 = input.remaining();
    let mut iter = ProcfsAuxvIter::new(input, endian, width);
    let mut entries: Vec<AuxvPair> = Vec::new();
    loop
        invariant
            iter.endianness() == endian,
            iter.word_width() == width,
            iter.source_infallible() == input.infallible(),
            iter.live(),
            decoded_entries(bytes0, endian, width) == entries@ + decoded_entries(
                iter.pending(),
                endian,
                width,
            ),
            well_terminated(bytes0, endian, width) == well_terminated(
                iter.pending(),
                endian,
                width,
            ),
        decreases iter.pending().len(),
    {
        let ghost pending0 = iter.pending();
        match iter.next() {
            None => {
                proof {
                    assert(decoded_entries(pending0, endian, width) =~= Seq::empty());
                    assert(entries@ + Seq::<AuxvPair>::empty() =~= entries@);
                }
                return (entries, None);
            },
            Some(item) => match item {
                Ok(pair) => {
                    proof {
                        let rest = pending0.skip(width.spec_record_bytes() as int);
                        assert(decoded_entries(pending0, endian, width) == seq![
                            head_pair(pending0, endian, width),
                        ] + decoded_entries(rest, endian, width));
                        assert(entries@ + decoded_entries(pending0, endian, width) =~= entries@
                            + seq![pair] + decoded_entries(rest, endian, width));
                        assert((entries@ + seq![pair]) =~= entries@.push(pair));
                    }
                    entries.push(pair);
                },
                Err(e) => {
                    proof {
                        if !has_full_record(pending0, width) {
                            assert(decoded_entries(pending0, endian, width) =~= Seq::empty());
                            assert(entries@ + Seq::<AuxvPair>::empty() =~= entries@);
                        }
                        let all = decoded_entries(bytes0, endian, width);
                        assert(entries@ =~= all.take(entries@.len() as int));
                    }
                    return (entries, Some(e));
                },
            },
        }
    }
}

/// Law: decoding is pure. The records and the end state that
/// [`decode_stream`] is specified to produce are functions of the source's
/// bytes, byte order and word width alone, so running it again over a freshly
/// reopened source holding the same bytes yields the same sequence.
pub proof fn lemma_reread_decodes_the_same<S1: ByteSource, S2: ByteSource>(
    first: S1,
    second: S2,
    endian: Endianness,
    width: WordWidth,
)
    requires
        first.remaining() == second.remaining(),
    ensures
        decoded_entries(first.remaining(), endian, width) == decoded_entries(
            second.remaining(),
            endian,
            width,
        ),
        well_terminated(first.remaining(), endian, width) == well_terminated(
            second.remaining(),
            endian,
            width,
        ),
{
}

/// True when some record of `entries` carries the key `key`.
pub open spec fn entries_have_key(entries: Seq<AuxvPair>, key: AuxvType) -> bool {
    exists|i: int| 0 <= i < entries.len() && entries[i].key == key
}

/// The mapping a search with the request set `keys` distills from `entries`:
/// each requested key that occurs, bound to the value of its last occurrence.
pub open spec fn search_map(entries: Seq<AuxvPair>, keys: Seq<AuxvType>) -> Map<AuxvType, AuxvType>
    decreases entries.len(),
{
    if entries.len() == 0 {
        Map::empty()
    } else {
        let earlier = search_map(entries.drop_last(), keys);
        if keys.contains(entries.last().key) {
            earlier.insert(entries.last().key, entries.last().value)
        } else {
            earlier
        }
    }
}

/// Law: a search result holds a key exactly when it was requested and some
/// record carries it — requested keys that are absent from the records are
/// absent from the result, never an error.
pub proof fn lemma_search_map_domain(entries: Seq<AuxvPair>, keys: Seq<AuxvType>, key: AuxvType)
    ensures
        search_map(entries, keys).contains_key(key) <==> (keys.contains(key) && entries_have_key(
            entries,
            key,
        )),
    decreases entries.len(),
{
    if entries.len() == 0 {
    } else {
        let earlier = entries.drop_last();
        lemma_search_map_domain(earlier, keys, key);
        if entries.last().key == key {
            assert(entries[entries.len() - 1].key == key);
            assert(entries_have_key(entries, key));
        }
        if entries_have_key(earlier, key) {
            let i = choose|i: int| 0 <= i < earlier.len() && earlier[i].key == key;
            assert(entries[i] == earlier[i]);
            assert(entries_have_key(entries, key));
        }
        if entries_have_key(entries, key) && entries.last().key != key {
            let i = choose|i: int| 0 <= i < entries.len() && entries[i].key == key;
            assert(i < entries.len() - 1);
            assert(earlier[i] == entries[i]);
            assert(entries_have_key(earlier, key));
        }
    }
}

/// Law: a search result binds each found key to the value of its last
/// occurrence among the records: the occurrence at `i` after which the key
/// does not occur again.
pub proof fn lemma_search_map_value(entries: Seq<AuxvPair>, keys: Seq<AuxvType>, i: int)
    requires
        0 <= i < entries.len(),
        keys.contains(entries[i].key),
        forall|j: int| i < j < entries.len() ==> entries[j].key != entries[i].key,
    ensures
        search_map(entries, keys).contains_key(entries[i].key),
        search_map(entries, keys)[entries[i].key] == entries[i].value,
    decreases entries.len(),
{
    if i == entries.len() - 1 {
        assert(entries.last() == entries[i]);
    } else {
        let earlier = entries.drop_last();
        assert(earlier[i] == entries[i]);
        assert forall|j: int| i < j < earlier.len() implies earlier[j].key != earlier[i].key by {
            assert(earlier[j] == entries[j]);
        }
        lemma_search_map_value(earlier, keys, i);
        assert(entries.last() == entries[entries.len() - 1]);
        assert(entries.last().key != entries[i].key);
    }
}

/// True when `keys[..n]` holds `key`.
spec fn key_among(keys: Seq<AuxvType>, n: int, key: AuxvType) -> bool {
    exists|j: int| 0 <= j < n && keys[j] == key
}

/// Whether the slice `keys` holds `key`.
fn slice_contains(keys: &[AuxvType], key: AuxvType) -> (r: bool)
    ensures
        r == keys@.contains(key),
{
    let mut i: usize = 0;
    while i < keys.len()
        invariant
            i <= keys@.len(),
            !key_among(keys@, i as int, key),
        decreases keys@.len() - i,
    {
        if *slice_index_get(keys, i) == key {
            assert(keys@[i as int] == key);
            return true;
        }
        i = i + 1;
    }
    assert(!keys@.contains(key)) by {
        if keys@.contains(key) {
            let j = choose|j: int| 0 <= j < keys@.len() && keys@[j] == key;
            assert(key_among(keys@, i as int, key));
        }
    }
    false
}

/// Search an image for the given keys: decode records from `input` up to the
/// sentinel and keep the requested ones.
///
/// Returns the mapping of [`search_map`]: exactly the requested keys that
/// occur before the sentinel, each bound to the value of its last occurrence;
/// requested keys that do not occur are simply missing. A malformed image
/// gives `Err(InvalidFormat)` and a source fault `Err(IoError)` — on any
/// error the whole search fails, with no partial mapping.
#[verifier::loop_isolation(false)]
pub fn search_procfs_auxv<S: ByteSource>(
    input: S,
    keys: &[AuxvType],
    endian: Endianness,
    width: WordWidth,
) -> (r: Result<HashMap<AuxvType, AuxvType>, ProcfsAuxvError>)
    ensures
        match r {
            Ok(found) => well_terminated(input.remaining(), endian, width) && found@ == search_map(
                decoded_entries(input.remaining(), endian, width),
                keys@,
            ),
            Err(ProcfsAuxvError::InvalidFormat) => !well_terminated(
                input.remaining(),
                endian,
                width,
            ),
            Err(ProcfsAuxvError::IoError) => !input.infallible(),
        },
{
    let ghost bytes0 = input.remaining();
    let mut iter = ProcfsAuxvIter::new(input, endian, width);
    let mut found: HashMap<AuxvType, AuxvType> = HashMap::new();
    let ghost mut yielded: Seq<AuxvPair> = Seq::empty();
    loop
        invariant
            iter.endianness() == endian,
            iter.word_width() == width,
            iter.source_infallible() == input.infallible(),
            iter.live(),
            decoded_entries(bytes0, endian, width) == yielded + decoded_entries(
                iter.pending(),
                endian,
                width,
            ),
            well_terminated(bytes0, endian, width) == well_terminated(
                iter.pending(),
                endian,
                width,
            ),
            found@ == search_map(yielded, keys@),
        decreases iter.pending().len(),
    {
        let ghost pending0 = iter.pending();
        match iter.next() {
            None => {
                proof {
                    assert(decoded_entries(pending0, endian, width) =~= Seq::empty());
                    assert(yielded + Seq::<AuxvPair>::empty() =~= yielded);
                }
                return Ok(found);
            },
            Some(item) => match item {
                Ok(pair) => {
                    if slice_contains(keys, pair.key) {
                        found.insert(pair.key, pair.value);
                    }
                    proof {
                        let rest = pending0.skip(width.spec_record_bytes() as int);
                        assert(decoded_entries(pending0, endian, width) == seq![
                            head_pair(pending0, endian, width),
                        ] + decoded_entries(rest, endian, width));
                        let grown = yielded.push(pair);
                        assert(grown.drop_last() =~= yielded);
                        assert(grown.last() == pair);
                        if keys@.contains(pair.key) {
                            assert(search_map(grown, keys@) == search_map(yielded, keys@).insert(
                                pair.key,
                                pair.value,
                            ));
                        } else {
                            assert(search_map(grown, keys@) == search_map(yielded, keys@));
                        }
                        assert(yielded + decoded_entries(pending0, endian, width) =~= grown
                            + decoded_entries(rest, endian, width));
                        yielded = grown;
                    }
                },
                Err(e) => {
                    return Err(e);
                },
            },
        }
    }
}

} // verus!
