//! The chunked wire format of message submission.
//!
//! A submission stream is `key1=val1&key2=val2?<body-or-blob>`: a metadata
//! section of `&`-joined `key=value` pairs, then the first `?` byte, then
//! the payload. `priority` is required; `saveToFile=true` marks the payload
//! as an opaque blob held in the file store rather than as the message body,
//! and then `byteSizeOverride` must supply the byte count used for budget
//! accounting. Unknown keys are retained verbatim. [`decode_spec`] is the
//! format's definition; [`decode`] is the executable decoder, proved to
//! return exactly what the definition says for every chunk sequence.

use crate::bytes_util::{all_digits, dec_val, find, find_byte, parse_u32};
use crate::errors::ApiErr;
use vstd::prelude::*;

verus! {

/// The `?` byte that separates metadata from the payload.
pub open spec fn qmark() -> u8 {
    63
}

/// The `&` byte that joins metadata pairs.
pub open spec fn amp() -> u8 {
    38
}

/// The `=` byte that joins a key to its value.
pub open spec fn eq_byte() -> u8 {
    61
}

/// Whether a byte sequence is valid UTF-8; what `str::from_utf8` accepts.
pub uninterp spec fn is_utf8(s: Seq<u8>) -> bool;

/// UTF-8 validity of `v`.
/// Relies on `str::from_utf8`: it accepts exactly the valid UTF-8 sequences,
/// a function of the bytes alone.
#[verifier::external_body]
pub fn utf8_check(v: &[u8]) -> (r: bool)
    ensures
        r == is_utf8(v@),
{
    std::str::from_utf8(v).is_ok()
}

/// What the payload source will yield next: a chunk of bytes, a transport
/// failure, or the end of the stream.
pub enum NextChunk {
    Data(Vec<u8>),
    Failed,
    Done,
}

/// A source of payload chunks. The trait abstracts the transport: the
/// decoder is verified for every sequence of chunks a source can yield. A
/// failed chunk stands for a transport error at that point of the stream.
pub trait Chunky: Sized {
    /// The chunks this source will yield, in order; `None` is a failure.
    spec fn chunks(&self) -> Seq<Option<Seq<u8>>>;

    /// Yields the next chunk, consuming it from the source.
    fn next_chunk(&mut self) -> (r: NextChunk)
        ensures
            old(self).chunks().len() == 0 ==> r is Done && final(self).chunks()
                == old(self).chunks(),
            old(self).chunks().len() > 0 ==> final(self).chunks() == old(
                self,
            ).chunks().drop_first() && (match old(self).chunks()[0] {
                Some(b) => r matches NextChunk::Data(v) && v@ == b,
                None => r is Failed,
            }),
    ;
}

/// A payload source over a vector of chunks, as tests and local callers use.
pub struct VecChunks {
    items: Vec<Option<Vec<u8>>>,
    at: usize,
}

impl VecChunks {
    /// A source that will yield `items` in order.
    pub fn new(items: Vec<Option<Vec<u8>>>) -> (r: VecChunks)
        ensures
            r.chunks() == items@.map_values(
                |c: Option<Vec<u8>>|
                    match c {
                        Some(v) => Some(v@),
                        None => None,
                    },
            ),
    {
        let r = VecChunks { items, at: 0 };
        proof {
            assert(r.chunks() =~= r.items@.map_values(
                |c: Option<Vec<u8>>|
                    match c {
                        Some(v) => Some(v@),
                        None => None,
                    },
            ));
        }
        r
    }
}

impl Chunky for VecChunks {
    closed spec fn chunks(&self) -> Seq<Option<Seq<u8>>> {
        if self.at as int > self.items@.len() {
            Seq::empty()
        } else {
            self.items@.skip(self.at as int).map_values(
                |c: Option<Vec<u8>>|
                    match c {
                        Some(v) => Some(v@),
                        None => None,
                    },
            )
        }
    }

    fn next_chunk(&mut self) -> (r: NextChunk) {
        if self.at >= self.items.len() {
            proof {
                assert(self.chunks() =~= old(self).chunks());
                assert(self.chunks().len() == 0);
            }
            return NextChunk::Done;
        }
        let out = match &self.items[self.at] {
            Some(v) => {
                let mut copy: Vec<u8> = Vec::new();
                copy.extend_from_slice(v.as_slice());
                proof {
                    assert(copy@ =~= v@);
                }
                NextChunk::Data(copy)
            },
            None => NextChunk::Failed,
        };
        self.at = self.at + 1;
        proof {
            assert(old(self).chunks()[0] == (match old(self).items@[old(self).at as int] {
                Some(v) => Some(v@),
                None => None::<Seq<u8>>,
            }));
            assert(self.chunks() =~= old(self).chunks().drop_first());
        }
        out
    }
}

/// Whether this chunk ends the metadata scan: a transport failure, a chunk
/// that is not UTF-8, or a chunk holding the `?` boundary.
pub open spec fn chunk_event(c: Option<Seq<u8>>) -> bool {
    match c {
        None => true,
        Some(b) => !is_utf8(b) || find(b, qmark()) != -1,
    }
}

/// Index of the first chunk that ends the metadata scan; the length when
/// none does.
pub open spec fn scan_end(cs: Seq<Option<Seq<u8>>>) -> int
    decreases cs.len(),
{
    if cs.len() == 0 {
        0
    } else if chunk_event(cs[0]) {
        0
    } else {
        1 + scan_end(cs.drop_first())
    }
}

/// What `scan_end` means: nothing before it is an event, and it points at
/// one unless the sequence has none.
pub proof fn lemma_scan_end(cs: Seq<Option<Seq<u8>>>)
    ensures
        0 <= scan_end(cs) <= cs.len(),
        forall|k: int| 0 <= k < scan_end(cs) ==> !chunk_event(#[trigger] cs[k]),
        scan_end(cs) < cs.len() ==> chunk_event(cs[scan_end(cs)]),
    decreases cs.len(),
{
    if cs.len() > 0 && !chunk_event(cs[0]) {
        lemma_scan_end(cs.drop_first());
        assert forall|k: int| 0 <= k < scan_end(cs) implies !chunk_event(#[trigger] cs[k]) by {
            if k > 0 {
                assert(cs.drop_first()[k - 1] == cs[k]);
            }
        }
        if scan_end(cs) < cs.len() {
            assert(cs.drop_first()[scan_end(cs) - 1] == cs[scan_end(cs)]);
        }
    }
}

/// The position that holds the first event is the one `scan_end` returns.
pub proof fn lemma_scan_end_at(cs: Seq<Option<Seq<u8>>>, i: int)
    requires
        0 <= i <= cs.len(),
        forall|k: int| 0 <= k < i ==> !chunk_event(#[trigger] cs[k]),
        i < cs.len() ==> chunk_event(cs[i]),
    ensures
        scan_end(cs) == i,
{
    lemma_scan_end(cs);
    if scan_end(cs) < i {
        assert(chunk_event(cs[scan_end(cs)]));
    }
    if i < scan_end(cs) {
        assert(!chunk_event(cs[i]));
    }
}

/// The bytes the data chunks carry, in order; failures carry none.
pub open spec fn datas(cs: Seq<Option<Seq<u8>>>) -> Seq<u8>
    decreases cs.len(),
{
    if cs.len() == 0 {
        Seq::empty()
    } else {
        (match cs[0] {
            Some(b) => b,
            None => Seq::empty(),
        }) + datas(cs.drop_first())
    }
}

/// `datas` grows chunk by chunk.
pub proof fn lemma_datas_push(cs: Seq<Option<Seq<u8>>>, c: Option<Seq<u8>>)
    ensures
        datas(cs.push(c)) == datas(cs) + (match c {
            Some(b) => b,
            None => Seq::<u8>::empty(),
        }),
    decreases cs.len(),
{
    let d = (match c {
        Some(b) => b,
        None => Seq::<u8>::empty(),
    });
    if cs.len() == 0 {
        assert(cs.push(c)[0] == c);
        assert(cs.push(c).drop_first() =~= Seq::<Option<Seq<u8>>>::empty());
        assert(datas(cs.push(c)) == d + datas(Seq::<Option<Seq<u8>>>::empty()));
        assert(datas(cs.push(c)) =~= datas(cs) + d);
    } else {
        let h = (match cs[0] {
            Some(b) => b,
            None => Seq::<u8>::empty(),
        });
        assert(cs.push(c)[0] == cs[0]);
        assert(cs.push(c).drop_first() =~= cs.drop_first().push(c));
        assert(datas(cs.push(c)) == h + datas(cs.drop_first().push(c)));
        lemma_datas_push(cs.drop_first(), c);
        assert(datas(cs.push(c)) == h + (datas(cs.drop_first()) + d));
        assert(datas(cs) == h + datas(cs.drop_first()));
        assert(datas(cs.push(c)) =~= datas(cs) + d);
    }
}

/// Whether some chunk is a transport failure.
pub open spec fn has_failure(cs: Seq<Option<Seq<u8>>>) -> bool {
    exists|i: int| 0 <= i < cs.len() && cs[i] is None
}

/// One metadata pair `key=value`: exactly one `=`.
pub open spec fn pair_kv(seg: Seq<u8>) -> Option<(Seq<u8>, Seq<u8>)> {
    let e = find(seg, eq_byte());
    if e == -1 {
        None
    } else if find(seg.skip(e + 1), eq_byte()) != -1 {
        None
    } else {
        Some((seg.take(e), seg.skip(e + 1)))
    }
}

/// The `&`-separated pairs of the metadata section; `None` when some
/// segment is not a `key=value` pair.
pub open spec fn parse_pairs(s: Seq<u8>) -> Option<Seq<(Seq<u8>, Seq<u8>)>>
    decreases s.len(),
    via parse_pairs_decreases
{
    let a = find(s, amp());
    if a == -1 {
        match pair_kv(s) {
            Some(p) => Some(seq![p]),
            None => None,
        }
    } else {
        match pair_kv(s.take(a)) {
            Some(p) => match parse_pairs(s.skip(a + 1)) {
                Some(rest) => Some(seq![p] + rest),
                None => None,
            },
            None => None,
        }
    }
}

#[via_fn]
proof fn parse_pairs_decreases(s: Seq<u8>) {
    crate::bytes_util::lemma_find(s, amp());
}

/// Index of the first pair with key `k`, or `-1`.
pub open spec fn key_idx(m: Seq<(Seq<u8>, Seq<u8>)>, k: Seq<u8>) -> int
    decreases m.len(),
{
    if m.len() == 0 {
        -1
    } else if m[0].0 == k {
        0
    } else if key_idx(m.drop_first(), k) == -1 {
        -1
    } else {
        key_idx(m.drop_first(), k) + 1
    }
}

/// What `key_idx` means.
pub proof fn lemma_key_idx(m: Seq<(Seq<u8>, Seq<u8>)>, k: Seq<u8>)
    ensures
        key_idx(m, k) == -1 ==> forall|i: int| 0 <= i < m.len() ==> (#[trigger] m[i]).0 != k,
        key_idx(m, k) != -1 ==> 0 <= key_idx(m, k) < m.len() && m[key_idx(m, k)].0 == k && (forall|
            i: int,
        | 0 <= i < key_idx(m, k) ==> (#[trigger] m[i]).0 != k),
    decreases m.len(),
{
    if m.len() > 0 && m[0].0 != k {
        lemma_key_idx(m.drop_first(), k);
        assert forall|i: int| 0 <= i < m.len() && key_idx(m, k) == -1 implies (#[trigger] m[i]).0
            != k by {
            if i > 0 {
                assert(m.drop_first()[i - 1] == m[i]);
            }
        }
        if key_idx(m, k) != -1 {
            assert forall|i: int| 0 <= i < key_idx(m, k) implies (#[trigger] m[i]).0 != k by {
                if i > 0 {
                    assert(m.drop_first()[i - 1] == m[i]);
                }
            }
        }
    }
}

/// The index `key_idx` returns is the one that first holds `k`.
pub proof fn lemma_key_idx_at(m: Seq<(Seq<u8>, Seq<u8>)>, k: Seq<u8>, i: int)
    requires
        0 <= i < m.len(),
        m[i].0 == k,
        forall|j: int| 0 <= j < i ==> (#[trigger] m[j]).0 != k,
    ensures
        key_idx(m, k) == i,
{
    lemma_key_idx(m, k);
    if key_idx(m, k) == -1 {
        assert(m[i].0 != k);
    } else {
        if key_idx(m, k) < i {
            assert(m[key_idx(m, k)].0 != k);
        }
        if key_idx(m, k) > i {
            assert(m[i].0 != k);
        }
    }
}

/// Inserts `k = v` into an association list: replaces the value of the
/// first pair with that key, or appends a new pair.
pub open spec fn meta_insert(m: Seq<(Seq<u8>, Seq<u8>)>, k: Seq<u8>, v: Seq<u8>) -> Seq<
    (Seq<u8>, Seq<u8>),
> {
    let i = key_idx(m, k);
    if i == -1 {
        m.push((k, v))
    } else {
        m.update(i, (k, v))
    }
}

/// The metadata map the parsed pairs build up, in encounter order, a later
/// value replacing an earlier one under the same key.
pub open spec fn meta_of(pairs: Seq<(Seq<u8>, Seq<u8>)>) -> Seq<(Seq<u8>, Seq<u8>)>
    decreases pairs.len(),
{
    if pairs.len() == 0 {
        Seq::empty()
    } else {
        meta_insert(meta_of(pairs.drop_last()), pairs.last().0, pairs.last().1)
    }
}

/// The value stored under `k`, if any.
pub open spec fn lookup(m: Seq<(Seq<u8>, Seq<u8>)>, k: Seq<u8>) -> Option<Seq<u8>> {
    let i = key_idx(m, k);
    if i == -1 {
        None
    } else {
        Some(m[i].1)
    }
}

/// The association list without the pair for `k`, if one exists.
pub open spec fn remove_key(m: Seq<(Seq<u8>, Seq<u8>)>, k: Seq<u8>) -> Seq<(Seq<u8>, Seq<u8>)> {
    let i = key_idx(m, k);
    if i == -1 {
        m
    } else {
        m.remove(i)
    }
}

/// The pairs joined back to `k1=v1&k2=v2` text.
pub open spec fn join_pairs(m: Seq<(Seq<u8>, Seq<u8>)>) -> Seq<u8>
    decreases m.len(),
{
    if m.len() == 0 {
        Seq::empty()
    } else if m.len() == 1 {
        m[0].0 + seq![eq_byte()] + m[0].1
    } else {
        m[0].0 + seq![eq_byte()] + m[0].1 + seq![amp()] + join_pairs(m.drop_first())
    }
}

/// ASCII lowercasing, byte by byte.
pub open spec fn ascii_lower(s: Seq<u8>) -> Seq<u8> {
    s.map_values(|b: u8| if 65 <= b <= 90 { (b + 32) as u8 } else { b })
}

/// The metadata key `priority`.
pub open spec fn key_priority() -> Seq<u8> {
    seq![112u8, 114u8, 105u8, 111u8, 114u8, 105u8, 116u8, 121u8]
}

/// The metadata key `saveToFile`.
pub open spec fn key_save_to_file() -> Seq<u8> {
    seq![115u8, 97u8, 118u8, 101u8, 84u8, 111u8, 70u8, 105u8, 108u8, 101u8]
}

/// The metadata key `byteSizeOverride`.
pub open spec fn key_byte_size_override() -> Seq<u8> {
    seq![
        98u8,
        121u8,
        116u8,
        101u8,
        83u8,
        105u8,
        122u8,
        101u8,
        79u8,
        118u8,
        101u8,
        114u8,
        114u8,
        105u8,
        100u8,
        101u8,
    ]
}

/// The lowercase word `true`.
pub open spec fn word_true() -> Seq<u8> {
    seq![116u8, 114u8, 117u8, 101u8]
}

/// Whether the metadata asks for file storage: `saveToFile` is present and
/// its value reads `true` in any ASCII case.
pub open spec fn wants_file(m: Seq<(Seq<u8>, Seq<u8>)>) -> bool {
    match lookup(m, key_save_to_file()) {
        Some(v) => ascii_lower(v) == word_true(),
        None => false,
    }
}

/// Whether `v` denotes a number that fits 32 bits.
pub open spec fn valid_u32(v: Seq<u8>) -> bool {
    v.len() > 0 && all_digits(v) && dec_val(v) <= u32::MAX
}

/// A decoded submission, at the specification level.
pub ghost struct SpecMsg {
    /// The priority the message asks for.
    pub priority: u32,
    /// The byte size the message is accounted with: the body's length, or
    /// the caller-supplied override for a blob message.
    pub byte_size: u32,
    /// Whether the payload goes to the file-blob store.
    pub save_to_file: bool,
    /// The message text the record store keeps: the body itself, or the
    /// echoed metadata for a blob message.
    pub msg: Seq<u8>,
    /// For a blob message, the payload bytes that arrived in the same chunk
    /// as the `?` boundary; they head the blob file.
    pub blob_head: Seq<u8>,
}

/// The metadata that a blob message's record echoes: every pair but
/// `priority` and `saveToFile`, joined back to pair text.
pub open spec fn echo_of(m: Seq<(Seq<u8>, Seq<u8>)>) -> Seq<u8> {
    join_pairs(remove_key(remove_key(m, key_priority()), key_save_to_file()))
}

/// What decoding a chunk sequence yields. This is the wire format's
/// definition: the scan accumulates data chunks until one fails, is not
/// UTF-8, or holds the `?` boundary; the metadata before the boundary is
/// parsed as pairs; `priority` is required, and a blob submission further
/// requires a configured file store and a `byteSizeOverride`.
pub open spec fn decode_spec(cs: Seq<Option<Seq<u8>>>, file_storage_configured: bool) -> Result<
    SpecMsg,
    ApiErr,
> {
    let e = scan_end(cs);
    if e == cs.len() {
        Err(ApiErr::MissingPriority)
    } else {
        match cs[e] {
            None => Err(ApiErr::CouldNotGetChunkFromPayload),
            Some(b) => {
                if !is_utf8(b) {
                    Err(ApiErr::CouldNotParseChunk)
                } else {
                    let acc = datas(cs.take(e + 1));
                    let q = find(acc, qmark());
                    if q == 0 {
                        Err(ApiErr::MissingHeaders)
                    } else {
                        match parse_pairs(acc.take(q)) {
                            None => Err(ApiErr::MalformedHeaders),
                            Some(pairs) => decode_meta(
                                meta_of(pairs),
                                acc.skip(q + 1),
                                cs.skip(e + 1),
                                file_storage_configured,
                            ),
                        }
                    }
                }
            },
        }
    }
}

/// Decoding past the boundary: the metadata rules and the body.
pub open spec fn decode_meta(
    m: Seq<(Seq<u8>, Seq<u8>)>,
    tail: Seq<u8>,
    rest: Seq<Option<Seq<u8>>>,
    file_storage_configured: bool,
) -> Result<SpecMsg, ApiErr> {
    if wants_file(m) && !file_storage_configured {
        Err(ApiErr::FileStorageNotConfigured)
    } else {
        match lookup(m, key_priority()) {
            None => Err(ApiErr::MissingPriority),
            Some(pv) => {
                if !valid_u32(pv) {
                    Err(ApiErr::InvalidPriority)
                } else {
                    if wants_file(m) {
                        match lookup(m, key_byte_size_override()) {
                            None => Err(ApiErr::MissingBytesizeOverride),
                            Some(ov) => {
                                if !valid_u32(ov) {
                                    Err(ApiErr::InvalidBytesizeOverride)
                                } else {
                                    Ok(
                                        SpecMsg {
                                            priority: dec_val(pv) as u32,
                                            byte_size: dec_val(ov) as u32,
                                            save_to_file: true,
                                            msg: echo_of(m),
                                            blob_head: tail,
                                        },
                                    )
                                }
                            },
                        }
                    } else {
                        if has_failure(rest) {
                            Err(ApiErr::CouldNotGetChunkFromPayload)
                        } else {
                            let body = tail + datas(rest);
                            if !is_utf8(body) {
                                Err(ApiErr::CouldNotParseChunk)
                            } else if body.len() > u32::MAX {
                                Err(ApiErr::PayloadError)
                            } else {
                                Ok(
                                    SpecMsg {
                                        priority: dec_val(pv) as u32,
                                        byte_size: body.len() as u32,
                                        save_to_file: false,
                                        msg: body,
                                        blob_head: Seq::empty(),
                                    },
                                )
                            }
                        }
                    }
                }
            },
        }
    }
}

/// Byte-for-byte equality of two slices.
pub fn bytes_eq(a: &[u8], b: &[u8]) -> (r: bool)
    ensures
        r == (a@ == b@),
{
    if a.len() != b.len() {
        proof {
            assert(a@ != b@);
        }
        return false;
    }
    let mut i: usize = 0;
    while i < a.len()
        invariant
            0 <= i <= a@.len(),
            a@.len() == b@.len(),
            forall|k: int| 0 <= k < i ==> a@[k] == b@[k],
        decreases a@.len() - i,
    {
        if a[i] != b[i] {
            proof {
                assert(a@ != b@);
            }
            return false;
        }
        i = i + 1;
    }
    proof {
        assert(a@ =~= b@);
    }
    true
}

/// The key `priority` as bytes.
pub fn key_priority_vec() -> (r: Vec<u8>)
    ensures
        r@ == key_priority(),
{
    let mut v: Vec<u8> = Vec::new();
    v.push(112);
    v.push(114);
    v.push(105);
    v.push(111);
    v.push(114);
    v.push(105);
    v.push(116);
    v.push(121);
    proof {
        assert(v@ =~= key_priority());
    }
    v
}

/// The key `saveToFile` as bytes.
pub fn key_save_to_file_vec() -> (r: Vec<u8>)
    ensures
        r@ == key_save_to_file(),
{
    let mut v: Vec<u8> = Vec::new();
    v.push(115);
    v.push(97);
    v.push(118);
    v.push(101);
    v.push(84);
    v.push(111);
    v.push(70);
    v.push(105);
    v.push(108);
    v.push(101);
    proof {
        assert(v@ =~= key_save_to_file());
    }
    v
}

/// The key `byteSizeOverride` as bytes.
pub fn key_byte_size_override_vec() -> (r: Vec<u8>)
    ensures
        r@ == key_byte_size_override(),
{
    let mut v: Vec<u8> = Vec::new();
    v.push(98);
    v.push(121);
    v.push(116);
    v.push(101);
    v.push(83);
    v.push(105);
    v.push(122);
    v.push(101);
    v.push(79);
    v.push(118);
    v.push(101);
    v.push(114);
    v.push(114);
    v.push(105);
    v.push(100);
    v.push(101);
    proof {
        assert(v@ =~= key_byte_size_override());
    }
    v
}

/// The word `true` as bytes.
pub fn word_true_vec() -> (r: Vec<u8>)
    ensures
        r@ == word_true(),
{
    let mut v: Vec<u8> = Vec::new();
    v.push(116);
    v.push(114);
    v.push(117);
    v.push(101);
    proof {
        assert(v@ =~= word_true());
    }
    v
}

/// ASCII-lowercases a byte string.
pub fn ascii_lower_exec(v: &[u8]) -> (r: Vec<u8>)
    ensures
        r@ == ascii_lower(v@),
{
    let mut out: Vec<u8> = Vec::new();
    let mut i: usize = 0;
    while i < v.len()
        invariant
            0 <= i <= v@.len(),
            out@.len() == i,
            forall|k: int|
                0 <= k < i ==> out@[k] == (if 65 <= v@[k] <= 90 {
                    (v@[k] + 32) as u8
                } else {
                    v@[k]
                }),
        decreases v@.len() - i,
    {
        let b = v[i];
        if 65 <= b && b <= 90 {
            out.push(b + 32);
        } else {
            out.push(b);
        }
        i = i + 1;
    }
    proof {
        assert(out@ =~= ascii_lower(v@));
    }
    out
}

/// The view of an executable pair list.
pub open spec fn pairs_view(v: Seq<(Vec<u8>, Vec<u8>)>) -> Seq<(Seq<u8>, Seq<u8>)> {
    v.map_values(|p: (Vec<u8>, Vec<u8>)| (p.0@, p.1@))
}

/// Splits one `key=value` segment.
fn pair_kv_exec(seg: &[u8]) -> (r: Option<(Vec<u8>, Vec<u8>)>)
    ensures
        match r {
            Some(p) => pair_kv(seg@) == Some((p.0@, p.1@)),
            None => pair_kv(seg@) is None,
        },
{
    let n = seg.len();
    let e = match find_byte(seg, 61) {
        Some(e) => e,
        None => {
            return None;
        },
    };
    proof {
        crate::bytes_util::lemma_find(seg@, eq_byte());
        assert(e < n);
    }
    let tail = &seg[e + 1..n];
    proof {
        assert(tail@ =~= seg@.skip(e as int + 1));
    }
    match find_byte(tail, 61) {
        Some(_) => None,
        None => {
            let mut k: Vec<u8> = Vec::new();
            k.extend_from_slice(&seg[0..e]);
            let mut v: Vec<u8> = Vec::new();
            v.extend_from_slice(tail);
            proof {
                assert(k@ =~= seg@.take(e as int));
                assert(v@ =~= seg@.skip(e as int + 1));
            }
            Some((k, v))
        },
    }
}

/// Splits the metadata section into its pairs; fails when some segment is
/// not a `key=value` pair.
fn parse_pairs_exec(s: &[u8]) -> (r: Option<Vec<(Vec<u8>, Vec<u8>)>>)
    ensures
        match r {
            Some(pairs) => parse_pairs(s@) == Some(pairs_view(pairs@)),
            None => parse_pairs(s@) is None,
        },
    decreases s@.len(),
{
    let n = s.len();
    match find_byte(s, 38) {
        None => {
            match pair_kv_exec(s) {
                Some(p) => {
                    let mut pairs: Vec<(Vec<u8>, Vec<u8>)> = Vec::new();
                    let ghost pview = (p.0@, p.1@);
                    pairs.push(p);
                    proof {
                        assert(pairs_view(pairs@) =~= seq![pview]);
                    }
                    Some(pairs)
                },
                None => None,
            }
        },
        Some(a) => {
            proof {
                crate::bytes_util::lemma_find(s@, amp());
                assert(a < n);
            }
            let head = &s[0..a];
            proof {
                assert(head@ =~= s@.take(a as int));
            }
            match pair_kv_exec(head) {
                Some(p) => {
                    let rest_slice = &s[a + 1..n];
                    proof {
                        assert(rest_slice@ =~= s@.skip(a as int + 1));
                    }
                    match parse_pairs_exec(rest_slice) {
                        Some(mut rest) => {
                            let ghost pview = (p.0@, p.1@);
                            let ghost restview = pairs_view(rest@);
                            rest.insert(0, p);
                            proof {
                                assert(pairs_view(rest@) =~= seq![pview] + restview);
                            }
                            Some(rest)
                        },
                        None => None,
                    }
                },
                None => None,
            }
        },
    }
}

/// First index in the pair list whose key equals `k`.
fn key_idx_exec(m: &Vec<(Vec<u8>, Vec<u8>)>, k: &[u8]) -> (r: Option<usize>)
    ensures
        match r {
            Some(i) => 0 <= i < m@.len() && key_idx(pairs_view(m@), k@) == i as int,
            None => key_idx(pairs_view(m@), k@) == -1,
        },
{
    let mut i: usize = 0;
    while i < m.len()
        invariant
            0 <= i <= m@.len(),
            forall|j: int| 0 <= j < i ==> (#[trigger] pairs_view(m@)[j]).0 != k@,
        decreases m@.len() - i,
    {
        if bytes_eq(m[i].0.as_slice(), k) {
            proof {
                assert(pairs_view(m@)[i as int].0 == k@);
                lemma_key_idx_at(pairs_view(m@), k@, i as int);
            }
            return Some(i);
        }
        proof {
            assert(pairs_view(m@)[i as int].0 == m@[i as int].0@);
        }
        i = i + 1;
    }
    proof {
        lemma_key_idx(pairs_view(m@), k@);
        if key_idx(pairs_view(m@), k@) != -1 {
            assert(pairs_view(m@)[key_idx(pairs_view(m@), k@)].0 == k@);
        }
    }
    None
}

/// The value stored under `k`, copied out.
fn lookup_exec(m: &Vec<(Vec<u8>, Vec<u8>)>, k: &[u8]) -> (r: Option<Vec<u8>>)
    ensures
        match r {
            Some(v) => lookup(pairs_view(m@), k@) == Some(v@),
            None => lookup(pairs_view(m@), k@) is None,
        },
{
    match key_idx_exec(m, k) {
        Some(i) => {
            proof {
                lemma_key_idx(pairs_view(m@), k@);
            }
            let mut v: Vec<u8> = Vec::new();
            v.extend_from_slice(m[i].1.as_slice());
            proof {
                assert(v@ =~= pairs_view(m@)[i as int].1);
            }
            Some(v)
        },
        None => None,
    }
}

/// Removes the pair for `k`, if one exists.
fn remove_key_exec(m: &mut Vec<(Vec<u8>, Vec<u8>)>, k: &[u8])
    ensures
        pairs_view(final(m)@) == remove_key(pairs_view(old(m)@), k@),
{
    match key_idx_exec(m, k) {
        Some(i) => {
            proof {
                lemma_key_idx(pairs_view(m@), k@);
            }
            let _ = m.remove(i);
            proof {
                assert(pairs_view(m@) =~= pairs_view(old(m)@).remove(i as int));
            }
        },
        None => {
            proof {
                assert(pairs_view(m@) =~= remove_key(pairs_view(old(m)@), k@));
            }
        },
    }
}

/// Folds the parsed pairs into the metadata map, in encounter order, a later
/// value replacing an earlier one under the same key.
fn meta_of_exec(pairs: &Vec<(Vec<u8>, Vec<u8>)>) -> (r: Vec<(Vec<u8>, Vec<u8>)>)
    ensures
        pairs_view(r@) == meta_of(pairs_view(pairs@)),
{
    let ghost pview = pairs_view(pairs@);
    let mut m: Vec<(Vec<u8>, Vec<u8>)> = Vec::new();
    let mut i: usize = 0;
    let n = pairs.len();
    proof {
        assert(pairs_view(m@) =~= meta_of(pview.take(0)));
    }
    while i < n
        invariant
            0 <= i <= pview.len(),
            n == pview.len(),
            pview == pairs_view(pairs@),
            pairs_view(m@) == meta_of(pview.take(i as int)),
        decreases n - i,
    {
        let ghost mview = pairs_view(m@);
        let mut k: Vec<u8> = Vec::new();
        k.extend_from_slice(pairs[i].0.as_slice());
        let mut v: Vec<u8> = Vec::new();
        v.extend_from_slice(pairs[i].1.as_slice());
        proof {
            assert(pview[i as int] == (pairs@[i as int].0@, pairs@[i as int].1@));
            assert(k@ =~= pview[i as int].0);
            assert(v@ =~= pview[i as int].1);
        }
        match key_idx_exec(&m, k.as_slice()) {
            Some(j) => {
                let _ = m.remove(j);
                m.insert(j, (k, v));
                proof {
                    assert forall|t: int| 0 <= t < m@.len() implies pairs_view(m@)[t]
                        == mview.update(j as int, pview[i as int])[t] by {
                        assert(pairs_view(m@)[t] == (m@[t].0@, m@[t].1@));
                    }
                    assert(pairs_view(m@) =~= mview.update(j as int, pview[i as int]));
                    assert(pairs_view(m@) =~= meta_insert(
                        mview,
                        pview[i as int].0,
                        pview[i as int].1,
                    ));
                }
            },
            None => {
                m.push((k, v));
                proof {
                    assert(pairs_view(m@) =~= mview.push(pview[i as int]));
                    assert(pairs_view(m@) =~= meta_insert(
                        mview,
                        pview[i as int].0,
                        pview[i as int].1,
                    ));
                }
            },
        }
        proof {
            assert(pview.take(i as int + 1).drop_last() =~= pview.take(i as int));
            assert(pview.take(i as int + 1).last() == pview[i as int]);
            assert(pairs_view(m@) =~= meta_of(pview.take(i as int + 1)));
        }
        i = i + 1;
    }
    proof {
        assert(pview.take(n as int) =~= pview);
    }
    m
}

/// Joins the pairs from index `i` on back to `k1=v1&k2=v2` text.
fn join_pairs_exec(m: &Vec<(Vec<u8>, Vec<u8>)>, i: usize) -> (r: Vec<u8>)
    requires
        i <= m@.len(),
    ensures
        r@ == join_pairs(pairs_view(m@).skip(i as int)),
    decreases m@.len() - i,
{
    let mut out: Vec<u8> = Vec::new();
    if i >= m.len() {
        proof {
            assert(pairs_view(m@).skip(i as int) =~= Seq::<(Seq<u8>, Seq<u8>)>::empty());
        }
        return out;
    }
    out.extend_from_slice(m[i].0.as_slice());
    out.push(61);
    out.extend_from_slice(m[i].1.as_slice());
    if i + 1 < m.len() {
        out.push(38);
        let rest = join_pairs_exec(m, i + 1);
        out.extend_from_slice(rest.as_slice());
        proof {
            let s = pairs_view(m@).skip(i as int);
            assert(s[0] == pairs_view(m@)[i as int]);
            assert(s.drop_first() =~= pairs_view(m@).skip(i as int + 1));
            assert(s.len() > 1);
            assert(out@ =~= join_pairs(s));
        }
    } else {
        proof {
            let s = pairs_view(m@).skip(i as int);
            assert(s[0] == pairs_view(m@)[i as int]);
            assert(s.len() == 1);
            assert(out@ =~= join_pairs(s));
        }
    }
    out
}

/// A decoded submission: what the coordination layer admits and stores.
pub struct Decoded {
    /// The priority the message asks for.
    pub priority: u32,
    /// The byte size the message is accounted with.
    pub byte_size: u32,
    /// Whether the payload goes to the file-blob store.
    pub save_to_file: bool,
    /// The message text the record store keeps.
    pub msg: Vec<u8>,
    /// For a blob message, the payload bytes already read past the boundary.
    pub blob_head: Vec<u8>,
}

impl Decoded {
    /// This decoding, at the specification level.
    pub open spec fn view_msg(self) -> SpecMsg {
        SpecMsg {
            priority: self.priority,
            byte_size: self.byte_size,
            save_to_file: self.save_to_file,
            msg: self.msg@,
            blob_head: self.blob_head@,
        }
    }
}

/// Reads chunks until one fails, is not UTF-8, or holds the `?` boundary;
/// returns the bytes accumulated through the boundary chunk.
fn scan_header<T: Chunky>(payload: &mut T) -> (r: Result<Vec<u8>, ApiErr>)
    ensures
        match r {
            Ok(acc) => ({
                let cs0 = old(payload).chunks();
                let e = scan_end(cs0);
                &&& e < cs0.len()
                &&& (cs0[e] matches Some(b) && is_utf8(b))
                &&& acc@ == datas(cs0.take(e + 1))
                &&& find(acc@, qmark()) != -1
                &&& final(payload).chunks() == cs0.skip(e + 1)
            }),
            Err(err) => (err == ApiErr::MissingPriority || err
                == ApiErr::CouldNotGetChunkFromPayload || err == ApiErr::CouldNotParseChunk) && (
            forall|cfg: bool| decode_spec(old(payload).chunks(), cfg) == Err::<SpecMsg, ApiErr>(
                err,
            )),
        },
{
    let ghost cs0 = old(payload).chunks();
    let mut acc: Vec<u8> = Vec::new();
    let ghost mut used: int = 0;
    proof {
        assert(acc@ =~= datas(cs0.take(0)));
        assert(payload.chunks() =~= cs0.skip(0));
    }
    loop
        invariant
            cs0 == old(payload).chunks(),
            0 <= used <= cs0.len(),
            payload.chunks() == cs0.skip(used),
            forall|k: int| 0 <= k < used ==> !chunk_event(#[trigger] cs0[k]),
            acc@ == datas(cs0.take(used)),
            forall|k: int| 0 <= k < acc@.len() ==> acc@[k] != qmark(),
        decreases cs0.len() - used,
    {
        proof {
            assert(payload.chunks().len() == cs0.len() - used);
        }
        match payload.next_chunk() {
            NextChunk::Done => {
                proof {
                    assert(used == cs0.len());
                    lemma_scan_end_at(cs0, used);
                }
                return Err(ApiErr::MissingPriority);
            },
            NextChunk::Failed => {
                proof {
                    assert(cs0.skip(used)[0] == cs0[used]);
                    assert(cs0[used] is None);
                    lemma_scan_end_at(cs0, used);
                }
                return Err(ApiErr::CouldNotGetChunkFromPayload);
            },
            NextChunk::Data(v) => {
                proof {
                    assert(cs0.skip(used)[0] == cs0[used]);
                    assert(cs0[used] is Some && cs0[used]->0 == v@);
                    assert(cs0.skip(used).drop_first() =~= cs0.skip(used + 1));
                }
                if !utf8_check(v.as_slice()) {
                    proof {
                        lemma_scan_end_at(cs0, used);
                    }
                    return Err(ApiErr::CouldNotParseChunk);
                }
                let found = find_byte(v.as_slice(), 63);
                let ghost acc_before = acc@;
                acc.extend_from_slice(v.as_slice());
                proof {
                    assert(cs0.take(used + 1).drop_last() =~= cs0.take(used));
                    assert(cs0.take(used + 1) =~= cs0.take(used).push(cs0[used]));
                    lemma_datas_push(cs0.take(used), cs0[used]);
                    assert(acc@ == datas(cs0.take(used + 1)));
                }
                match found {
                    Some(p) => {
                        proof {
                            crate::bytes_util::lemma_find(v@, qmark());
                            assert(v@[p as int] == qmark());
                            assert(chunk_event(cs0[used]));
                            lemma_scan_end_at(cs0, used);
                            assert(acc@[acc_before.len() + p] == qmark());
                            crate::bytes_util::lemma_find(acc@, qmark());
                            if find(acc@, qmark()) == -1 {
                                assert(acc@[acc_before.len() + p] != qmark());
                            }
                            assert(payload.chunks() == cs0.skip(used + 1));
                        }
                        return Ok(acc);
                    },
                    None => {
                        proof {
                            crate::bytes_util::lemma_find(v@, qmark());
                            assert(!chunk_event(cs0[used]));
                            assert forall|k: int| 0 <= k < acc@.len() implies acc@[k] != qmark() by {
                                if k >= acc_before.len() {
                                    assert(acc@[k] == v@[k - acc_before.len()]);
                                }
                            }
                            used = used + 1;
                        }
                    },
                }
            },
        }
    }
}

/// Consumes the rest of the stream, leaving the transport in a valid state
/// for the next request. Failed chunks are discarded with the rest.
fn drain<T: Chunky>(payload: &mut T)
    ensures
        final(payload).chunks().len() == 0,
{
    loop
        invariant_except_break
            true,
        ensures
            payload.chunks().len() == 0,
        decreases payload.chunks().len(),
    {
        match payload.next_chunk() {
            NextChunk::Done => {
                break ;
            },
            _ => {
            },
        }
    }
}

/// Decodes one submission from the payload stream. Returns exactly what
/// [`decode_spec`] says of the source's chunk sequence. For a blob
/// submission the stream is left at the first chunk past the boundary, whose
/// bytes belong to the blob; for an inline one the stream is consumed. When
/// file storage is requested but not configured, the stream is drained so
/// the transport stays usable, then the request is refused.
pub fn decode<T: Chunky>(payload: &mut T, file_storage_configured: bool) -> (r: Result<
    Decoded,
    ApiErr,
>)
    ensures
        match r {
            Ok(d) => decode_spec(old(payload).chunks(), file_storage_configured) == Ok::<
                SpecMsg,
                ApiErr,
            >(d.view_msg()) && (d.save_to_file ==> final(payload).chunks()
                == old(payload).chunks().skip(scan_end(old(payload).chunks()) + 1)) && (
            !d.save_to_file ==> final(payload).chunks().len() == 0),
            Err(e) => decode_spec(old(payload).chunks(), file_storage_configured) == Err::<
                SpecMsg,
                ApiErr,
            >(e) && !e.fatal() && (e == ApiErr::FileStorageNotConfigured ==> final(payload).chunks().len() == 0),
        },
{
    let ghost cs0 = old(payload).chunks();
    let ghost cfg = file_storage_configured;
    let acc = match scan_header(payload) {
        Ok(acc) => acc,
        Err(e) => {
            proof {
                assert(decode_spec(cs0, cfg) == Err::<SpecMsg, ApiErr>(e));
            }
            return Err(e);
        },
    };
    let ghost e = scan_end(cs0);
    proof {
        lemma_scan_end(cs0);
    }
    let n = acc.len();
    let q = match find_byte(acc.as_slice(), 63) {
        Some(q) => q,
        None => {
            proof {
                assert(false);
            }
            return Err(ApiErr::MissingHeaders);
        },
    };
    proof {
        crate::bytes_util::lemma_find(acc@, qmark());
        assert(q < n);
    }
    if q == 0 {
        proof {
            assert(decode_spec(cs0, cfg) == Err::<SpecMsg, ApiErr>(ApiErr::MissingHeaders));
        }
        return Err(ApiErr::MissingHeaders);
    }
    let meta_slice = &acc[0..q];
    proof {
        assert(meta_slice@ =~= acc@.take(q as int));
    }
    let mut tail0: Vec<u8> = Vec::new();
    tail0.extend_from_slice(&acc[q + 1..n]);
    let ghost tail_view = tail0@;
    proof {
        assert(tail_view =~= acc@.skip(q as int + 1));
    }
    let pairs = match parse_pairs_exec(meta_slice) {
        Some(pairs) => pairs,
        None => {
            proof {
                assert(decode_spec(cs0, cfg) == Err::<SpecMsg, ApiErr>(ApiErr::MalformedHeaders));
            }
            return Err(ApiErr::MalformedHeaders);
        },
    };
    let m = meta_of_exec(&pairs);
    let ghost mview = pairs_view(m@);
    let ghost rest0 = cs0.skip(e + 1);
    proof {
        assert(decode_spec(cs0, cfg) == decode_meta(mview, tail_view, rest0, cfg));
    }
    let stf_key = key_save_to_file_vec();
    let save_to_file = match lookup_exec(&m, stf_key.as_slice()) {
        Some(v) => {
            let lowered = ascii_lower_exec(v.as_slice());
            let word = word_true_vec();
            bytes_eq(lowered.as_slice(), word.as_slice())
        },
        None => false,
    };
    proof {
        assert(save_to_file == wants_file(mview));
    }
    if save_to_file && !file_storage_configured {
        drain(payload);
        proof {
            assert(decode_meta(mview, tail_view, rest0, cfg) == Err::<SpecMsg, ApiErr>(
                ApiErr::FileStorageNotConfigured,
            ));
        }
        return Err(ApiErr::FileStorageNotConfigured);
    }
    let prio_key = key_priority_vec();
    let pv = match lookup_exec(&m, prio_key.as_slice()) {
        Some(pv) => pv,
        None => {
            proof {
                assert(decode_meta(mview, tail_view, rest0, cfg) == Err::<SpecMsg, ApiErr>(
                    ApiErr::MissingPriority,
                ));
            }
            return Err(ApiErr::MissingPriority);
        },
    };
    let priority = match parse_u32(pv.as_slice()) {
        Some(p) => p,
        None => {
            proof {
                assert(!valid_u32(pv@));
                assert(decode_meta(mview, tail_view, rest0, cfg) == Err::<SpecMsg, ApiErr>(
                    ApiErr::InvalidPriority,
                ));
            }
            return Err(ApiErr::InvalidPriority);
        },
    };
    proof {
        assert(valid_u32(pv@) && priority == dec_val(pv@));
    }
    if save_to_file {
        let ov_key = key_byte_size_override_vec();
        let ov = match lookup_exec(&m, ov_key.as_slice()) {
            Some(ov) => ov,
            None => {
                proof {
                    assert(decode_meta(mview, tail_view, rest0, cfg) == Err::<SpecMsg, ApiErr>(
                        ApiErr::MissingBytesizeOverride,
                    ));
                }
                return Err(ApiErr::MissingBytesizeOverride);
            },
        };
        let byte_size = match parse_u32(ov.as_slice()) {
            Some(b) => b,
            None => {
                proof {
                    assert(!valid_u32(ov@));
                    assert(decode_meta(mview, tail_view, rest0, cfg) == Err::<SpecMsg, ApiErr>(
                        ApiErr::InvalidBytesizeOverride,
                    ));
                }
                return Err(ApiErr::InvalidBytesizeOverride);
            },
        };
        let mut echo = m;
        remove_key_exec(&mut echo, prio_key.as_slice());
        remove_key_exec(&mut echo, stf_key.as_slice());
        let msg = join_pairs_exec(&echo, 0);
        proof {
            assert(pairs_view(echo@).skip(0) =~= pairs_view(echo@));
            assert(msg@ == echo_of(mview));
        }
        let d = Decoded { priority, byte_size, save_to_file: true, msg, blob_head: tail0 };
        proof {
            assert(decode_meta(mview, tail_view, rest0, cfg) == Ok::<SpecMsg, ApiErr>(
                d.view_msg(),
            ));
            assert(payload.chunks() == cs0.skip(e + 1));
        }
        Ok(d)
    } else {
        let mut body = tail0;
        let ghost mut j: int = 0;
        proof {
            assert(payload.chunks() =~= rest0.skip(0));
            assert(rest0.take(0) =~= Seq::<Option<Seq<u8>>>::empty());
            assert(body@ =~= tail_view + datas(rest0.take(0)));
        }
        loop
            invariant
                cs0 == old(payload).chunks(),
                cfg == file_storage_configured,
                decode_spec(cs0, cfg) == decode_meta(mview, tail_view, rest0, cfg),
                !wants_file(mview),
                lookup(mview, key_priority()) == Some(pv@),
                valid_u32(pv@),
                priority == dec_val(pv@),
                0 <= j <= rest0.len(),
                payload.chunks() == rest0.skip(j),
                forall|k: int| 0 <= k < j ==> !(#[trigger] rest0[k] is None),
                body@ == tail_view + datas(rest0.take(j)),
            ensures
                payload.chunks().len() == 0,
                !has_failure(rest0),
                body@ == tail_view + datas(rest0),
            decreases rest0.len() - j,
        {
            match payload.next_chunk() {
                NextChunk::Done => {
                    proof {
                        assert(payload.chunks().len() == 0);
                        assert(rest0.skip(j).len() == 0);
                        assert(j == rest0.len());
                        assert(rest0.take(j) =~= rest0);
                        if has_failure(rest0) {
                            let w = choose|w: int| 0 <= w < rest0.len() && rest0[w] is None;
                            assert(!(rest0[w] is None));
                        }
                    }
                    break ;
                },
                NextChunk::Failed => {
                    proof {
                        assert(rest0.skip(j)[0] == rest0[j]);
                        assert(rest0[j] is None);
                        assert(has_failure(rest0));
                        assert(decode_meta(mview, tail_view, rest0, cfg) == Err::<SpecMsg, ApiErr>(
                            ApiErr::CouldNotGetChunkFromPayload,
                        ));
                    }
                    return Err(ApiErr::CouldNotGetChunkFromPayload);
                },
                NextChunk::Data(v) => {
                    proof {
                        assert(rest0.skip(j)[0] == rest0[j]);
                        assert(rest0[j] is Some && rest0[j]->0 == v@);
                        assert(rest0.skip(j).drop_first() =~= rest0.skip(j + 1));
                    }
                    body.extend_from_slice(v.as_slice());
                    proof {
                        assert(rest0.take(j + 1).drop_last() =~= rest0.take(j));
                        assert(rest0.take(j + 1) =~= rest0.take(j).push(rest0[j]));
                        lemma_datas_push(rest0.take(j), rest0[j]);
                        assert(body@ =~= tail_view + datas(rest0.take(j + 1)));
                        j = j + 1;
                    }
                },
            }
        }
        if !utf8_check(body.as_slice()) {
            proof {
                assert(decode_meta(mview, tail_view, rest0, cfg) == Err::<SpecMsg, ApiErr>(
                    ApiErr::CouldNotParseChunk,
                ));
            }
            return Err(ApiErr::CouldNotParseChunk);
        }
        if body.len() as u64 > u32::MAX as u64 {
            proof {
                assert(decode_meta(mview, tail_view, rest0, cfg) == Err::<SpecMsg, ApiErr>(
                    ApiErr::PayloadError,
                ));
            }
            return Err(ApiErr::PayloadError);
        }
        let byte_size = body.len() as u32;
        let blob_head: Vec<u8> = Vec::new();
        let d = Decoded { priority, byte_size, save_to_file: false, msg: body, blob_head };
        proof {
            assert(d.blob_head@ =~= Seq::<u8>::empty());
            assert(decode_meta(mview, tail_view, rest0, cfg) == Ok::<SpecMsg, ApiErr>(
                d.view_msg(),
            ));
        }
        Ok(d)
    }
}

} // verus!
