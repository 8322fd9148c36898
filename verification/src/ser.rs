//! A serializer that writes values in Ethereum's RLP format onto an `rlp::RlpStream`.
//!
//! The stream writes the length of a string or a list as a 32-bit number, and would
//! truncate a longer one. Each wrapper therefore asks that the lengths it makes the
//! stream write fit: the string's own length, and (`fits_item`) those of the lists
//! that the item closes.
use vstd::prelude::*;
use crate::encoding::{
    lemma_begin_list_effect, lemma_begin_list_keeps_wf, lemma_push_into_innermost, lemma_push_grows, lemma_push_keeps_wf,
    list_header_len, rlp_bool, rlp_empty, rlp_list, rlp_string, rlp_uint, uint_item_len,
    StreamState,
};
use rlp::RlpStream;

verus! {

/// The stream of the `rlp` crate. Verus sees nothing inside it.
#[verifier::external_type_specification]
#[verifier::external_body]
pub struct ExRlpStream(rlp::RlpStream);

/// The encoded top-level items that a stream holds.
pub uninterp spec fn rlp_stream_done(s: RlpStream) -> Seq<u8>;

/// The lists that have been begun on a stream and not completed, outermost first:
/// (items expected, items appended, encoded items appended).
pub uninterp spec fn rlp_stream_open(s: RlpStream) -> Seq<(nat, nat, Seq<u8>)>;

/// What a stream holds, as a `StreamState`.
pub open spec fn stream_state(s: RlpStream) -> StreamState {
    StreamState { done: rlp_stream_done(s), open: rlp_stream_open(s) }
}

/// `RlpStream::new`: a stream that holds nothing.
#[verifier::external_body]
fn stream_new() -> (s: RlpStream)
    ensures
        rlp_stream_done(s) == Seq::<u8>::empty(),
        rlp_stream_open(s) == Seq::<(nat, nat, Seq<u8>)>::empty(),
{
    RlpStream::new()
}

/// `RlpStream::append` on a `bool`: appends one item, the RLP integer 1 or 0
/// (`rlp` encodes a `bool` as the `u8` it converts to). The stream panics when the
/// innermost list would receive more items than it expects, which `wf` rules out,
/// and writes list lengths as 32-bit numbers, which `fits_item` keeps in range.
#[verifier::external_body]
fn stream_append_bool(s: &mut RlpStream, v: bool)
    requires
        stream_state(*old(s)).wf(),
        stream_state(*old(s)).fits_item(rlp_bool(v).len()),
    ensures
        stream_state(*final(s)) == stream_state(*old(s)).push(rlp_bool(v)),
{
    s.append(&v);
}

/// `RlpStream::append` on a `u8`: appends one item, the RLP integer `v`.
#[verifier::external_body]
fn stream_append_u8(s: &mut RlpStream, v: u8)
    requires
        stream_state(*old(s)).wf(),
        stream_state(*old(s)).fits_item(rlp_uint(v as nat).len()),
    ensures
        stream_state(*final(s)) == stream_state(*old(s)).push(rlp_uint(v as nat)),
{
    s.append(&v);
}

/// `RlpStream::append` on a `u32`: appends one item, the RLP integer `v` (its
/// big-endian bytes without leading zeros, as a string).
#[verifier::external_body]
fn stream_append_u32(s: &mut RlpStream, v: u32)
    requires
        stream_state(*old(s)).wf(),
        stream_state(*old(s)).fits_item(rlp_uint(v as nat).len()),
    ensures
        stream_state(*final(s)) == stream_state(*old(s)).push(rlp_uint(v as nat)),
{
    s.append(&v);
}

/// `RlpStream::append` on a `u64`: appends one item, the RLP integer `v`.
#[verifier::external_body]
fn stream_append_u64(s: &mut RlpStream, v: u64)
    requires
        stream_state(*old(s)).wf(),
        stream_state(*old(s)).fits_item(rlp_uint(v as nat).len()),
    ensures
        stream_state(*final(s)) == stream_state(*old(s)).push(rlp_uint(v as nat)),
{
    s.append(&v);
}

/// `RlpStream::append` on a `&str`: appends one item, the RLP string of its UTF-8 bytes.
#[verifier::external_body]
fn stream_append_str(s: &mut RlpStream, v: &str)
    requires
        stream_state(*old(s)).wf(),
        vstd::utf8::encode_utf8(v@).len() <= u32::MAX,
        stream_state(*old(s)).fits_item(rlp_string(vstd::utf8::encode_utf8(v@)).len()),
    ensures
        stream_state(*final(s)) == stream_state(*old(s)).push(rlp_string(vstd::utf8::encode_utf8(v@))),
{
    s.append(&v);
}

/// `RlpStream::append_raw`: appends `bytes` as they are, counted as `item_count`
/// items. Stated for one item, the only count that this library passes.
#[verifier::external_body]
fn stream_append_raw(s: &mut RlpStream, bytes: &[u8], item_count: usize)
    requires
        item_count == 1,
        stream_state(*old(s)).wf(),
        stream_state(*old(s)).fits_item(bytes@.len()),
    ensures
        stream_state(*final(s)) == stream_state(*old(s)).push(bytes@),
{
    s.append_raw(bytes, item_count);
}

/// `RlpStream::append_empty_data`: appends one item, the empty string 0x80.
#[verifier::external_body]
fn stream_append_empty_data(s: &mut RlpStream)
    requires
        stream_state(*old(s)).wf(),
        stream_state(*old(s)).fits_item(1),
    ensures
        stream_state(*final(s)) == stream_state(*old(s)).push(rlp_empty()),
{
    s.append_empty_data();
}

/// `RlpStream::begin_list`: opens a list of `len` items; a list of no items is
/// appended at once as the empty list 0xc0.
#[verifier::external_body]
fn stream_begin_list(s: &mut RlpStream, len: usize)
    requires
        stream_state(*old(s)).wf(),
        len == 0 ==> stream_state(*old(s)).fits_item(1),
    ensures
        stream_state(*final(s)) == stream_state(*old(s)).begin_list(len as nat),
{
    s.begin_list(len);
}

/// `RlpStream::as_raw`, copied into a `Vec`: the bytes written so far.
#[verifier::external_body]
fn stream_raw_bytes(s: &RlpStream) -> (v: Vec<u8>)
    ensures
        v@ == stream_state(*s).raw(),
{
    s.as_raw().into()
}

/// The length of `RlpStream::as_raw`: the number of bytes written so far.
#[verifier::external_body]
fn stream_raw_len(s: &RlpStream) -> (n: usize)
    ensures
        n == stream_state(*s).raw().len(),
{
    s.as_raw().len()
}

/// What `serialize_u8(v)` does to a serializer in the state `s`.
pub open spec fn u8_effect(s: StreamState, v: u8) -> StreamState {
    s.push(rlp_uint(v as nat))
}

/// The length of the list that `serialize_seq(len)` begins: none when it is not known.
pub open spec fn seq_len(len: Option<usize>) -> nat {
    match len {
        Some(n) => n as nat,
        None => 0,
    }
}

/// What `serialize_seq(len)` does to a serializer in the state `s`: it begins a list
/// of the given length, or of none when the length is not known.
pub open spec fn seq_effect(s: StreamState, len: Option<usize>) -> StreamState {
    s.begin_list(seq_len(len))
}

/// A sequence of unknown length is, wherever it stands, one complete item: the empty
/// list 0xc0. Inside an open list that still expects more than one item, that list
/// counts one more item and holds 0xc0 after its items; inside one that expects just
/// this item, that list is closed and appended to the list around it.
pub proof fn lemma_unknown_length_sequence(s: StreamState)
    requires
        s.wf(),
    ensures
        seq_effect(s, None) == s.push(seq![0xc0u8]),
        s.is_finished() ==> seq_effect(s, None).done == s.done + seq![0xc0u8]
            && seq_effect(s, None).is_finished(),
        s.open.len() > 0 && s.open.last().1 + 1 < s.open.last().0 ==> seq_effect(s, None) == (
        StreamState {
            done: s.done,
            open: s.open.drop_last().push(
                (s.open.last().0, s.open.last().1 + 1, s.open.last().2 + seq![0xc0u8]),
            ),
        }),
        s.open.len() > 0 && s.open.last().1 + 1 == s.open.last().0 ==> seq_effect(s, None) == (
        StreamState { done: s.done, open: s.open.drop_last() }).push(
            rlp_list(s.open.last().2 + seq![0xc0u8]),
        ),
{
    lemma_begin_list_effect(s, 0);
    if s.open.len() > 0 {
        lemma_push_into_innermost(s, seq![0xc0u8]);
    }
}

/// Beginning a list of `n` items writes a length only when `n` is zero: the empty
/// list is then appended as one item of one byte.
pub open spec fn list_fits(s: StreamState, n: nat) -> bool {
    n == 0 ==> s.fits_item(1)
}

/// The serializer's record of the open lists matches the stream's: (items expected,
/// items appended, payload length) for each.
pub open spec fn tracks(lists: Seq<(usize, usize, usize)>, open: Seq<(nat, nat, Seq<u8>)>) -> bool {
    &&& lists.len() == open.len()
    &&& forall|i: int|
        0 <= i < lists.len() ==> {
            &&& (#[trigger] lists[i]).0 == open[i].0
            &&& lists[i].1 == open[i].1
            &&& lists[i].2 == open[i].2.len()
        }
}

/// Serializes values into Ethereum RLP, one serde call at a time: scalars become RLP
/// strings, sequences, tuples, structs and `Some` become RLP lists, `None` and unit
/// become the empty string. It keeps a record of the lists it has begun, so that it
/// can tell beforehand whether a value's lengths fit.
pub struct EthereumRlpSerializer {
    stream: RlpStream,
    lists: Vec<(usize, usize, usize)>,
}

impl View for EthereumRlpSerializer {
    type V = StreamState;

    closed spec fn view(&self) -> StreamState {
        stream_state(self.stream)
    }
}

/// Brings `lists`, the record of `s.open`, up to date with `s.push(item)`, where
/// `item` has `e` bytes.
fn track_push(
    lists: &mut Vec<(usize, usize, usize)>,
    Ghost(s): Ghost<StreamState>,
    Ghost(item): Ghost<Seq<u8>>,
    e: u64,
)
    requires
        e == item.len(),
        s.push(item).raw().len() <= usize::MAX,
        s.wf(),
        tracks(old(lists)@, s.open),
    ensures
        tracks(final(lists)@, s.push(item).open),
{
    let ghost target = s.push(item);
    let ghost mut cur = s;
    let ghost mut it = item;
    proof {
        lemma_push_grows(s, item);
    }
    let mut carry: usize = e as usize;
    let mut finished = false;
    while !finished
        invariant
            target == s.push(item),
            target.raw().len() <= usize::MAX,
            !finished ==> cur.push(it) == target && cur.wf() && tracks(lists@, cur.open)
                && carry == it.len(),
            finished ==> tracks(lists@, target.open),
        decreases lists@.len() + (if finished { 0int } else { 1int }),
    {
        let n = lists.len();
        if n == 0 {
            proof {
                assert(target.open =~= cur.open);
            }
            finished = true;
        } else {
            let top = lists[n - 1];
            let ghost rest = StreamState { done: cur.done, open: cur.open.drop_last() };
            let ghost payload = cur.open.last().2 + it;
            proof {
                lemma_push_grows(cur, it);
                assert(cur.raw().len() == rest.raw().len() + 1 + cur.open.last().2.len());
                assert(lists@[n - 1] == top);
                assert(cur.open[n - 1] == cur.open.last());
            }
            let p: usize = top.2 + carry;
            if top.1 + 1 >= top.0 {
                lists.pop();
                proof {
                    lemma_push_grows(rest, rlp_list(payload));
                    assert(tracks(lists@, rest.open)) by {
                        assert forall|i: int| 0 <= i < lists@.len() implies {
                            &&& (#[trigger] lists@[i]).0 == rest.open[i].0
                            &&& lists@[i].1 == rest.open[i].1
                            &&& lists@[i].2 == rest.open[i].2.len()
                        } by {
                            assert(rest.open[i] == cur.open[i]);
                        }
                    }
                    assert forall|i: int| 0 <= i < rest.open.len() implies #[trigger] rest.open[i].1
                        < rest.open[i].0 by {
                        assert(rest.open[i] == cur.open[i]);
                    }
                }
                let h = list_header_len(p as u64);
                carry = h as usize + p;
                proof {
                    cur = rest;
                    it = rlp_list(payload);
                }
            } else {
                lists.set(n - 1, (top.0, top.1 + 1, p));
                proof {
                    assert(target.open =~= cur.open.drop_last().push(
                        (cur.open.last().0, cur.open.last().1 + 1, payload),
                    ));
                    assert forall|i: int| 0 <= i < lists@.len() implies {
                        &&& (#[trigger] lists@[i]).0 == target.open[i].0
                        &&& lists@[i].1 == target.open[i].1
                        &&& lists@[i].2 == target.open[i].2.len()
                    } by {
                        if i < n - 1 {
                            assert(target.open[i] == cur.open[i]);
                        }
                    }
                }
                finished = true;
            }
        }
    }
}

impl EthereumRlpSerializer {
    /// The serializer's record of open lists matches its stream, every open list still
    /// expects an item, and what is written fits in memory.
    pub closed spec fn well_formed(&self) -> bool {
        &&& self@.wf()
        &&& self@.raw().len() <= usize::MAX
        &&& tracks(self.lists@, self@.open)
    }

    /// A serializer with nothing written.
    pub fn new() -> (r: Self)
        ensures
            r@ == StreamState::empty(),
            r.well_formed(),
    {
        let r = EthereumRlpSerializer { stream: stream_new(), lists: Vec::new() };
        assert(r@.open =~= StreamState::empty().open);
        assert(r@.done =~= StreamState::empty().done);
        r
    }

    /// The bytes written so far. Once every list begun has received its items, this
    /// is the concatenated RLP encoding of the top-level values.
    pub fn finalize(self) -> (bytes: Vec<u8>)
        ensures
            bytes@ == self@.raw(),
    {
        stream_raw_bytes(&self.stream)
    }

    /// Whether appending an item of `len` encoded bytes keeps the length of every list
    /// that it closes within the 32 bits in which the stream writes it.
    pub fn fits(&self, len: u64) -> (r: bool)
        requires
            self.well_formed(),
        ensures
            r == self@.fits_item(len as nat),
    {
        let ghost s = self@;
        let mut k = self.lists.len();
        let mut carry: u64 = len;
        assert(s.open.take(k as int) =~= s.open);
        while k > 0
            invariant
                self.well_formed(),
                s == self@,
                k <= self.lists@.len(),
                s.fits_item(len as nat) == (StreamState {
                    done: s.done,
                    open: s.open.take(k as int),
                }).fits_item(carry as nat),
            decreases k,
        {
            let top = self.lists[k - 1];
            let ghost pre = StreamState { done: s.done, open: s.open.take(k as int) };
            proof {
                assert(self.lists@[k - 1] == top);
                assert(pre.open.last() == s.open[k - 1]);
                assert(pre.open.drop_last() =~= s.open.take(k - 1));
                assert(s.open[k - 1].1 < s.open[k - 1].0);
            }
            if top.1 + 1 >= top.0 {
                let t2 = top.2 as u64;
                if t2 > 4294967295 || carry > 4294967295 - t2 {
                    return false;
                }
                let p = t2 + carry;
                carry = list_header_len(p) + p;
                k = k - 1;
            } else {
                return true;
            }
        }
        true
    }

    /// Learns that what is written fits in memory, and records `s.push(item)`.
    fn after_push(&mut self, Ghost(s): Ghost<StreamState>, Ghost(item): Ghost<Seq<u8>>, e: u64)
        requires
            old(self)@ == s.push(item),
            s.wf(),
            tracks(old(self).lists@, s.open),
            e == item.len(),
        ensures
            final(self).well_formed(),
            final(self)@ == s.push(item),
    {
        let _written = stream_raw_len(&self.stream);
        proof {
            lemma_push_keeps_wf(s, item);
        }
        track_push(&mut self.lists, Ghost(s), Ghost(item), e);
    }

    /// Begins a list of `n` items on the stream, and records it.
    fn begin(&mut self, n: usize)
        requires
            old(self).well_formed(),
            list_fits(old(self)@, n as nat),
        ensures
            final(self).well_formed(),
            final(self)@ == old(self)@.begin_list(n as nat),
    {
        let ghost s = self@;
        proof {
            lemma_begin_list_keeps_wf(s, n as nat);
        }
        stream_begin_list(&mut self.stream, n);
        if n == 0 {
            self.after_push(Ghost(s), Ghost(rlp_list(Seq::empty())), 1);
        } else {
            let _written = stream_raw_len(&self.stream);
            self.lists.push((n, 0, 0));
            proof {
                assert forall|i: int| 0 <= i < self.lists@.len() implies {
                    &&& (#[trigger] self.lists@[i]).0 == self@.open[i].0
                    &&& self.lists@[i].1 == self@.open[i].1
                    &&& self.lists@[i].2 == self@.open[i].2.len()
                } by {
                    if i < self.lists@.len() - 1 {
                        assert(self@.open[i] == s.open[i]);
                    }
                }
            }
        }
    }

    /// Appends a boolean, the RLP integer 1 or 0.
    pub fn serialize_bool(&mut self, v: bool)
        requires
            old(self).well_formed(),
            old(self)@.fits_item(rlp_bool(v).len()),
        ensures
            final(self)@ == old(self)@.push(rlp_bool(v)),
            final(self).well_formed(),
    {
        let ghost s = self@;
        let e = uint_item_len(if v { 1 } else { 0 });
        stream_append_bool(&mut self.stream, v);
        self.after_push(Ghost(s), Ghost(rlp_bool(v)), e);
    }

    /// Appends a byte as an RLP integer: 0 becomes 0x80, 1 to 0x7f stand for themselves.
    pub fn serialize_u8(&mut self, v: u8)
        requires
            old(self).well_formed(),
            old(self)@.fits_item(rlp_uint(v as nat).len()),
        ensures
            final(self)@ == u8_effect(old(self)@, v),
            final(self)@ == old(self)@.push(rlp_uint(v as nat)),
            final(self).well_formed(),
    {
        let ghost s = self@;
        let e = uint_item_len(v as u64);
        stream_append_u8(&mut self.stream, v);
        self.after_push(Ghost(s), Ghost(rlp_uint(v as nat)), e);
    }

    /// Appends a `u32` as an RLP integer: its big-endian bytes without leading zeros.
    pub fn serialize_u32(&mut self, v: u32)
        requires
            old(self).well_formed(),
            old(self)@.fits_item(rlp_uint(v as nat).len()),
        ensures
            final(self)@ == old(self)@.push(rlp_uint(v as nat)),
            final(self).well_formed(),
    {
        let ghost s = self@;
        let e = uint_item_len(v as u64);
        stream_append_u32(&mut self.stream, v);
        self.after_push(Ghost(s), Ghost(rlp_uint(v as nat)), e);
    }

    /// Appends a `u64` as an RLP integer: its big-endian bytes without leading zeros.
    pub fn serialize_u64(&mut self, v: u64)
        requires
            old(self).well_formed(),
            old(self)@.fits_item(rlp_uint(v as nat).len()),
        ensures
            final(self)@ == old(self)@.push(rlp_uint(v as nat)),
            final(self).well_formed(),
    {
        let ghost s = self@;
        let e = uint_item_len(v);
        stream_append_u64(&mut self.stream, v);
        self.after_push(Ghost(s), Ghost(rlp_uint(v as nat)), e);
    }

    /// Appends a string as the RLP string of its UTF-8 bytes; their number must fit
    /// in the 32 bits in which the stream writes it.
    pub fn serialize_str(&mut self, v: &str)
        requires
            old(self).well_formed(),
            vstd::utf8::encode_utf8(v@).len() <= u32::MAX,
            old(self)@.fits_item(rlp_string(vstd::utf8::encode_utf8(v@)).len()),
        ensures
            final(self)@ == old(self)@.push(rlp_string(vstd::utf8::encode_utf8(v@))),
            final(self).well_formed(),
    {
        let ghost s = self@;
        let ghost item = rlp_string(vstd::utf8::encode_utf8(v@));
        let bytes = v.as_bytes();
        let e = match crate::encoding::string_item_len(bytes) {
            Some(e) => e,
            None => 0,
        };
        stream_append_str(&mut self.stream, v);
        self.after_push(Ghost(s), Ghost(item), e);
    }

    /// Appends bytes as they are, as one item: they are taken to be RLP already.
    pub fn serialize_bytes(&mut self, v: &[u8])
        requires
            old(self).well_formed(),
            old(self)@.fits_item(v@.len()),
        ensures
            final(self)@ == old(self)@.push(v@),
            final(self).well_formed(),
    {
        let ghost s = self@;
        stream_append_raw(&mut self.stream, v, 1);
        let e = v.len() as u64;
        self.after_push(Ghost(s), Ghost(v@), e);
    }

    /// Appends `None` as the empty string 0x80.
    pub fn serialize_none(&mut self)
        requires
            old(self).well_formed(),
            old(self)@.fits_item(1),
        ensures
            final(self)@ == old(self)@.push(rlp_empty()),
            final(self)@ == old(self)@.push(seq![0x80u8]),
            final(self).well_formed(),
    {
        let ghost s = self@;
        stream_append_empty_data(&mut self.stream);
        self.after_push(Ghost(s), Ghost(rlp_empty()), 1);
    }

    /// Appends the unit value as the empty string 0x80.
    pub fn serialize_unit(&mut self)
        requires
            old(self).well_formed(),
            old(self)@.fits_item(1),
        ensures
            final(self)@ == old(self)@.push(rlp_empty()),
            final(self)@ == old(self)@.push(seq![0x80u8]),
            final(self).well_formed(),
    {
        let ghost s = self@;
        stream_append_empty_data(&mut self.stream);
        self.after_push(Ghost(s), Ghost(rlp_empty()), 1);
    }

    /// Appends a character as the byte that its code point truncates to: the same as
    /// `serialize_u8(v as u8)`.
    pub fn serialize_char(&mut self, v: char)
        requires
            old(self).well_formed(),
            old(self)@.fits_item(rlp_uint((v as u8) as nat).len()),
        ensures
            final(self)@ == u8_effect(old(self)@, v as u8),
            final(self)@ == old(self)@.push(rlp_uint(((v as u32) % 256) as nat)),
            final(self).well_formed(),
    {
        let code: u32 = v as u32;
        let b: u8 = v as u8;
        assert(b == code as u8);
        assert(code as u8 == code % 256) by (bit_vector);
        self.serialize_u8(b);
    }

    /// Begins the list of one item that holds the value of a `Some`; the value is
    /// serialized next.
    pub fn serialize_some(&mut self)
        requires
            old(self).well_formed(),
        ensures
            final(self)@ == (StreamState {
                done: old(self)@.done,
                open: old(self)@.open.push((1nat, 0nat, Seq::empty())),
            }),
            final(self)@ == old(self)@.begin_list(1),
            final(self).well_formed(),
    {
        proof {
            lemma_begin_list_effect(self@, 1);
        }
        self.begin(1);
    }

    /// Begins a list for a sequence of `len` elements, whose elements are serialized
    /// next. A sequence whose length is not known is written, wherever it stands, as
    /// the empty list 0xc0: one complete item of the list around it, if any.
    pub fn serialize_seq(&mut self, len: Option<usize>)
        requires
            old(self).well_formed(),
            list_fits(old(self)@, seq_len(len)),
        ensures
            final(self)@ == seq_effect(old(self)@, len),
            len is None ==> final(self)@ == old(self)@.push(seq![0xc0u8]),
            len == Some(0usize) ==> final(self)@ == old(self)@.push(seq![0xc0u8]),
            forall|n: usize|
                len == Some(n) && n > 0 ==> final(self)@ == (StreamState {
                    done: old(self)@.done,
                    open: old(self)@.open.push((n as nat, 0nat, Seq::empty())),
                }),
            final(self).well_formed(),
    {
        proof {
            lemma_begin_list_effect(self@, seq_len(len));
        }
        let n: usize = match len {
            Some(n) => n,
            None => 0,
        };
        self.begin(n);
    }

    /// Begins a list for a tuple of `len` elements: the same as `serialize_seq(Some(len))`.
    pub fn serialize_tuple(&mut self, len: usize)
        requires
            old(self).well_formed(),
            list_fits(old(self)@, len as nat),
        ensures
            len == 0 ==> final(self)@ == old(self)@.push(seq![0xc0u8]),
            len > 0 ==> final(self)@ == (StreamState {
                done: old(self)@.done,
                open: old(self)@.open.push((len as nat, 0nat, Seq::empty())),
            }),
            final(self)@ == seq_effect(old(self)@, Some(len)),
            final(self)@ == old(self)@.begin_list(len as nat),
            final(self).well_formed(),
    {
        proof {
            lemma_begin_list_effect(self@, len as nat);
        }
        self.serialize_seq(Some(len));
    }

    /// Begins a list for a struct of `len` fields, the same as `serialize_seq(Some(len))`:
    /// the struct's name is not written, and the fields are serialized next.
    pub fn serialize_struct(&mut self, len: usize)
        requires
            old(self).well_formed(),
            list_fits(old(self)@, len as nat),
        ensures
            len == 0 ==> final(self)@ == old(self)@.push(seq![0xc0u8]),
            len > 0 ==> final(self)@ == (StreamState {
                done: old(self)@.done,
                open: old(self)@.open.push((len as nat, 0nat, Seq::empty())),
            }),
            final(self)@ == seq_effect(old(self)@, Some(len)),
            final(self)@ == old(self)@.begin_list(len as nat),
            final(self).well_formed(),
    {
        proof {
            lemma_begin_list_effect(self@, len as nat);
        }
        self.begin(len);
    }
}

} // verus!
