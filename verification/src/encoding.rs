//! The RLP format (Ethereum yellow paper, appendix B) as spec functions, and the
//! state of an RLP stream that is being filled item by item.
use vstd::prelude::*;

verus! {

/// The big-endian bytes of `v` without leading zeros; empty for zero.
pub open spec fn be_bytes(v: nat) -> Seq<u8>
    decreases v,
{
    if v == 0 {
        Seq::empty()
    } else {
        be_bytes(v / 256).push((v % 256) as u8)
    }
}

/// The RLP encoding of a byte string.
pub open spec fn rlp_string(b: Seq<u8>) -> Seq<u8> {
    if b.len() == 1 && b[0] < 0x80 {
        b
    } else if b.len() <= 55 {
        seq![(0x80 + b.len()) as u8] + b
    } else {
        seq![(0xb7 + be_bytes(b.len()).len()) as u8] + be_bytes(b.len()) + b
    }
}

/// The RLP encoding of an unsigned integer: its minimal big-endian bytes as a string.
pub open spec fn rlp_uint(v: nat) -> Seq<u8> {
    rlp_string(be_bytes(v))
}

/// The RLP encoding of a boolean: the integer 1 or 0.
pub open spec fn rlp_bool(b: bool) -> Seq<u8> {
    rlp_uint(if b { 1 } else { 0 })
}

/// The RLP empty string, which also stands for "no value".
pub open spec fn rlp_empty() -> Seq<u8> {
    seq![0x80u8]
}

/// The header of an RLP list whose payload has `len` bytes.
pub open spec fn rlp_list_header(len: nat) -> Seq<u8> {
    if len <= 55 {
        seq![(0xc0 + len) as u8]
    } else {
        seq![(0xf7 + be_bytes(len).len()) as u8] + be_bytes(len)
    }
}

/// The RLP encoding of a list whose items, already encoded, concatenate to `payload`.
pub open spec fn rlp_list(payload: Seq<u8>) -> Seq<u8> {
    rlp_list_header(payload.len()) + payload
}

/// An RLP stream that is being filled: the encoded top-level items so far, and the
/// lists that have been begun and not yet completed, outermost first. Each open list
/// is (items it expects, items it has, the encoded items it has).
pub struct StreamState {
    pub done: Seq<u8>,
    pub open: Seq<(nat, nat, Seq<u8>)>,
}

impl StreamState {
    /// A stream with nothing in it.
    pub open spec fn empty() -> StreamState {
        StreamState { done: Seq::empty(), open: Seq::empty() }
    }

    /// Every open list still expects at least one more item.
    pub open spec fn wf(self) -> bool {
        forall|i: int| 0 <= i < self.open.len() ==> #[trigger] self.open[i].1 < self.open[i].0
    }

    /// No list is open.
    pub open spec fn is_finished(self) -> bool {
        self.open.len() == 0
    }

    /// Appends one encoded item. It goes into the innermost open list; a list that
    /// thereby receives all the items it expects is closed, and its own encoding is
    /// appended as one item to the list around it.
    pub open spec fn push(self, item: Seq<u8>) -> StreamState
        decreases self.open.len(),
    {
        if self.open.len() == 0 {
            StreamState { done: self.done + item, open: self.open }
        } else {
            let top = self.open.last();
            let payload = top.2 + item;
            if top.1 + 1 >= top.0 {
                StreamState { done: self.done, open: self.open.drop_last() }.push(rlp_list(payload))
            } else {
                StreamState { done: self.done, open: self.open.drop_last().push((top.0, top.1 + 1, payload)) }
            }
        }
    }

    /// Begins a list of `n` items; a list of no items is complete at once.
    pub open spec fn begin_list(self, n: nat) -> StreamState {
        if n == 0 {
            self.push(rlp_list(Seq::empty()))
        } else {
            StreamState { done: self.done, open: self.open.push((n, 0nat, Seq::empty())) }
        }
    }

    /// The bytes written so far: each open list holds one reserved byte, zero until
    /// the list is closed, in front of its items.
    pub open spec fn raw(self) -> Seq<u8>
        decreases self.open.len(),
    {
        if self.open.len() == 0 {
            self.done
        } else {
            StreamState { done: self.done, open: self.open.drop_last() }.raw() + seq![0u8]
                + self.open.last().2
        }
    }
}

impl StreamState {
    /// Appends the encoded items `items`, first to last.
    pub open spec fn push_all(self, items: Seq<Seq<u8>>) -> StreamState
        decreases items.len(),
    {
        if items.len() == 0 {
            self
        } else {
            self.push_all(items.drop_last()).push(items.last())
        }
    }
}

/// Appending an item keeps every open list short of the items it expects.
pub proof fn lemma_push_keeps_wf(s: StreamState, item: Seq<u8>)
    requires
        s.wf(),
    ensures
        s.push(item).wf(),
    decreases s.open.len(),
{
    if s.open.len() > 0 {
        let top = s.open.last();
        let rest = StreamState { done: s.done, open: s.open.drop_last() };
        if top.1 + 1 >= top.0 {
            assert(rest.wf()) by {
                assert forall|i: int| 0 <= i < rest.open.len() implies #[trigger] rest.open[i].1
                    < rest.open[i].0 by {
                    assert(rest.open[i] == s.open[i]);
                }
            }
            lemma_push_keeps_wf(rest, rlp_list(top.2 + item));
        } else {
            let t = s.push(item);
            assert forall|i: int| 0 <= i < t.open.len() implies #[trigger] t.open[i].1
                < t.open[i].0 by {
                if i < t.open.len() - 1 {
                    assert(t.open[i] == s.open[i]);
                }
            }
        }
    }
}

/// Beginning a list keeps every open list short of the items it expects.
pub proof fn lemma_begin_list_keeps_wf(s: StreamState, n: nat)
    requires
        s.wf(),
    ensures
        s.begin_list(n).wf(),
{
    if n == 0 {
        lemma_push_keeps_wf(s, rlp_list(Seq::empty()));
    } else {
        let t = s.begin_list(n);
        assert forall|i: int| 0 <= i < t.open.len() implies #[trigger] t.open[i].1 < t.open[i].0 by {
            if i < t.open.len() - 1 {
                assert(t.open[i] == s.open[i]);
            }
        }
    }
}

/// While a list begun with `n` items has received `k < n` of them, it is the
/// innermost open list, holding exactly those items, and nothing else has changed.
proof fn lemma_partial_list(s: StreamState, n: nat, items: Seq<Seq<u8>>)
    requires
        items.len() < n,
    ensures
        s.begin_list(n).push_all(items) == (StreamState {
            done: s.done,
            open: s.open.push((n, items.len(), items.flatten())),
        }),
    decreases items.len(),
{
    if items.len() == 0 {
        assert(items.flatten() =~= Seq::<u8>::empty());
    } else {
        let prev = items.drop_last();
        lemma_partial_list(s, n, prev);
        let mid = StreamState { done: s.done, open: s.open.push((n, prev.len(), prev.flatten())) };
        assert(mid.open.drop_last() =~= s.open);
        prev.lemma_flatten_push(items.last());
        assert(prev.push(items.last()) =~= items);
        assert(mid.open.drop_last().push((n, items.len(), items.flatten())) =~= s.open.push(
            (n, items.len(), items.flatten()),
        ));
    }
}

/// A list begun with `n` items and then given `n` encoded items has the same effect
/// on the stream as appending, in one item, the RLP list of those items.
pub proof fn lemma_list_of_items(s: StreamState, items: Seq<Seq<u8>>)
    ensures
        s.begin_list(items.len()).push_all(items) == s.push(rlp_list(items.flatten())),
{
    let n = items.len();
    if n == 0 {
        assert(items.flatten() =~= Seq::<u8>::empty());
    } else {
        let prev = items.drop_last();
        lemma_partial_list(s, n, prev);
        let mid = StreamState { done: s.done, open: s.open.push((n, prev.len(), prev.flatten())) };
        prev.lemma_flatten_push(items.last());
        assert(prev.push(items.last()) =~= items);
        let below = StreamState { done: mid.done, open: mid.open.drop_last() };
        assert(below.open =~= s.open);
        assert(below == s);
    }
}

/// The empty list is the single byte 0xc0.
pub proof fn lemma_empty_list_byte()
    ensures
        rlp_list(Seq::empty()) == seq![0xc0u8],
{
    assert(rlp_list(Seq::<u8>::empty()) =~= seq![0xc0u8]);
}

/// Beginning a list of no items, in any state, appends the empty list 0xc0 as one
/// complete item; beginning a list of `n > 0` items writes nothing yet and opens a
/// list that expects `n` items and has none.
pub proof fn lemma_begin_list_effect(s: StreamState, n: nat)
    ensures
        n == 0 ==> s.begin_list(n) == s.push(seq![0xc0u8]),
        n > 0 ==> s.begin_list(n) == (StreamState {
            done: s.done,
            open: s.open.push((n, 0nat, Seq::empty())),
        }),
        n > 0 ==> s.begin_list(n).raw() == s.raw() + seq![0u8],
{
    lemma_empty_list_byte();
    if n > 0 {
        let t = s.begin_list(n);
        assert(t.open.drop_last() =~= s.open);
        assert(StreamState { done: t.done, open: t.open.drop_last() } == s);
        assert(t.open.last().2 =~= Seq::<u8>::empty());
        assert(s.raw() + seq![0u8] + Seq::<u8>::empty() =~= s.raw() + seq![0u8]);
    }
}

/// An appended item goes into the innermost open list: it counts one more item and
/// its bytes follow that list's items; when that completes the list, the list is
/// closed and no longer open, and every list around it stays open.
pub proof fn lemma_push_into_innermost(s: StreamState, item: Seq<u8>)
    requires
        s.open.len() > 0,
        s.wf(),
    ensures
        ({
            let top = s.open.last();
            let t = s.push(item);
            &&& top.1 + 1 < top.0 ==> t == (StreamState {
                done: s.done,
                open: s.open.drop_last().push((top.0, top.1 + 1, top.2 + item)),
            })
            &&& top.1 + 1 == top.0 ==> t == (StreamState {
                done: s.done,
                open: s.open.drop_last(),
            }).push(rlp_list(top.2 + item))
        }),
{
    assert(s.open[s.open.len() - 1].1 < s.open[s.open.len() - 1].0);
}

/// With no list open, the bytes written are the encoded top-level items, and an
/// appended item follows them directly.
pub proof fn lemma_finished_stream(s: StreamState, item: Seq<u8>)
    requires
        s.is_finished(),
    ensures
        s.raw() == s.done,
        s.push(item) == (StreamState { done: s.done + item, open: s.open }),
        s.push(item).raw() == s.done + item,
{
}

/// A list begun for one item and given the encoded item `item` (the way a `Some`
/// value is written) has the same effect as appending the one-item list of `item`.
pub proof fn lemma_list_of_one(s: StreamState, item: Seq<u8>)
    ensures
        s.begin_list(1).push(item) == s.push(rlp_list(item)),
{
    let items = seq![item];
    lemma_list_of_items(s, items);
    assert(items.drop_last() =~= Seq::<Seq<u8>>::empty());
    assert(items.last() == item);
    assert(s.begin_list(1).push_all(items) == s.begin_list(1).push_all(items.drop_last()).push(
        item,
    ));
    assert(items.flatten() =~= item) by {
        items.lemma_flatten_one_element();
    }
}

/// 256 to the power `k`: the numbers below it have at most `k` bytes.
pub open spec fn byte_bound(k: nat) -> nat
    decreases k,
{
    if k == 0 {
        1
    } else {
        256 * byte_bound((k - 1) as nat)
    }
}

/// A number below `256^k` has at most `k` big-endian bytes.
pub proof fn lemma_be_bytes_len(v: nat, k: nat)
    requires
        v < byte_bound(k),
    ensures
        be_bytes(v).len() <= k,
    decreases k,
{
    if v > 0 {
        let p = byte_bound((k - 1) as nat);
        assert(v / 256 < p) by (nonlinear_arith)
            requires
                v < 256 * p,
        ;
        lemma_be_bytes_len(v / 256, (k - 1) as nat);
    }
}

/// The byte bounds that the integer widths of this library reach.
pub proof fn lemma_byte_bounds()
    ensures
        byte_bound(1) == 0x100,
        byte_bound(4) == 0x1_0000_0000,
        byte_bound(8) == 0x1_0000_0000_0000_0000,
{
    reveal_with_fuel(byte_bound, 9);
}

/// An integer below `256^k` has at most `k` big-endian bytes, so a `u64` has at
/// most 8.
pub proof fn lemma_u64_be_len(v: u64)
    ensures
        be_bytes(v as nat).len() <= 8,
{
    lemma_byte_bounds();
    lemma_be_bytes_len(v as nat, 8);
}

/// The number of bytes in the encoding of a list whose payload has `p` bytes.
pub open spec fn list_len(p: nat) -> nat {
    rlp_list_header(p).len() + p
}

impl StreamState {
    /// Appending an item of `len` encoded bytes closes only lists whose payload length
    /// fits in 32 bits, the width in which the stream writes a list's length.
    pub open spec fn fits_item(self, len: nat) -> bool
        decreases self.open.len(),
    {
        if self.open.len() == 0 {
            true
        } else {
            let top = self.open.last();
            let p = top.2.len() + len;
            if top.1 + 1 >= top.0 {
                p <= u32::MAX && StreamState {
                    done: self.done,
                    open: self.open.drop_last(),
                }.fits_item(list_len(p))
            } else {
                true
            }
        }
    }
}

/// Appending an item adds at least the item's bytes to what is written.
pub proof fn lemma_push_grows(s: StreamState, item: Seq<u8>)
    ensures
        s.push(item).raw().len() >= s.raw().len() + item.len(),
    decreases s.open.len(),
{
    if s.open.len() > 0 {
        let top = s.open.last();
        let payload = top.2 + item;
        let rest = StreamState { done: s.done, open: s.open.drop_last() };
        if top.1 + 1 >= top.0 {
            lemma_push_grows(rest, rlp_list(payload));
        } else {
            let t = s.push(item);
            assert(t.open.drop_last() =~= rest.open);
            assert(StreamState { done: t.done, open: t.open.drop_last() } == rest);
        }
    }
}

/// The number of big-endian bytes of `v` without leading zeros.
pub fn be_len(v: u64) -> (n: u64)
    ensures
        n == be_bytes(v as nat).len(),
        n <= 8,
{
    proof {
        lemma_u64_be_len(v);
    }
    let mut x: u64 = v;
    let mut n: u64 = 0;
    while x > 0
        invariant
            n + be_bytes(x as nat).len() == be_bytes(v as nat).len(),
            be_bytes(v as nat).len() <= 8,
        decreases x,
    {
        x = x / 256;
        n = n + 1;
    }
    n
}

/// The number of bytes in the header of a list whose payload has `p` bytes.
pub fn list_header_len(p: u64) -> (n: u64)
    ensures
        n == rlp_list_header(p as nat).len(),
        n <= 9,
{
    if p <= 55 {
        1
    } else {
        1 + be_len(p)
    }
}

/// The number of bytes in the RLP encoding of the integer `v`.
pub fn uint_item_len(v: u64) -> (n: u64)
    ensures
        n == rlp_uint(v as nat).len(),
{
    if v > 0 && v < 0x80 {
        assert(be_bytes(v as nat) =~= seq![v as u8]) by {
            assert(be_bytes(0) =~= Seq::<u8>::empty());
        }
        1
    } else {
        let n = be_len(v);
        proof {
            if v >= 0x80 && be_bytes(v as nat).len() == 1 {
                if (v as nat) / 256 > 0 {
                    assert(be_bytes((v as nat) / 256).len() >= 1);
                }
            }
        }
        1 + n
    }
}

/// The number of bytes in the RLP encoding of the string `b`, when its length fits
/// in the 32 bits in which the stream writes it; `None` otherwise.
pub fn string_item_len(b: &[u8]) -> (r: Option<u64>)
    ensures
        r is Some <==> b@.len() <= u32::MAX,
        r matches Some(n) ==> n == rlp_string(b@).len(),
{
    let len = b.len();
    if len > 4294967295 {
        None
    } else if len == 1 && b[0] < 0x80 {
        Some(1)
    } else if len <= 55 {
        Some(1 + len as u64)
    } else {
        let l = len as u64;
        Some(1 + be_len(l) + l)
    }
}

} // verus!
