//! Reassembly of CRYPTO data that may arrive out of order.

use crate::buffer::contents;
use crate::stream::{cuts_into_pieces, piece};
use bytes::Bytes;
use std::collections::BTreeMap;
use vstd::prelude::*;

verus! {

/// Buffer for CRYPTO data: pieces are kept by their offset until the data before them
/// has come in.
#[derive(Debug)]
pub struct CryptoStream {
    /// Buffered data indexed by offset
    buffer: BTreeMap<u64, Bytes>,
    /// Next offset we expect to read
    read_offset: u64,
}

/// The pieces that wait, by their offsets, and the next offset to hand out.
#[verifier::ext_equal]
pub struct CryptoStreamView {
    pub pieces: Map<u64, Seq<u8>>,
    pub read_offset: u64,
}

impl CryptoStreamView {
    /// A buffer that nothing has come in to.
    pub open spec fn empty() -> CryptoStreamView {
        CryptoStreamView { pieces: Map::empty(), read_offset: 0 }
    }

    /// The buffer after the next piece was handed out.
    pub open spec fn stepped(self) -> CryptoStreamView {
        CryptoStreamView {
            pieces: self.pieces.remove(self.read_offset),
            read_offset: (self.read_offset + self.pieces[self.read_offset].len()) as u64,
        }
    }

    /// The pieces that are handed out one after the other: the one at the next offset, as long
    /// as there is one.
    pub open spec fn ready(self) -> Seq<Seq<u8>>
        decreases self.pieces.dom().len(),
        when self.pieces.dom().finite()
    {
        if self.pieces.contains_key(self.read_offset) {
            seq![self.pieces[self.read_offset]] + self.stepped().ready()
        } else {
            Seq::empty()
        }
    }

    /// The buffer after these pieces were handed out.
    pub open spec fn drained(self) -> CryptoStreamView
        decreases self.pieces.dom().len(),
        when self.pieces.dom().finite()
    {
        if self.pieces.contains_key(self.read_offset) {
            self.stepped().drained()
        } else {
            self
        }
    }

    /// The buffer after a piece came in, before anything is handed out.
    pub open spec fn with_piece(self, offset: u64, data: Seq<u8>) -> CryptoStreamView {
        CryptoStreamView { pieces: self.pieces.insert(offset, data), ..self }
    }

    /// Whether every waiting piece is part of the message at its place.
    pub open spec fn carries(self, m: Seq<u8>) -> bool {
        &&& self.pieces.dom().finite()
        &&& self.read_offset <= m.len() <= u64::MAX
        &&& forall|k: u64| #[trigger]
            self.pieces.contains_key(k) ==> k + self.pieces[k].len() <= m.len()
                && self.pieces[k] == m.subrange(k as int, k + self.pieces[k].len())
    }
}

/// The bytes of pieces, one after the other.
pub open spec fn concat(pieces: Seq<Seq<u8>>) -> Seq<u8>
    decreases pieces.len(),
{
    if pieces.len() == 0 {
        Seq::empty()
    } else {
        pieces[0] + concat(pieces.skip(1))
    }
}

impl View for CryptoStream {
    type V = CryptoStreamView;

    closed spec fn view(&self) -> CryptoStreamView {
        CryptoStreamView {
            pieces: self.buffer@.map_values(|b: Bytes| contents(b)),
            read_offset: self.read_offset,
        }
    }
}

/// Joining pieces after one more at the front.
proof fn lemma_concat_front(first: Seq<u8>, rest: Seq<Seq<u8>>)
    ensures
        concat(seq![first] + rest) == first + concat(rest),
{
    assert((seq![first] + rest).skip(1) =~= rest);
}

/// Whatever is handed out is the next part of the message, and leaves a buffer that
/// carries the message on.
pub proof fn crypto_data_in_order(v: CryptoStreamView, m: Seq<u8>)
    requires
        v.carries(m),
    ensures
        v.drained().carries(m),
        v.drained().read_offset >= v.read_offset,
        concat(v.ready()) == m.subrange(v.read_offset as int, v.drained().read_offset as int),
    decreases v.pieces.dom().len(),
{
    if v.pieces.contains_key(v.read_offset) {
        let w = v.stepped();
        let first = v.pieces[v.read_offset];
        assert(w.carries(m)) by {
            assert forall|k: u64| #[trigger] w.pieces.contains_key(k) implies k + w.pieces[k].len()
                <= m.len() && w.pieces[k] == m.subrange(k as int, k + w.pieces[k].len()) by {
                assert(v.pieces.contains_key(k));
            }
        }
        crypto_data_in_order(w, m);
        lemma_concat_front(first, w.ready());
        assert(concat(v.ready()) =~= m.subrange(
            v.read_offset as int,
            v.drained().read_offset as int,
        ));
    } else {
        assert(concat(v.ready()) =~= m.subrange(v.read_offset as int, v.read_offset as int));
    }
}

/// A piece of the message keeps the buffer carrying it.
pub proof fn crypto_piece_kept(v: CryptoStreamView, m: Seq<u8>, offset: u64, data: Seq<u8>)
    requires
        v.carries(m),
        offset + data.len() <= m.len(),
        data == m.subrange(offset as int, offset + data.len()),
    ensures
        v.with_piece(offset, data).carries(m),
{
    let w = v.with_piece(offset, data);
    assert forall|k: u64| #[trigger] w.pieces.contains_key(k) implies k + w.pieces[k].len()
        <= m.len() && w.pieces[k] == m.subrange(k as int, k + w.pieces[k].len()) by {
        if k != offset {
            assert(v.pieces.contains_key(k));
        }
    }
}

/// A buffer after pieces of a message have come in, in that order, and what it has handed out.
pub open spec fn after_pieces(v: CryptoStreamView, m: Seq<u8>, cuts: Seq<int>, order: Seq<int>) -> (
    CryptoStreamView,
    Seq<u8>,
)
    decreases order.len(),
{
    if order.len() == 0 {
        (v, Seq::empty())
    } else {
        let (u, out) = after_pieces(v, m, cuts, order.drop_last());
        let w = u.with_piece(cuts[order.last()] as u64, piece(m, cuts, order.last()));
        (w.drained(), out + concat(w.ready()))
    }
}

impl CryptoStreamView {
    /// Whether the buffer has seen just the pieces of a set, and handed out those before the
    /// cut `j`.
    spec fn has_seen(self, m: Seq<u8>, cuts: Seq<int>, s: Set<int>, j: int) -> bool {
        &&& self.carries(m)
        &&& 0 <= j < cuts.len()
        &&& self.read_offset == cuts[j]
        &&& forall|i: int| 0 <= i < j ==> s.contains(i)
        &&& forall|k: u64| #[trigger]
            self.pieces.contains_key(k) ==> exists|i: int|
                0 <= i < cuts.len() - 1 && #[trigger] s.contains(i) && cuts[i] == k
                    && self.pieces[k] == piece(m, cuts, i)
        &&& forall|i: int|
            j <= i < cuts.len() - 1 && #[trigger] s.contains(i) ==> self.pieces.contains_key(
                cuts[i] as u64,
            )
    }
}

/// Where the cuts of a message lie.
proof fn lemma_cuts(cuts: Seq<int>, length: int, i: int)
    requires
        cuts_into_pieces(cuts, length),
        0 <= i < cuts.len(),
    ensures
        0 <= cuts[i] <= length,
        i < cuts.len() - 1 ==> cuts[i] < cuts[i + 1],
{
    if i > 0 {
        assert(cuts[0] < cuts[i]);
    }
    if i < cuts.len() - 1 {
        assert(cuts[i] < cuts[cuts.len() - 1]);
    }
}

/// Handing out goes from cut to cut, until a piece is missing.
proof fn lemma_drain_pieces(
    v: CryptoStreamView,
    m: Seq<u8>,
    cuts: Seq<int>,
    s: Set<int>,
    j: int,
) -> (k: int)
    requires
        cuts_into_pieces(cuts, m.len() as int),
        v.has_seen(m, cuts, s, j),
    ensures
        v.drained().has_seen(m, cuts, s, k),
        !v.drained().pieces.contains_key(v.drained().read_offset),
    decreases v.pieces.dom().len(),
{
    if v.pieces.contains_key(v.read_offset) {
        let at = v.read_offset;
        let i = choose|i: int|
            0 <= i < cuts.len() - 1 && #[trigger] s.contains(i) && cuts[i] == at && v.pieces[at]
                == piece(m, cuts, i);
        assert(i == j) by {
            if i > j {
                assert(cuts[j] < cuts[i]);
            }
            if i < j {
                assert(cuts[i] < cuts[j]);
            }
        }
        lemma_cuts(cuts, m.len() as int, j);
        lemma_cuts(cuts, m.len() as int, j + 1);
        let w = v.stepped();
        assert(w.read_offset == cuts[j + 1]);
        assert(w.carries(m)) by {
            assert forall|k: u64| #[trigger] w.pieces.contains_key(k) implies k + w.pieces[k].len()
                <= m.len() && w.pieces[k] == m.subrange(k as int, k + w.pieces[k].len()) by {
                assert(v.pieces.contains_key(k));
            }
        }
        assert forall|k: u64| #[trigger] w.pieces.contains_key(k) implies exists|i: int|
            0 <= i < cuts.len() - 1 && #[trigger] s.contains(i) && cuts[i] == k && w.pieces[k]
                == piece(m, cuts, i) by {
            assert(v.pieces.contains_key(k));
        }
        assert forall|i: int| j + 1 <= i < cuts.len() - 1 && #[trigger] s.contains(
            i,
        ) implies w.pieces.contains_key(cuts[i] as u64) by {
            assert(cuts[j] < cuts[i]);
            lemma_cuts(cuts, m.len() as int, i);
            assert(v.pieces.contains_key(cuts[i] as u64));
        }
        lemma_drain_pieces(w, m, cuts, s, j + 1)
    } else {
        j
    }
}

/// One more piece, new or repeated, is seen as well.
proof fn lemma_piece_seen(
    u: CryptoStreamView,
    m: Seq<u8>,
    cuts: Seq<int>,
    s: Set<int>,
    x: int,
    j: int,
)
    requires
        cuts_into_pieces(cuts, m.len() as int),
        u.has_seen(m, cuts, s, j),
        0 <= x < cuts.len() - 1,
    ensures
        u.with_piece(cuts[x] as u64, piece(m, cuts, x)).has_seen(m, cuts, s.insert(x), j),
{
    let t = s.insert(x);
    let offset = cuts[x] as u64;
    lemma_cuts(cuts, m.len() as int, x);
    lemma_cuts(cuts, m.len() as int, x + 1);
    let v = u.with_piece(offset, piece(m, cuts, x));
    crypto_piece_kept(u, m, offset, piece(m, cuts, x));
    assert forall|k: u64| #[trigger] v.pieces.contains_key(k) implies exists|i: int|
        0 <= i < cuts.len() - 1 && #[trigger] t.contains(i) && cuts[i] == k && v.pieces[k] == piece(
            m,
            cuts,
            i,
        ) by {
        if k == offset {
            assert(t.contains(x));
        } else {
            assert(u.pieces.contains_key(k));
            let i = choose|i: int|
                0 <= i < cuts.len() - 1 && #[trigger] s.contains(i) && cuts[i] == k && u.pieces[k]
                    == piece(m, cuts, i);
            assert(t.contains(i));
        }
    }
    assert forall|i: int| j <= i < cuts.len() - 1 && #[trigger] t.contains(
        i,
    ) implies v.pieces.contains_key(cuts[i] as u64) by {
        if i != x {
            assert(s.contains(i));
            assert(u.pieces.contains_key(cuts[i] as u64));
        }
    }
    assert forall|i: int| 0 <= i < j implies t.contains(i) by {
        assert(s.contains(i));
    }
}

/// What a buffer has seen and handed out after pieces came in.
proof fn lemma_pieces_seen(m: Seq<u8>, cuts: Seq<int>, order: Seq<int>) -> (j: int)
    requires
        m.len() <= u64::MAX,
        cuts_into_pieces(cuts, m.len() as int),
        forall|i: int| 0 <= i < order.len() ==> 0 <= #[trigger] order[i] < cuts.len() - 1,
    ensures
        ({
            let (v, out) = after_pieces(CryptoStreamView::empty(), m, cuts, order);
            &&& v.has_seen(m, cuts, order.to_set(), j)
            &&& !v.pieces.contains_key(v.read_offset)
            &&& out == m.subrange(0, v.read_offset as int)
        }),
    decreases order.len(),
{
    if order.len() == 0 {
        assert(m.subrange(0, 0) =~= Seq::<u8>::empty());
        0
    } else {
        let front = order.drop_last();
        let x = order.last();
        assert(x == order[order.len() - 1]);
        assert forall|i: int| 0 <= i < front.len() implies 0 <= #[trigger] front[i] < cuts.len()
            - 1 by {
            assert(front[i] == order[i]);
        }
        let j = lemma_pieces_seen(m, cuts, front);
        let s = front.to_set();
        assert(order.to_set() =~= s.insert(x)) by {
            assert forall|y: int| order.to_set().contains(y) <==> s.insert(x).contains(y) by {
                if order.contains(y) {
                    let i = choose|i: int| 0 <= i < order.len() && order[i] == y;
                    if i < front.len() {
                        assert(front[i] == y);
                    }
                }
                if front.contains(y) {
                    let i = choose|i: int| 0 <= i < front.len() && front[i] == y;
                    assert(order[i] == y);
                }
            }
        }
        let (u, out) = after_pieces(CryptoStreamView::empty(), m, cuts, front);
        let w = u.with_piece(cuts[x] as u64, piece(m, cuts, x));
        lemma_piece_seen(u, m, cuts, s, x, j);
        crypto_data_in_order(w, m);
        let k = lemma_drain_pieces(w, m, cuts, s.insert(x), j);
        assert(out + concat(w.ready()) =~= m.subrange(0, w.drained().read_offset as int));
        k
    }
}

/// Whatever the order in which the pieces of a message come in, and however often each is
/// repeated, the whole message is handed out once every piece has come.
pub proof fn crypto_pieces_make_message(m: Seq<u8>, cuts: Seq<int>, order: Seq<int>)
    requires
        m.len() <= u64::MAX,
        cuts_into_pieces(cuts, m.len() as int),
        forall|i: int| 0 <= i < order.len() ==> 0 <= #[trigger] order[i] < cuts.len() - 1,
        forall|i: int| 0 <= i < cuts.len() - 1 ==> #[trigger] order.contains(i),
    ensures
        after_pieces(CryptoStreamView::empty(), m, cuts, order).0.read_offset == m.len(),
        after_pieces(CryptoStreamView::empty(), m, cuts, order).1 == m,
{
    let j = lemma_pieces_seen(m, cuts, order);
    let v = after_pieces(CryptoStreamView::empty(), m, cuts, order).0;
    assert(j == cuts.len() - 1) by {
        if j < cuts.len() - 1 {
            assert(order.contains(j));
            assert(order.to_set().contains(j));
            assert(v.pieces.contains_key(cuts[j] as u64));
        }
    }
    assert(m.subrange(0, m.len() as int) =~= m);
}

/// The contents of handed out pieces.
pub open spec fn contents_of(s: Seq<Bytes>) -> Seq<Seq<u8>> {
    Seq::new(s.len(), |i: int| contents(s[i]))
}

impl CryptoStream {
    /// What holds of every buffer.
    pub closed spec fn wf(self) -> bool {
        forall|k: u64| #[trigger]
            self.buffer@.contains_key(k) ==> k + contents(self.buffer@[k]).len() <= u64::MAX
    }

    /// Create a new CRYPTO data buffer
    pub fn new() -> (r: CryptoStream)
        ensures
            r.wf(),
            r@ == CryptoStreamView::empty(),
    {
        let r = CryptoStream { buffer: BTreeMap::new(), read_offset: 0 };
        assert(r@.pieces =~= Map::empty());
        r
    }

    /// The next offset we expect to read
    pub fn read_offset(&self) -> (r: u64)
        ensures
            r == self@.read_offset,
    {
        self.read_offset
    }

    /// Add data at the given offset, returns contiguous data ready to process
    pub fn write(&mut self, offset: u64, data: Bytes) -> (r: Vec<Bytes>)
        requires
            old(self).wf(),
            offset + contents(data).len() <= u64::MAX,
        ensures
            final(self).wf(),
            contents_of(r@) == old(self)@.with_piece(offset, contents(data)).ready(),
            final(self)@ == old(self)@.with_piece(offset, contents(data)).drained(),
    {
        let ghost before = *self;
        let ghost bytes = contents(data);
        self.buffer.insert(offset, data);
        proof {
            assert(self@.pieces =~= before@.pieces.insert(offset, bytes));
            assert(self@ == before@.with_piece(offset, bytes));
            assert forall|k: u64| #[trigger] self.buffer@.contains_key(k) implies k + contents(
                self.buffer@[k],
            ).len() <= u64::MAX by {
                if k != offset {
                    assert(before.buffer@.contains_key(k));
                }
            }
        }
        let ghost v0 = self@;
        let mut ready: Vec<Bytes> = Vec::new();
        assert(contents_of(ready@) + v0.ready() =~= v0.ready());
        loop
            invariant_except_break
                self.wf(),
                contents_of(ready@) + self@.ready() == v0.ready(),
                self@.drained() == v0.drained(),
            ensures
                self.wf(),
                contents_of(ready@) == v0.ready(),
                self@ == v0.drained(),
            decreases self.buffer@.dom().len(),
        {
            let ghost now = *self;
            let next: u64 = self.read_offset;
            proof {
                assert(now@.pieces.dom() =~= now.buffer@.dom());
                assert(now@.pieces.contains_key(next) == now.buffer@.contains_key(next));
            }
            match self.buffer.remove(&next) {
                None => {
                    assert(contents_of(ready@) + now@.ready() =~= contents_of(ready@));
                    assert(self@ =~= now@);
                    break ;
                },
                Some(piece) => {
                    let ghost out = contents_of(ready@);
                    let ghost handed = contents(piece);
                    let len: u64 = piece.len() as u64;
                    self.read_offset = next + len;
                    ready.push(piece);
                    proof {
                        assert(self@.pieces =~= now@.pieces.remove(next));
                        assert(self@ == now@.stepped());
                        assert(contents_of(ready@) =~= out.push(handed));
                        assert(contents_of(ready@) + self@.ready() =~= out + now@.ready());
                    }
                },
            }
        }
        ready
    }
}

} // verus!
