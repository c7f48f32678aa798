//! Byte buffers: the types of the `bytes` crate, described by the bytes they hold.
//!
//! The items that call into `bytes` are taken at their word. As for `Vec`, running out
//! of memory while a buffer grows is left out of what they say.

use bytes::{Buf, BufMut, Bytes, BytesMut};
use vstd::prelude::*;

verus! {

/// The shared, cheaply cloned byte buffer of the `bytes` crate.
#[verifier::external_type_specification]
#[verifier::external_body]
pub struct ExBytes(bytes::Bytes);

/// The growable byte buffer of the `bytes` crate.
#[verifier::external_type_specification]
#[verifier::external_body]
pub struct ExBytesMut(bytes::BytesMut);

/// The bytes a `Bytes` holds, in order. Reading from the front removes them.
pub uninterp spec fn contents(b: Bytes) -> Seq<u8>;

/// The bytes written to a `BytesMut` so far, in order.
pub uninterp spec fn written(b: BytesMut) -> Seq<u8>;

/// Big-endian encoding of `v` in `n` bytes.
pub open spec fn be_bytes(v: nat, n: nat) -> Seq<u8>
    decreases n,
{
    if n == 0 {
        Seq::empty()
    } else {
        be_bytes(v / 256, (n - 1) as nat).push((v % 256) as u8)
    }
}

/// The number that the bytes spell in big-endian order.
pub open spec fn be_value(s: Seq<u8>) -> nat
    decreases s.len(),
{
    if s.len() == 0 {
        0
    } else {
        be_value(s.drop_last()) * 256 + s.last() as nat
    }
}

/// `256` to the power `n`.
pub open spec fn pow256(n: nat) -> nat
    decreases n,
{
    if n == 0 {
        1
    } else {
        256 * pow256((n - 1) as nat)
    }
}

/// Big-endian encoding takes the width that was asked for, and reading it back gives
/// the number again when it fits that width.
pub proof fn lemma_be_roundtrip(v: nat, n: nat)
    ensures
        be_bytes(v, n).len() == n,
        v < pow256(n) ==> be_value(be_bytes(v, n)) == v,
    decreases n,
{
    if n > 0 {
        lemma_be_roundtrip(v / 256, (n - 1) as nat);
        assert(be_bytes(v, n).drop_last() =~= be_bytes(v / 256, (n - 1) as nat));
    }
}

/// Joining byte sequences from the left or from the right gives the same bytes.
pub broadcast proof fn lemma_concat_associative(a: Seq<u8>, b: Seq<u8>, c: Seq<u8>)
    ensures
        #[trigger] ((a + b) + c) == a + (b + c),
{
    assert((a + b) + c =~= a + (b + c));
}

/// Taking the first byte off leaves what follows it.
pub proof fn lemma_skip_first(first: u8, rest: Seq<u8>)
    ensures
        (seq![first] + rest).skip(1) == rest,
        (seq![first] + rest)[0] == first,
        (seq![first] + rest).len() > 0,
{
    assert((seq![first] + rest).skip(1) =~= rest);
}

/// Splitting two joined sequences where they were joined.
pub proof fn lemma_split_joined(a: Seq<u8>, b: Seq<u8>)
    ensures
        (a + b).take(a.len() as int) == a,
        (a + b).skip(a.len() as int) == b,
        (a + b).len() == a.len() + b.len(),
{
    assert((a + b).take(a.len() as int) =~= a);
    assert((a + b).skip(a.len() as int) =~= b);
}

/// Whether `rest` is what is left of `s` after some bytes were read off its front.
#[verifier::opaque]
pub open spec fn is_tail(rest: Seq<u8>, s: Seq<u8>) -> bool {
    &&& rest.len() <= s.len()
    &&& rest == s.skip(s.len() - rest.len())
}

/// Nothing read leaves everything.
pub broadcast proof fn lemma_tail_of_itself(s: Seq<u8>)
    ensures
        #[trigger] is_tail(s, s),
{
    reveal(is_tail);
    assert(s =~= s.skip(0));
}

/// Reading on leaves a tail.
pub broadcast proof fn lemma_tail_skip(rest: Seq<u8>, s: Seq<u8>, n: int)
    requires
        is_tail(rest, s),
        0 <= n <= rest.len(),
    ensures
        #[trigger] is_tail(rest.skip(n), s),
{
    reveal(is_tail);
    assert(rest.skip(n) =~= s.skip(s.len() - rest.skip(n).len()));
}

/// A tail of a tail is a tail.
pub broadcast proof fn lemma_tail_transitive(a: Seq<u8>, b: Seq<u8>, c: Seq<u8>)
    requires
        #[trigger] is_tail(a, b),
        #[trigger] is_tail(b, c),
    ensures
        is_tail(a, c),
{
    reveal(is_tail);
    assert(a =~= c.skip(c.len() - a.len()));
}

/// How reading off the front leaves tails.
pub broadcast group group_tail {
    lemma_tail_of_itself,
    lemma_tail_skip,
    lemma_tail_transitive,
}

/// `Bytes::new` makes an empty buffer.
pub assume_specification [Bytes::new]() -> (r: Bytes)
    ensures
        contents(r) == Seq::<u8>::empty(),
;

/// `Bytes::len` is the number of bytes held.
pub assume_specification [Bytes::len](b: &Bytes) -> (n: usize)
    ensures
        n == contents(*b).len(),
;

/// `Bytes::is_empty` tells whether no byte is held.
pub assume_specification [Bytes::is_empty](b: &Bytes) -> (r: bool)
    ensures
        r == (contents(*b).len() == 0),
;

/// `Bytes::copy_from_slice` copies the slice.
pub assume_specification [Bytes::copy_from_slice](data: &[u8]) -> (r: Bytes)
    ensures
        contents(r) == data@,
;

/// `Bytes::split_to` hands out the first `at` bytes and keeps the others. It panics when
/// there are fewer.
pub assume_specification [Bytes::split_to](b: &mut Bytes, at: usize) -> (r: Bytes)
    requires
        at <= contents(*old(b)).len(),
    ensures
        contents(r) == contents(*old(b)).take(at as int),
        contents(*final(b)) == contents(*old(b)).skip(at as int),
;

/// `Bytes::clone` holds the same bytes.
pub assume_specification [<Bytes as Clone>::clone](b: &Bytes) -> (r: Bytes)
    ensures
        contents(r) == contents(*b),
;

/// Dereferencing a `Bytes` gives the bytes as a slice.
pub assume_specification [<Bytes as core::ops::Deref>::deref](b: &Bytes) -> (r: &[u8])
    ensures
        r@ == contents(*b),
;

/// `Bytes::from` takes over the bytes of the vector.
#[verifier::external_body]
pub(crate) fn bytes_from_vec(v: Vec<u8>) -> (r: Bytes)
    ensures
        contents(r) == v@,
{
    Bytes::from(v)
}

/// `Buf::get_u8` removes the first byte and returns it. It panics when there is none.
#[verifier::external_body]
pub(crate) fn get_u8(b: &mut Bytes) -> (r: u8)
    requires
        contents(*old(b)).len() >= 1,
    ensures
        r == contents(*old(b))[0],
        contents(*final(b)) == contents(*old(b)).skip(1),
{
    b.get_u8()
}

/// `Buf::get_u16` removes two bytes and reads them in big-endian order. It panics when
/// there are fewer.
#[verifier::external_body]
pub(crate) fn get_u16(b: &mut Bytes) -> (r: u16)
    requires
        contents(*old(b)).len() >= 2,
    ensures
        r == be_value(contents(*old(b)).take(2)),
        contents(*final(b)) == contents(*old(b)).skip(2),
{
    b.get_u16()
}

/// `Buf::get_u32` removes four bytes and reads them in big-endian order. It panics when
/// there are fewer.
#[verifier::external_body]
pub(crate) fn get_u32(b: &mut Bytes) -> (r: u32)
    requires
        contents(*old(b)).len() >= 4,
    ensures
        r == be_value(contents(*old(b)).take(4)),
        contents(*final(b)) == contents(*old(b)).skip(4),
{
    b.get_u32()
}

/// `Buf::get_u64` removes eight bytes and reads them in big-endian order. It panics when
/// there are fewer.
#[verifier::external_body]
pub(crate) fn get_u64(b: &mut Bytes) -> (r: u64)
    requires
        contents(*old(b)).len() >= 8,
    ensures
        r == be_value(contents(*old(b)).take(8)),
        contents(*final(b)) == contents(*old(b)).skip(8),
{
    b.get_u64()
}

/// `Buf::copy_to_slice` removes as many bytes as the array has and copies them into it.
/// It panics when there are fewer.
#[verifier::external_body]
pub(crate) fn get_array<const N: usize>(b: &mut Bytes) -> (r: [u8; N])
    requires
        N <= contents(*old(b)).len(),
    ensures
        r@ == contents(*old(b)).take(N as int),
        contents(*final(b)) == contents(*old(b)).skip(N as int),
{
    let mut r = [0u8; N];
    b.copy_to_slice(&mut r);
    r
}

/// `BytesMut::new` makes an empty buffer.
pub assume_specification [BytesMut::new]() -> (r: BytesMut)
    ensures
        written(r) == Seq::<u8>::empty(),
;

/// `BytesMut::len` is the number of bytes written.
pub assume_specification [BytesMut::len](b: &BytesMut) -> (n: usize)
    ensures
        n == written(*b).len(),
;

/// `BytesMut::is_empty` tells whether no byte is held.
pub assume_specification [BytesMut::is_empty](b: &BytesMut) -> (r: bool)
    ensures
        r == (written(*b).len() == 0),
;

/// `BytesMut::clear` drops all bytes.
pub assume_specification [BytesMut::clear](b: &mut BytesMut)
    ensures
        written(*final(b)) == Seq::<u8>::empty(),
;

/// `BytesMut::split_to` hands out the first `at` bytes and keeps the others. It panics when
/// there are fewer.
pub assume_specification [BytesMut::split_to](b: &mut BytesMut, at: usize) -> (r: BytesMut)
    requires
        at <= written(*old(b)).len(),
    ensures
        written(r) == written(*old(b)).take(at as int),
        written(*final(b)) == written(*old(b)).skip(at as int),
;

/// `BytesMut::extend_from_slice` appends the slice.
pub assume_specification [BytesMut::extend_from_slice](b: &mut BytesMut, extend: &[u8])
    ensures
        written(*final(b)) == written(*old(b)) + extend@,
;

/// Dereferencing a `BytesMut` gives the bytes as a slice.
pub assume_specification [<BytesMut as core::ops::Deref>::deref](b: &BytesMut) -> (r: &[u8])
    ensures
        r@ == written(*b),
;

/// Dereferencing a `BytesMut` mutably gives the bytes as a slice; what is written to the
/// slice is written to the buffer.
pub assume_specification [<BytesMut as core::ops::DerefMut>::deref_mut](b: &mut BytesMut) -> (r:
    &mut [u8])
    ensures
        r@ == written(*old(b)),
        written(*final(b)) == final(r)@,
;

/// `BytesMut::freeze` keeps the bytes.
pub assume_specification [BytesMut::freeze](b: BytesMut) -> (r: Bytes)
    ensures
        contents(r) == written(b),
;

/// `BufMut::put_u8` appends the byte.
#[verifier::external_body]
pub(crate) fn put_u8(b: &mut BytesMut, n: u8)
    ensures
        written(*final(b)) == written(*old(b)).push(n),
{
    b.put_u8(n);
}

/// `BufMut::put_u16` appends the number in big-endian order.
#[verifier::external_body]
pub(crate) fn put_u16(b: &mut BytesMut, n: u16)
    ensures
        written(*final(b)) == written(*old(b)) + be_bytes(n as nat, 2),
{
    b.put_u16(n);
}

/// `BufMut::put_u32` appends the number in big-endian order.
#[verifier::external_body]
pub(crate) fn put_u32(b: &mut BytesMut, n: u32)
    ensures
        written(*final(b)) == written(*old(b)) + be_bytes(n as nat, 4),
{
    b.put_u32(n);
}

/// `BufMut::put_u64` appends the number in big-endian order.
#[verifier::external_body]
pub(crate) fn put_u64(b: &mut BytesMut, n: u64)
    ensures
        written(*final(b)) == written(*old(b)) + be_bytes(n as nat, 8),
{
    b.put_u64(n);
}

} // verus!
