//! Variable-length integers (RFC 9000 Section 16).

use crate::buffer::{
    be_bytes, be_value, contents, get_u16, get_u32, get_u64, get_u8, lemma_be_roundtrip, pow256,
    put_u16, put_u32, put_u64, put_u8, written,
};
use crate::error::Error;
use bytes::{Bytes, BytesMut};
use vstd::prelude::*;

verus! {

/// The largest number that a variable-length integer can hold.
pub const MAX_VARINT: u64 = 0x3fff_ffff_ffff_ffff;

/// Number of bytes in which `v` is written.
pub open spec fn varint_len(v: nat) -> nat {
    if v < 0x40 {
        1
    } else if v < 0x4000 {
        2
    } else if v < 0x4000_0000 {
        4
    } else {
        8
    }
}

/// Number of bytes that an integer with this first byte takes: its two top bits say so.
pub open spec fn varint_width(first: u8) -> nat {
    if first < 64 {
        1
    } else if first < 128 {
        2
    } else if first < 192 {
        4
    } else {
        8
    }
}

/// The number that the two top bits of an integer of that width stand for.
pub open spec fn varint_tag(width: nat) -> nat {
    if width == 1 {
        0
    } else if width == 2 {
        0x4000
    } else if width == 4 {
        0x8000_0000
    } else {
        0xc000_0000_0000_0000
    }
}

/// The bytes of `v` on the wire, in as few bytes as possible.
#[verifier::opaque]
pub open spec fn varint_bytes(v: nat) -> Seq<u8> {
    be_bytes(v + varint_tag(varint_len(v)), varint_len(v))
}

/// Reads an integer off the front: its value and what follows it, or `None` where bytes
/// are missing.
pub open spec fn take_varint(s: Seq<u8>) -> Option<(u64, Seq<u8>)> {
    if s.len() == 0 || s.len() < varint_width(s[0]) {
        None
    } else {
        let n = varint_width(s[0]);
        Some(((be_value(s.take(n as int)) - varint_tag(n)) as u64, s.skip(n as int)))
    }
}

/// A variable-length integer.
#[derive(Debug, Clone, Copy, PartialEq, Eq, PartialOrd, Ord, Hash, Structural)]
pub struct VarInt(pub u64);

/// What the first byte of a big-endian number says about its size.
pub proof fn lemma_be_first(s: Seq<u8>)
    requires
        s.len() == 1 || s.len() == 2 || s.len() == 4 || s.len() == 8,
    ensures
        s.len() == 1 ==> be_value(s) == s[0],
        s.len() == 2 ==> s[0] * 0x100 <= be_value(s) < (s[0] + 1) * 0x100,
        s.len() == 4 ==> s[0] * 0x100_0000 <= be_value(s) < (s[0] + 1) * 0x100_0000,
        s.len() == 8 ==> s[0] * 0x100_0000_0000_0000 <= be_value(s) < (s[0] + 1)
            * 0x100_0000_0000_0000,
{
    reveal_with_fuel(be_value, 9);
    if s.len() == 1 {
    } else if s.len() == 2 {
        assert(s.drop_last().last() == s[0]);
    } else if s.len() == 4 {
        assert(s.drop_last().last() == s[2]);
        assert(s.drop_last().drop_last().last() == s[1]);
        assert(s.drop_last().drop_last().drop_last().last() == s[0]);
    } else {
        let s7 = s.drop_last();
        let s6 = s7.drop_last();
        let s5 = s6.drop_last();
        let s4 = s5.drop_last();
        let s3 = s4.drop_last();
        let s2 = s3.drop_last();
        let s1 = s2.drop_last();
        assert(s7.last() == s[6] && s6.last() == s[5] && s5.last() == s[4] && s4.last() == s[3]);
        assert(s3.last() == s[2] && s2.last() == s[1] && s1.last() == s[0]);
        assert(s1.drop_last().len() == 0);
    }
}

/// Reading what was written gives the number back, and leaves what follows.
pub proof fn lemma_varint_roundtrip(v: u64, rest: Seq<u8>)
    requires
        v <= MAX_VARINT,
    ensures
        take_varint(varint_bytes(v as nat) + rest) == Some((v, rest)),
        varint_bytes(v as nat).len() == varint_len(v as nat),
        varint_width(varint_bytes(v as nat)[0]) == varint_len(v as nat),
{
    reveal(varint_bytes);
    let n = varint_len(v as nat);
    let e = varint_bytes(v as nat);
    let s = e + rest;
    reveal_with_fuel(pow256, 9);
    lemma_be_roundtrip(v as nat + varint_tag(n), n);
    lemma_be_first(e);
    assert(s.take(n as int) =~= e);
    assert(s.skip(n as int) =~= rest);
    assert(s[0] == e[0]);
    assert(varint_width(e[0]) == n);
}

impl VarInt {
    /// A variable-length integer that holds `value`.
    pub fn from_u32(value: u32) -> (r: VarInt)
        ensures
            r.0 == value,
    {
        VarInt(value as u64)
    }

    /// Creates a variable-length integer from a number, where it fits
    pub fn from_u64(value: u64) -> (r: Result<VarInt, Error>)
        ensures
            r == (if value <= MAX_VARINT {
                Ok::<VarInt, Error>(VarInt(value))
            } else {
                Err(Error::VarIntRange)
            }),
    {
        if value > MAX_VARINT {
            return Err(Error::VarIntRange);
        }
        Ok(VarInt(value))
    }

    /// The number held.
    pub fn into_inner(self) -> (r: u64)
        ensures
            r == self.0,
    {
        self.0
    }

    /// Appends the integer to `buf`. A number above `MAX_VARINT` is refused.
    pub fn encode(self, buf: &mut BytesMut) -> (r: Result<(), Error>)
        ensures
            self.0 <= MAX_VARINT ==> r == Ok::<(), Error>(()) && written(*final(buf)) == written(
                *old(buf),
            ) + varint_bytes(self.0 as nat),
            self.0 > MAX_VARINT ==> r == Err::<(), Error>(Error::VarIntRange) && written(*final(buf))
                == written(*old(buf)),
    {
        reveal(varint_bytes);
        let v: u64 = self.0;
        if v < 0x40 {
            put_u8(buf, v as u8);
            proof {
                reveal_with_fuel(be_bytes, 2);
                assert(written(*old(buf)).push(v as u8) =~= written(*old(buf)) + varint_bytes(
                    v as nat,
                ));
            }
        } else if v < 0x4000 {
            put_u16(buf, v as u16 + 0x4000);
        } else if v < 0x4000_0000 {
            put_u32(buf, v as u32 + 0x8000_0000);
        } else if v <= MAX_VARINT {
            put_u64(buf, v + 0xc000_0000_0000_0000);
        } else {
            return Err(Error::VarIntRange);
        }
        Ok(())
    }

    /// Reads an integer off the front of `buf`. Where bytes are missing, `buf` stays as it is.
    pub fn decode(buf: &mut Bytes) -> (r: Result<VarInt, Error>)
        ensures
            match take_varint(contents(*old(buf))) {
                Some((v, rest)) => r == Ok::<VarInt, Error>(VarInt(v)) && contents(*final(buf)) == rest
                    && v <= MAX_VARINT,
                None => r == Err::<VarInt, Error>(Error::Incomplete) && contents(*final(buf))
                    == contents(*old(buf)),
            },
    {
        let ghost s = contents(*buf);
        if buf.is_empty() {
            return Err(Error::Incomplete);
        }
        let first: u8 = (&**buf)[0];
        let have: usize = buf.len();
        proof {
            if varint_width(s[0]) <= s.len() {
                lemma_be_first(s.take(varint_width(s[0]) as int));
            }
        }
        if first < 64 {
            let b: u8 = get_u8(buf);
            proof {
                reveal_with_fuel(be_value, 2);
                assert(s.take(1).drop_last() =~= Seq::<u8>::empty());
            }
            Ok(VarInt(b as u64))
        } else if first < 128 {
            if have < 2 {
                return Err(Error::Incomplete);
            }
            let raw: u16 = get_u16(buf);
            Ok(VarInt((raw - 0x4000) as u64))
        } else if first < 192 {
            if have < 4 {
                return Err(Error::Incomplete);
            }
            let raw: u32 = get_u32(buf);
            Ok(VarInt((raw - 0x8000_0000) as u64))
        } else {
            if have < 8 {
                return Err(Error::Incomplete);
            }
            let raw: u64 = get_u64(buf);
            Ok(VarInt(raw - 0xc000_0000_0000_0000))
        }
    }
}

} // verus!
