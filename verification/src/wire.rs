//! A cursor over bytes that reads big-endian integers.

use vstd::prelude::*;
use vstd::slice::slice_subrange;

verus! {

/// The big-endian 16-bit integer at the front of `s`.
pub open spec fn be16(s: Seq<u8>) -> nat {
    (s[0] as nat) * 0x100 + (s[1] as nat)
}

/// The big-endian 24-bit integer at the front of `s`.
pub open spec fn be24(s: Seq<u8>) -> nat {
    (s[0] as nat) * 0x1_0000 + (s[1] as nat) * 0x100 + (s[2] as nat)
}

/// Reads a byte slice from front to back. Its view is what is left to read.
pub struct Parser<'a> {
    buf: &'a [u8],
    pos: usize,
}

impl<'a> View for Parser<'a> {
    type V = Seq<u8>;

    closed spec fn view(&self) -> Seq<u8> {
        self.buf@.skip(self.pos as int)
    }
}

impl<'a> Parser<'a> {
    #[verifier::type_invariant]
    spec fn inv(self) -> bool {
        self.pos <= self.buf@.len()
    }

    /// A parser that has read nothing of `buf` yet.
    pub fn new(buf: &'a [u8]) -> (p: Self)
        ensures
            p@ == buf@,
    {
        Self { buf, pos: 0 }
    }

    /// How many bytes are left.
    pub fn remaining(&self) -> (n: usize)
        ensures
            n == self@.len(),
    {
        proof {
            use_type_invariant(self);
        }
        self.buf.len() - self.pos
    }

    /// The bytes that are left.
    pub fn tail(&self) -> (t: &'a [u8])
        ensures
            t@ == self@,
    {
        proof {
            use_type_invariant(self);
        }
        slice_subrange(self.buf, self.pos, self.buf.len())
    }

    /// Takes one byte.
    pub fn u8(&mut self) -> (r: Option<u8>)
        ensures
            old(self)@.len() == 0 ==> r is None && final(self)@ == old(self)@,
            old(self)@.len() > 0 ==> r == Some(old(self)@[0]) && final(self)@ == old(self)@.skip(1),
    {
        proof {
            use_type_invariant(&*self);
        }
        if self.remaining() < 1 {
            return None;
        }
        let b: u8 = self.buf[self.pos];
        self.pos = self.pos + 1;
        Some(b)
    }

    /// Takes a big-endian 16-bit integer, or nothing where fewer than two
    /// bytes are left.
    pub fn u16(&mut self) -> (r: Option<u16>)
        ensures
            old(self)@.len() < 2 ==> r is None && final(self)@ == old(self)@,
            old(self)@.len() >= 2 ==> r is Some && r->0 == be16(old(self)@) && final(self)@
                == old(self)@.skip(2),
    {
        proof {
            use_type_invariant(&*self);
        }
        if self.remaining() < 2 {
            return None;
        }
        let v: u16 = self.buf[self.pos] as u16 * 0x100 + self.buf[self.pos + 1] as u16;
        self.pos = self.pos + 2;
        Some(v)
    }

    /// Takes a big-endian 24-bit integer, or nothing where fewer than three
    /// bytes are left.
    pub fn u24(&mut self) -> (r: Option<u32>)
        ensures
            old(self)@.len() < 3 ==> r is None && final(self)@ == old(self)@,
            old(self)@.len() >= 3 ==> r is Some && r->0 == be24(old(self)@) && final(self)@
                == old(self)@.skip(3),
    {
        proof {
            use_type_invariant(&*self);
        }
        if self.remaining() < 3 {
            return None;
        }
        let v: u32 = self.buf[self.pos] as u32 * 0x1_0000 + self.buf[self.pos + 1] as u32 * 0x100
            + self.buf[self.pos + 2] as u32;
        self.pos = self.pos + 3;
        Some(v)
    }

    /// Steps over `n` bytes, or fails and stays where it is.
    pub fn skip(&mut self, n: usize) -> (r: Result<(), ()>)
        ensures
            old(self)@.len() < n ==> r is Err && final(self)@ == old(self)@,
            old(self)@.len() >= n ==> r is Ok && final(self)@ == old(self)@.skip(n as int),
    {
        proof {
            use_type_invariant(&*self);
        }
        if self.buf.len() - self.pos < n {
            return Err(());
        }
        self.pos = self.pos + n;
        Ok(())
    }
}

} // verus!
