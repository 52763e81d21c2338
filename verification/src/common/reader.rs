use vstd::prelude::*;
use crate::common::endian::{be16_at, be32_at, le16_at, le32_at, read_u16_be as be16_of,
    read_u16_le as le16_of, read_u32_be as be32_of, read_u32_le as le32_of};
use crate::common::status::{AegisError, AegisResult, ErrorView};

verus! {

/// A cursor over a byte slice; the position never passes the end.
#[derive(Debug)]
pub struct ByteReader<'a> {
    data: &'a [u8],
    pos: usize,
}

/// The error for a read of `needed` bytes with `available` left.
pub open spec fn truncated(needed: nat, available: nat) -> ErrorView {
    ErrorView::Truncated { needed, available }
}

impl<'a> ByteReader<'a> {
    #[verifier::type_invariant]
    spec fn inv(&self) -> bool {
        self.pos <= self.data@.len()
    }

    /// The bytes being read.
    pub closed spec fn bytes(&self) -> Seq<u8> {
        self.data@
    }

    /// The position of the next byte to read.
    pub closed spec fn at(&self) -> nat {
        self.pos as nat
    }

    /// The cursor is within the bytes.
    pub open spec fn valid(&self) -> bool {
        self.at() <= self.bytes().len()
    }

    pub fn new(data: &'a [u8]) -> (r: Self)
        ensures
            r.bytes() == data@,
            r.at() == 0,
            r.valid(),
    {
        ByteReader { data, pos: 0 }
    }

    pub fn position(&self) -> (r: usize)
        ensures
            r == self.at(),
            self.valid(),
    {
        proof {
            use_type_invariant(self);
        }
        self.pos
    }

    pub fn len(&self) -> (r: usize)
        ensures
            r == self.bytes().len(),
    {
        self.data.len()
    }

    pub fn remaining_len(&self) -> (r: usize)
        ensures
            r == self.bytes().len() - self.at(),
            self.valid(),
    {
        proof {
            use_type_invariant(self);
        }
        self.data.len() - self.pos
    }

    /// The bytes from the position on.
    pub fn remaining(&self) -> (r: &'a [u8])
        ensures
            r@ == self.bytes().skip(self.at() as int),
            self.valid(),
    {
        proof {
            use_type_invariant(self);
        }
        &self.data[self.pos..self.data.len()]
    }

    /// The next `n` bytes, without moving.
    pub fn peek(&self, n: usize) -> (r: AegisResult<&'a [u8]>)
        ensures
            self.valid(),
            self.bytes().len() - self.at() < n ==> (r matches Err(e) && e@ == truncated(
                n as nat,
                (self.bytes().len() - self.at()) as nat,
            )),
            self.bytes().len() - self.at() >= n ==> (r matches Ok(s) && s@ == self.bytes().subrange(
                self.at() as int,
                self.at() + n,
            )),
    {
        proof {
            use_type_invariant(self);
        }
        let dl = self.data.len();
        let rem = self.remaining_len();
        if rem < n {
            Err(AegisError::Truncated { needed: n, available: rem })
        } else {
            Ok(&self.data[self.pos..self.pos + n])
        }
    }

    /// The next `n` bytes; the position moves past them. On failure nothing moves.
    pub fn take(&mut self, n: usize) -> (r: AegisResult<&'a [u8]>)
        ensures
            final(self).bytes() == old(self).bytes(),
            final(self).valid(),
            old(self).valid(),
            old(self).bytes().len() - old(self).at() < n ==> (r matches Err(e) && e@ == truncated(
                n as nat,
                (old(self).bytes().len() - old(self).at()) as nat,
            ) && final(self).at() == old(self).at()),
            old(self).bytes().len() - old(self).at() >= n ==> (r matches Ok(s) && s@
                == old(self).bytes().subrange(old(self).at() as int, old(self).at() + n)
                && final(self).at() == old(self).at() + n),
    {
        proof {
            use_type_invariant(&*self);
        }
        let dl = self.data.len();
        let out = self.peek(n);
        match out {
            Ok(s) => {
                self.pos = self.pos + n;
                Ok(s)
            },
            Err(e) => Err(e),
        }
    }

    pub fn skip(&mut self, n: usize) -> (r: AegisResult<()>)
        ensures
            final(self).bytes() == old(self).bytes(),
            final(self).valid(),
            old(self).valid(),
            old(self).bytes().len() - old(self).at() < n ==> (r matches Err(e) && e@ == truncated(
                n as nat,
                (old(self).bytes().len() - old(self).at()) as nat,
            ) && final(self).at() == old(self).at()),
            old(self).bytes().len() - old(self).at() >= n ==> (r is Ok && final(self).at()
                == old(self).at() + n),
    {
        match self.take(n) {
            Ok(_) => Ok(()),
            Err(e) => Err(e),
        }
    }

    pub fn read_u8(&mut self) -> (r: AegisResult<u8>)
        ensures
            final(self).bytes() == old(self).bytes(),
            final(self).valid(),
            old(self).valid(),
            old(self).bytes().len() - old(self).at() < 1 ==> (r matches Err(e) && e@ == truncated(
                1,
                0,
            ) && final(self).at() == old(self).at()),
            old(self).bytes().len() - old(self).at() >= 1 ==> (r == Ok::<u8, AegisError>(
                old(self).bytes()[old(self).at() as int],
            ) && final(self).at() == old(self).at() + 1),
    {
        let s = self.take(1)?;
        Ok(s[0])
    }

    pub fn read_u16_be(&mut self) -> (r: AegisResult<u16>)
        ensures
            final(self).bytes() == old(self).bytes(),
            final(self).valid(),
            old(self).valid(),
            old(self).bytes().len() - old(self).at() < 2 ==> (r matches Err(e) && e@ == truncated(
                2,
                (old(self).bytes().len() - old(self).at()) as nat,
            ) && final(self).at() == old(self).at()),
            old(self).bytes().len() - old(self).at() >= 2 ==> (r == Ok::<u16, AegisError>(
                be16_at(old(self).bytes(), old(self).at() as int) as u16,
            ) && final(self).at() == old(self).at() + 2),
    {
        let s = self.take(2)?;
        match be16_of(s) {
            Some(v) => Ok(v),
            None => Err(AegisError::Truncated { needed: 2, available: 0 }),
        }
    }

    pub fn read_u16_le(&mut self) -> (r: AegisResult<u16>)
        ensures
            final(self).bytes() == old(self).bytes(),
            final(self).valid(),
            old(self).valid(),
            old(self).bytes().len() - old(self).at() < 2 ==> (r matches Err(e) && e@ == truncated(
                2,
                (old(self).bytes().len() - old(self).at()) as nat,
            ) && final(self).at() == old(self).at()),
            old(self).bytes().len() - old(self).at() >= 2 ==> (r == Ok::<u16, AegisError>(
                le16_at(old(self).bytes(), old(self).at() as int) as u16,
            ) && final(self).at() == old(self).at() + 2),
    {
        let s = self.take(2)?;
        match le16_of(s) {
            Some(v) => Ok(v),
            None => Err(AegisError::Truncated { needed: 2, available: 0 }),
        }
    }

    pub fn read_u32_be(&mut self) -> (r: AegisResult<u32>)
        ensures
            final(self).bytes() == old(self).bytes(),
            final(self).valid(),
            old(self).valid(),
            old(self).bytes().len() - old(self).at() < 4 ==> (r matches Err(e) && e@ == truncated(
                4,
                (old(self).bytes().len() - old(self).at()) as nat,
            ) && final(self).at() == old(self).at()),
            old(self).bytes().len() - old(self).at() >= 4 ==> (r == Ok::<u32, AegisError>(
                be32_at(old(self).bytes(), old(self).at() as int) as u32,
            ) && final(self).at() == old(self).at() + 4),
    {
        let s = self.take(4)?;
        match be32_of(s) {
            Some(v) => Ok(v),
            None => Err(AegisError::Truncated { needed: 4, available: 0 }),
        }
    }

    pub fn read_u32_le(&mut self) -> (r: AegisResult<u32>)
        ensures
            final(self).bytes() == old(self).bytes(),
            final(self).valid(),
            old(self).valid(),
            old(self).bytes().len() - old(self).at() < 4 ==> (r matches Err(e) && e@ == truncated(
                4,
                (old(self).bytes().len() - old(self).at()) as nat,
            ) && final(self).at() == old(self).at()),
            old(self).bytes().len() - old(self).at() >= 4 ==> (r == Ok::<u32, AegisError>(
                le32_at(old(self).bytes(), old(self).at() as int) as u32,
            ) && final(self).at() == old(self).at() + 4),
    {
        let s = self.take(4)?;
        match le32_of(s) {
            Some(v) => Ok(v),
            None => Err(AegisError::Truncated { needed: 4, available: 0 }),
        }
    }
}

impl<'a> Clone for ByteReader<'a> {
    fn clone(&self) -> (r: Self)
        ensures
            r.bytes() == self.bytes(),
            r.at() == self.at(),
    {
        proof {
            use_type_invariant(self);
        }
        ByteReader { data: self.data, pos: self.pos }
    }
}

/// `len` bytes of `data` from `start`, if they are all there.
pub fn safe_slice(data: &[u8], start: usize, len: usize) -> (r: Option<&[u8]>)
    ensures
        start + len <= data@.len() ==> (r matches Some(s) && s@ == data@.subrange(
            start as int,
            start + len,
        )),
        start + len > data@.len() ==> r is None,
{
    let dl = data.len();
    let end = match start.checked_add(len) {
        Some(e) => e,
        None => {
            return None;
        },
    };
    if end <= data.len() {
        Some(&data[start..end])
    } else {
        None
    }
}

} // verus!
