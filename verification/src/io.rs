//! Shared tag IO: a cursor over a byte slice.
use vstd::prelude::*;
use core::ops::Range;

verus! {

/// The big-endian unsigned value of a byte sequence.
pub open spec fn be_value(s: Seq<u8>) -> nat
    decreases s.len(),
{
    if s.len() == 0 {
        0
    } else {
        be_value(s.drop_last()) * 256 + s.last() as nat
    }
}

/// The little-endian unsigned value of a byte sequence.
pub open spec fn le_value(s: Seq<u8>) -> nat
    decreases s.len(),
{
    if s.len() == 0 {
        0
    } else {
        s[0] as nat + 256 * le_value(s.drop_first())
    }
}

/// `256` raised to `n`.
pub open spec fn pow256(n: nat) -> nat
    decreases n,
{
    if n == 0 {
        1
    } else {
        256 * pow256((n - 1) as nat)
    }
}

pub proof fn lemma_pow256_values()
    ensures
        pow256(1) == 0x100,
        pow256(2) == 0x1_0000,
        pow256(3) == 0x100_0000,
        pow256(4) == 0x1_0000_0000,
        pow256(8) == 0x1_0000_0000_0000_0000,
{
    reveal_with_fuel(pow256, 9);
}

/// A big-endian value is below `256^len`.
pub proof fn lemma_be_value_bound(s: Seq<u8>)
    ensures
        be_value(s) < pow256(s.len()),
    decreases s.len(),
{
    if s.len() > 0 {
        lemma_be_value_bound(s.drop_last());
        let p = pow256((s.len() - 1) as nat);
        let v = be_value(s.drop_last());
        assert(v * 256 + (s.last() as nat) < p * 256) by (nonlinear_arith)
            requires
                v < p,
                s.last() < 256,
        ;
    }
}

/// A little-endian value is below `256^len`.
pub proof fn lemma_le_value_bound(s: Seq<u8>)
    ensures
        le_value(s) < pow256(s.len()),
    decreases s.len(),
{
    if s.len() > 0 {
        lemma_le_value_bound(s.drop_first());
        let p = pow256((s.len() - 1) as nat);
        let v = le_value(s.drop_first());
        assert((s[0] as nat) + 256 * v < 256 * p) by (nonlinear_arith)
            requires
                v < p,
                s[0] < 256,
        ;
    }
}

/// Appending a byte to a little-endian sequence adds its weight at the top.
pub proof fn lemma_le_value_push(s: Seq<u8>, b: u8)
    ensures
        le_value(s.push(b)) == le_value(s) + pow256(s.len()) * b,
    decreases s.len(),
{
    if s.len() == 0 {
        assert(s.push(b).drop_first() =~= Seq::<u8>::empty());
        assert(le_value(s.push(b)) == b as nat + 256 * le_value(Seq::<u8>::empty()));
        assert(pow256(0) == 1);
    } else {
        let t = s.drop_first();
        assert(s.push(b).drop_first() =~= t.push(b));
        assert(s.push(b)[0] == s[0]);
        lemma_le_value_push(t, b);
        let p = pow256(t.len());
        assert(pow256(s.len()) == 256 * p);
        assert(le_value(s.push(b)) == s[0] as nat + 256 * le_value(t.push(b)));
        assert(le_value(t.push(b)) == le_value(t) + p * b);
        assert(le_value(s) == s[0] as nat + 256 * le_value(t));
        assert(256 * (le_value(t) + p * b) == 256 * le_value(t) + (256 * p) * b) by (nonlinear_arith);
    }
}

/// The last `n` bytes of the big-endian representation of `x`.
pub open spec fn be_bytes(x: nat, n: nat) -> Seq<u8>
    decreases n,
{
    if n == 0 {
        seq![]
    } else {
        be_bytes(x / 256, (n - 1) as nat).push((x % 256) as u8)
    }
}

/// Reading `n` big-endian bytes of `x` gives back `x` modulo `256^n`.
pub proof fn lemma_be_bytes_value(x: nat, n: nat)
    ensures
        be_bytes(x, n).len() == n,
        be_value(be_bytes(x, n)) == x % pow256(n),
    decreases n,
{
    if n > 0 {
        lemma_be_bytes_value(x / 256, (n - 1) as nat);
        let b = be_bytes(x, n);
        assert(b.drop_last() =~= be_bytes(x / 256, (n - 1) as nat));
        let p = pow256((n - 1) as nat);
        assert(p > 0) by {
            lemma_pow256_monotone(0, (n - 1) as nat);
        }
        assert(((x / 256) % p) * 256 + x % 256 == x % (256 * p)) by (nonlinear_arith)
            requires
                p > 0,
        {
            vstd::arithmetic::div_mod::lemma_breakdown(x as int, 256, p as int);
        }
    }
}

/// The last `n` bytes of the big-endian representation of `x`, for `n` of at most 8.
pub fn be_bytes_of(x: u64, n: usize) -> (r: Vec<u8>)
    requires
        n <= 8,
    ensures
        r@ == be_bytes(x as nat, n as nat),
    decreases n,
{
    if n == 0 {
        Vec::new()
    } else {
        let mut r = be_bytes_of(x / 256, n - 1);
        r.push((x % 256) as u8);
        r
    }
}

/// The big-endian value of a byte sequence of at most eight bytes.
pub fn be_uint(bytes: &[u8]) -> (r: u64)
    requires
        bytes@.len() <= 8,
    ensures
        r as nat == be_value(bytes@),
{
    let mut v: u64 = 0;
    let mut i: usize = 0;
    while i < bytes.len()
        invariant
            i <= bytes@.len() <= 8,
            v as nat == be_value(bytes@.take(i as int)),
        decreases bytes@.len() - i,
    {
        proof {
            lemma_be_value_bound(bytes@.take(i as int));
            lemma_pow256_values();
            lemma_pow256_monotone(i as nat, 7);
            assert(bytes@.take(i + 1).drop_last() =~= bytes@.take(i as int));
        }
        v = v * 256 + bytes[i] as u64;
        i = i + 1;
    }
    proof {
        assert(bytes@.take(i as int) =~= bytes@);
    }
    v
}

/// The little-endian value of a byte sequence of at most eight bytes.
pub fn le_uint(bytes: &[u8]) -> (r: u64)
    requires
        bytes@.len() <= 8,
    ensures
        r as nat == le_value(bytes@),
{
    let mut v: u64 = 0;
    let mut i: usize = 0;
    let mut weight: u64 = 1;
    while i < bytes.len()
        invariant
            i <= bytes@.len() <= 8,
            v as nat == le_value(bytes@.take(i as int)),
            weight as nat == pow256(i as nat),
        decreases bytes@.len() - i,
    {
        proof {
            lemma_le_value_bound(bytes@.take(i as int));
            lemma_pow256_values();
            lemma_pow256_monotone(i as nat, 7);
            assert(bytes@.take(i + 1) =~= bytes@.take(i as int).push(bytes@[i as int]));
            lemma_le_value_push(bytes@.take(i as int), bytes@[i as int]);
            let w = weight as nat;
            let b = bytes@[i as int] as nat;
            assert((v as nat) + w * b < w * 256) by (nonlinear_arith)
                requires
                    v < w,
                    b < 256,
            ;
            assert(w * 256 <= 0x1_0000_0000_0000_0000) by (nonlinear_arith)
                requires
                    w <= 0x100_0000_0000_0000,
            ;
        }
        v = v + weight * (bytes[i] as u64);
        if i + 1 < bytes.len() {
            weight = weight * 256;
        } else {
            proof {
                assert(bytes@.take(i + 1) =~= bytes@);
            }
            return v;
        }
        i = i + 1;
    }
    proof {
        assert(bytes@.take(i as int) =~= bytes@);
    }
    v
}

/// `pow256` grows with its argument.
pub proof fn lemma_pow256_monotone(a: nat, b: nat)
    requires
        a <= b,
    ensures
        pow256(a) <= pow256(b),
    decreases b,
{
    if a < b {
        lemma_pow256_monotone(a, (b - 1) as nat);
    }
}

/// The first index at which a chunk-aligned search for `needle` ends, or the whole length
/// if no aligned chunk equals `needle`. An empty `needle` is found at once, so the search
/// ends at zero.
pub open spec fn search_end(rest: Seq<u8>, needle: Seq<u8>) -> nat
    decreases rest.len(),
{
    if needle.len() == 0 {
        0
    } else if rest.len() < needle.len() {
        rest.len()
    } else if rest.take(needle.len() as int) == needle {
        needle.len()
    } else {
        needle.len() + search_end(rest.skip(needle.len() as int), needle)
    }
}

pub proof fn lemma_search_end_bound(rest: Seq<u8>, needle: Seq<u8>)
    ensures
        search_end(rest, needle) <= rest.len(),
    decreases rest.len(),
{
    if needle.len() != 0 && rest.len() >= needle.len() && rest.take(needle.len() as int)
        != needle {
        lemma_search_end_bound(rest.skip(needle.len() as int), needle);
    }
}

/// An ergonomics layer around a byte slice.
///
/// This is meant to automate bounds checking and data transformation when parsing tags.
#[derive(Clone, Copy)]
pub struct BufStream<'a> {
    src: &'a [u8],
    pos: usize,
}

impl<'a> BufStream<'a> {
    #[verifier::type_invariant]
    spec fn inv(&self) -> bool {
        self.pos <= self.src@.len()
    }

    /// The whole buffer of this stream.
    pub closed spec fn data(&self) -> Seq<u8> {
        self.src@
    }

    /// The position of this stream in its buffer, which never passes its end.
    pub closed spec fn cursor(&self) -> nat {
        if self.pos <= self.src@.len() {
            self.pos as nat
        } else {
            self.src@.len()
        }
    }

    /// The part of the buffer that has not been consumed.
    pub open spec fn rest(&self) -> Seq<u8> {
        self.data().subrange(self.cursor() as int, self.data().len() as int)
    }

    /// Whatever calls a stream has gone through, its position is within its buffer and what
    /// remains of it runs from that position to the end: with every method keeping the buffer
    /// (`data()`), a stream made from `src` keeps the length of `src`, a position of at most
    /// that length, a remaining length of that length less the position, and `src` as its
    /// whole buffer.
    pub proof fn lemma_stream_consistent(&self, src: Seq<u8>)
        requires
            self.data() == src,
        ensures
            self.cursor() <= src.len(),
            self.data().len() == src.len(),
            self.rest().len() == src.len() - self.cursor(),
            self.rest() == src.skip(self.cursor() as int),
    {
        assert(self.rest() =~= src.skip(self.cursor() as int));
    }

    /// Construct a new `BufStream` from `src`.
    pub fn new(src: &'a [u8]) -> (s: Self)
        ensures
            s.data() == src@,
            s.cursor() == 0,
            s.rest() == src@,
    {
        let s = BufStream { src, pos: 0 };
        assert(s.rest() =~= src@);
        s
    }

    /// Reads this stream into a buffer.
    ///
    /// If the end of a stream is reached, then the remaining bytes will be unchanged.
    pub fn read(&mut self, buf: &mut [u8]) -> (n: usize)
        ensures
            n as int == if old(self).rest().len() < old(buf)@.len() {
                old(self).rest().len() as int
            } else {
                old(buf)@.len() as int
            },
            final(buf)@ == old(self).rest().take(n as int) + old(buf)@.skip(n as int),
            final(self).data() == old(self).data(),
            final(self).cursor() == old(self).cursor() + n,
            final(self).rest() == old(self).rest().skip(n as int),
    {
        proof {
            use_type_invariant(&*self);
        }
        let rem = self.src.len() - self.pos;
        let len = if rem < buf.len() { rem } else { buf.len() };
        let ghost old_buf = buf@;
        let src: &'a [u8] = self.src;
        let p = self.pos;
        let total = src.len();
        let mut i: usize = 0;
        while i < len
            invariant
                0 <= i <= len <= buf@.len(),
                total == src@.len(),
                p + len <= total,
                buf@.len() == old_buf.len(),
                forall|j: int| 0 <= j < i ==> buf@[j] == src@[p + j],
                forall|j: int| i <= j < buf@.len() ==> buf@[j] == old_buf[j],
            decreases len - i,
        {
            buf[i] = src[p + i];
            i = i + 1;
        }
        self.pos = self.pos + len;
        proof {
            assert(buf@ =~= old(self).rest().take(len as int) + old_buf.skip(len as int));
            assert(self.rest() =~= old(self).rest().skip(len as int));
        }
        len
    }

    /// Reads this stream into a buffer.
    ///
    /// # Errors
    /// If this buffer cannot be filled, then an error will be returned.
    pub fn read_exact(&mut self, buf: &mut [u8]) -> (r: Result<(), StreamError>)
        ensures
            final(self).data() == old(self).data(),
            match r {
                Ok(_) => {
                    &&& old(buf)@.len() <= old(self).rest().len()
                    &&& final(buf)@ == old(self).rest().take(old(buf)@.len() as int)
                    &&& final(self).rest() == old(self).rest().skip(old(buf)@.len() as int)
                    &&& final(self).cursor() == old(self).cursor() + old(buf)@.len()
                },
                Err(e) => {
                    &&& old(self).rest().len() < old(buf)@.len()
                    &&& e == StreamError::BufferUnderread {
                        len: old(buf)@.len() as usize,
                        remaining: old(self).rest().len() as usize,
                    }
                    &&& final(buf)@ == old(buf)@
                    &&& *final(self) == *old(self)
                },
            },
    {
        proof {
            use_type_invariant(&*self);
        }
        if self.remaining() < buf.len() {
            return Err(StreamError::BufferUnderread { len: buf.len(), remaining: self.remaining() });
        }
        let ghost old_buf = buf@;
        let n = self.read(buf);
        proof {
            assert(buf@ =~= old(self).rest().take(old_buf.len() as int));
        }
        Ok(())
    }

    /// Reads this stream into an array of size `N`.
    ///
    /// # Errors
    /// If the array cannot be filled, then an error is returned.
    pub fn read_array<const N: usize>(&mut self) -> (r: Result<[u8; N], StreamError>)
        ensures
            final(self).data() == old(self).data(),
            match r {
                Ok(arr) => {
                    &&& N <= old(self).rest().len()
                    &&& arr@ == old(self).rest().take(N as int)
                    &&& final(self).rest() == old(self).rest().skip(N as int)
                    &&& final(self).cursor() == old(self).cursor() + N
                },
                Err(e) => {
                    &&& old(self).rest().len() < N
                    &&& e == StreamError::BufferUnderread {
                        len: N,
                        remaining: old(self).rest().len() as usize,
                    }
                    &&& *final(self) == *old(self)
                },
            },
    {
        let mut arr = [0u8; N];
        match self.read_exact(&mut arr) {
            Ok(_) => Ok(arr),
            Err(e) => Err(e),
        }
    }

    /// Consumes exactly `n` bytes and returns them.
    fn take_bytes(&mut self, n: usize) -> (r: Result<&'a [u8], StreamError>)
        ensures
            final(self).data() == old(self).data(),
            match r {
                Ok(bytes) => {
                    &&& n <= old(self).rest().len()
                    &&& bytes@ == old(self).rest().take(n as int)
                    &&& final(self).rest() == old(self).rest().skip(n as int)
                    &&& final(self).cursor() == old(self).cursor() + n
                },
                Err(e) => {
                    &&& old(self).rest().len() < n
                    &&& e == StreamError::BufferUnderread {
                        len: n,
                        remaining: old(self).rest().len() as usize,
                    }
                    &&& *final(self) == *old(self)
                },
            },
    {
        proof {
            use_type_invariant(&*self);
        }
        if self.src.len() - self.pos < n {
            return Err(StreamError::BufferUnderread { len: n, remaining: self.src.len() - self.pos });
        }
        let src: &'a [u8] = self.src;
        let start = self.pos;
        self.pos = self.pos + n;
        proof {
            assert(src@.subrange(start as int, start + n) =~= old(self).rest().take(n as int));
            assert(self.rest() =~= old(self).rest().skip(n as int));
        }
        Ok(&src[start..start + n])
    }

    /// Reads exactly one [`u8`](u8) from this stream.
    ///
    /// # Errors
    /// If the stream is exhausted, then an error will be returned.
    pub fn read_u8(&mut self) -> (r: Result<u8, StreamError>)
        ensures
            final(self).data() == old(self).data(),
            match r {
                Ok(b) => {
                    &&& old(self).rest().len() >= 1
                    &&& b == old(self).rest()[0]
                    &&& final(self).rest() == old(self).rest().drop_first()
                    &&& final(self).cursor() == old(self).cursor() + 1
                },
                Err(e) => {
                    &&& old(self).rest().len() == 0
                    &&& e == StreamError::EndOfStream
                    &&& *final(self) == *old(self)
                },
            },
    {
        proof {
            use_type_invariant(&*self);
        }
        if self.pos >= self.src.len() {
            return Err(StreamError::EndOfStream);
        }
        self.pos = self.pos + 1;
        proof {
            assert(self.rest() =~= old(self).rest().drop_first());
        }
        Ok(self.src[self.pos - 1])
    }

    /// Reads exactly one [`i8`](i8) from this stream.
    ///
    /// # Errors
    /// If the stream is exhausted, then an error will be returned.
    pub fn read_i8(&mut self) -> (r: Result<i8, StreamError>)
        ensures
            final(self).data() == old(self).data(),
            match r {
                Ok(b) => {
                    &&& old(self).rest().len() >= 1
                    &&& b == old(self).rest()[0] as i8
                    &&& final(self).rest() == old(self).rest().drop_first()
                },
                Err(e) => {
                    &&& old(self).rest().len() == 0
                    &&& e == StreamError::EndOfStream
                    &&& *final(self) == *old(self)
                },
            },
    {
        match self.read_u8() {
            Ok(b) => Ok(b as i8),
            Err(e) => Err(e),
        }
    }

    /// Reads a big-endian [`u16`](u16) from this stream.
    ///
    /// # Errors
    /// If the there is not enough bytes to construct the type, then an error is returned.
    pub fn read_be_u16(&mut self) -> (r: Result<u16, StreamError>)
        ensures
            final(self).data() == old(self).data(),
            match r {
                Ok(v) => {
                    &&& 2 <= old(self).rest().len()
                    &&& v as nat == be_value(old(self).rest().take(2))
                    &&& final(self).rest() == old(self).rest().skip(2)
                },
                Err(e) => {
                    &&& old(self).rest().len() < 2
                    &&& e == StreamError::BufferUnderread {
                        len: 2,
                        remaining: old(self).rest().len() as usize,
                    }
                    &&& *final(self) == *old(self)
                },
            },
    {
        match self.read_be(2) {
            Ok(v) => {
                proof {
                    lemma_be_value_bound(old(self).rest().take(2));
                    lemma_pow256_values();
                }
                Ok(v as u16)
            },
            Err(e) => Err(e),
        }
    }

    /// Reads a big-endian [`u32`](u32) from this stream.
    ///
    /// # Errors
    /// If the there is not enough bytes to construct the type, then an error is returned.
    pub fn read_be_u32(&mut self) -> (r: Result<u32, StreamError>)
        ensures
            final(self).data() == old(self).data(),
            match r {
                Ok(v) => {
                    &&& 4 <= old(self).rest().len()
                    &&& v as nat == be_value(old(self).rest().take(4))
                    &&& final(self).rest() == old(self).rest().skip(4)
                },
                Err(e) => {
                    &&& old(self).rest().len() < 4
                    &&& e == StreamError::BufferUnderread {
                        len: 4,
                        remaining: old(self).rest().len() as usize,
                    }
                    &&& *final(self) == *old(self)
                },
            },
    {
        match self.read_be(4) {
            Ok(v) => {
                proof {
                    lemma_be_value_bound(old(self).rest().take(4));
                    lemma_pow256_values();
                }
                Ok(v as u32)
            },
            Err(e) => Err(e),
        }
    }

    /// Reads a big-endian [`u64`](u64) from this stream.
    ///
    /// # Errors
    /// If the there is not enough bytes to construct the type, then an error is returned.
    pub fn read_be_u64(&mut self) -> (r: Result<u64, StreamError>)
        ensures
            final(self).data() == old(self).data(),
            match r {
                Ok(v) => {
                    &&& 8 <= old(self).rest().len()
                    &&& v as nat == be_value(old(self).rest().take(8))
                    &&& final(self).rest() == old(self).rest().skip(8)
                },
                Err(e) => {
                    &&& old(self).rest().len() < 8
                    &&& e == StreamError::BufferUnderread {
                        len: 8,
                        remaining: old(self).rest().len() as usize,
                    }
                    &&& *final(self) == *old(self)
                },
            },
    {
        match self.read_be(8) {
            Ok(v) => {
                proof {
                    lemma_be_value_bound(old(self).rest().take(8));
                    lemma_pow256_values();
                }
                Ok(v as u64)
            },
            Err(e) => Err(e),
        }
    }

    /// Reads a big-endian [`i16`](i16) from this stream.
    ///
    /// # Errors
    /// If the there is not enough bytes to construct the type, then an error is returned.
    pub fn read_be_i16(&mut self) -> (r: Result<i16, StreamError>)
        ensures
            final(self).data() == old(self).data(),
            match r {
                Ok(v) => {
                    &&& 2 <= old(self).rest().len()
                    &&& v == ((be_value(old(self).rest().take(2)) as u16) as i16)
                    &&& final(self).rest() == old(self).rest().skip(2)
                },
                Err(e) => {
                    &&& old(self).rest().len() < 2
                    &&& e == StreamError::BufferUnderread {
                        len: 2,
                        remaining: old(self).rest().len() as usize,
                    }
                    &&& *final(self) == *old(self)
                },
            },
    {
        match self.read_be(2) {
            Ok(v) => {
                proof {
                    lemma_be_value_bound(old(self).rest().take(2));
                    lemma_pow256_values();
                }
                Ok((v as u16) as i16)
            },
            Err(e) => Err(e),
        }
    }

    /// Reads a big-endian [`i32`](i32) from this stream.
    ///
    /// # Errors
    /// If the there is not enough bytes to construct the type, then an error is returned.
    pub fn read_be_i32(&mut self) -> (r: Result<i32, StreamError>)
        ensures
            final(self).data() == old(self).data(),
            match r {
                Ok(v) => {
                    &&& 4 <= old(self).rest().len()
                    &&& v == ((be_value(old(self).rest().take(4)) as u32) as i32)
                    &&& final(self).rest() == old(self).rest().skip(4)
                },
                Err(e) => {
                    &&& old(self).rest().len() < 4
                    &&& e == StreamError::BufferUnderread {
                        len: 4,
                        remaining: old(self).rest().len() as usize,
                    }
                    &&& *final(self) == *old(self)
                },
            },
    {
        match self.read_be(4) {
            Ok(v) => {
                proof {
                    lemma_be_value_bound(old(self).rest().take(4));
                    lemma_pow256_values();
                }
                Ok((v as u32) as i32)
            },
            Err(e) => Err(e),
        }
    }

    /// Reads a big-endian [`i64`](i64) from this stream.
    ///
    /// # Errors
    /// If the there is not enough bytes to construct the type, then an error is returned.
    pub fn read_be_i64(&mut self) -> (r: Result<i64, StreamError>)
        ensures
            final(self).data() == old(self).data(),
            match r {
                Ok(v) => {
                    &&& 8 <= old(self).rest().len()
                    &&& v == ((be_value(old(self).rest().take(8)) as u64) as i64)
                    &&& final(self).rest() == old(self).rest().skip(8)
                },
                Err(e) => {
                    &&& old(self).rest().len() < 8
                    &&& e == StreamError::BufferUnderread {
                        len: 8,
                        remaining: old(self).rest().len() as usize,
                    }
                    &&& *final(self) == *old(self)
                },
            },
    {
        match self.read_be(8) {
            Ok(v) => {
                proof {
                    lemma_be_value_bound(old(self).rest().take(8));
                    lemma_pow256_values();
                }
                Ok((v as u64) as i64)
            },
            Err(e) => Err(e),
        }
    }

    /// Reads a little-endian [`u16`](u16) from this stream.
    ///
    /// # Errors
    /// If the there is not enough bytes to construct the type, then an error is returned.
    pub fn read_le_u16(&mut self) -> (r: Result<u16, StreamError>)
        ensures
            final(self).data() == old(self).data(),
            match r {
                Ok(v) => {
                    &&& 2 <= old(self).rest().len()
                    &&& v as nat == le_value(old(self).rest().take(2))
                    &&& final(self).rest() == old(self).rest().skip(2)
                },
                Err(e) => {
                    &&& old(self).rest().len() < 2
                    &&& e == StreamError::BufferUnderread {
                        len: 2,
                        remaining: old(self).rest().len() as usize,
                    }
                    &&& *final(self) == *old(self)
                },
            },
    {
        match self.read_le(2) {
            Ok(v) => {
                proof {
                    lemma_le_value_bound(old(self).rest().take(2));
                    lemma_pow256_values();
                }
                Ok(v as u16)
            },
            Err(e) => Err(e),
        }
    }

    /// Reads a little-endian [`u32`](u32) from this stream.
    ///
    /// # Errors
    /// If the there is not enough bytes to construct the type, then an error is returned.
    pub fn read_le_u32(&mut self) -> (r: Result<u32, StreamError>)
        ensures
            final(self).data() == old(self).data(),
            match r {
                Ok(v) => {
                    &&& 4 <= old(self).rest().len()
                    &&& v as nat == le_value(old(self).rest().take(4))
                    &&& final(self).rest() == old(self).rest().skip(4)
                },
                Err(e) => {
                    &&& old(self).rest().len() < 4
                    &&& e == StreamError::BufferUnderread {
                        len: 4,
                        remaining: old(self).rest().len() as usize,
                    }
                    &&& *final(self) == *old(self)
                },
            },
    {
        match self.read_le(4) {
            Ok(v) => {
                proof {
                    lemma_le_value_bound(old(self).rest().take(4));
                    lemma_pow256_values();
                }
                Ok(v as u32)
            },
            Err(e) => Err(e),
        }
    }

    /// Reads a little-endian [`u64`](u64) from this stream.
    ///
    /// # Errors
    /// If the there is not enough bytes to construct the type, then an error is returned.
    pub fn read_le_u64(&mut self) -> (r: Result<u64, StreamError>)
        ensures
            final(self).data() == old(self).data(),
            match r {
                Ok(v) => {
                    &&& 8 <= old(self).rest().len()
                    &&& v as nat == le_value(old(self).rest().take(8))
                    &&& final(self).rest() == old(self).rest().skip(8)
                },
                Err(e) => {
                    &&& old(self).rest().len() < 8
                    &&& e == StreamError::BufferUnderread {
                        len: 8,
                        remaining: old(self).rest().len() as usize,
                    }
                    &&& *final(self) == *old(self)
                },
            },
    {
        match self.read_le(8) {
            Ok(v) => {
                proof {
                    lemma_le_value_bound(old(self).rest().take(8));
                    lemma_pow256_values();
                }
                Ok(v as u64)
            },
            Err(e) => Err(e),
        }
    }

    /// Reads a little-endian [`i16`](i16) from this stream.
    ///
    /// # Errors
    /// If the there is not enough bytes to construct the type, then an error is returned.
    pub fn read_le_i16(&mut self) -> (r: Result<i16, StreamError>)
        ensures
            final(self).data() == old(self).data(),
            match r {
                Ok(v) => {
                    &&& 2 <= old(self).rest().len()
                    &&& v == ((le_value(old(self).rest().take(2)) as u16) as i16)
                    &&& final(self).rest() == old(self).rest().skip(2)
                },
                Err(e) => {
                    &&& old(self).rest().len() < 2
                    &&& e == StreamError::BufferUnderread {
                        len: 2,
                        remaining: old(self).rest().len() as usize,
                    }
                    &&& *final(self) == *old(self)
                },
            },
    {
        match self.read_le(2) {
            Ok(v) => {
                proof {
                    lemma_le_value_bound(old(self).rest().take(2));
                    lemma_pow256_values();
                }
                Ok((v as u16) as i16)
            },
            Err(e) => Err(e),
        }
    }

    /// Reads a little-endian [`i32`](i32) from this stream.
    ///
    /// # Errors
    /// If the there is not enough bytes to construct the type, then an error is returned.
    pub fn read_le_i32(&mut self) -> (r: Result<i32, StreamError>)
        ensures
            final(self).data() == old(self).data(),
            match r {
                Ok(v) => {
                    &&& 4 <= old(self).rest().len()
                    &&& v == ((le_value(old(self).rest().take(4)) as u32) as i32)
                    &&& final(self).rest() == old(self).rest().skip(4)
                },
                Err(e) => {
                    &&& old(self).rest().len() < 4
                    &&& e == StreamError::BufferUnderread {
                        len: 4,
                        remaining: old(self).rest().len() as usize,
                    }
                    &&& *final(self) == *old(self)
                },
            },
    {
        match self.read_le(4) {
            Ok(v) => {
                proof {
                    lemma_le_value_bound(old(self).rest().take(4));
                    lemma_pow256_values();
                }
                Ok((v as u32) as i32)
            },
            Err(e) => Err(e),
        }
    }

    /// Reads a little-endian [`i64`](i64) from this stream.
    ///
    /// # Errors
    /// If the there is not enough bytes to construct the type, then an error is returned.
    pub fn read_le_i64(&mut self) -> (r: Result<i64, StreamError>)
        ensures
            final(self).data() == old(self).data(),
            match r {
                Ok(v) => {
                    &&& 8 <= old(self).rest().len()
                    &&& v == ((le_value(old(self).rest().take(8)) as u64) as i64)
                    &&& final(self).rest() == old(self).rest().skip(8)
                },
                Err(e) => {
                    &&& old(self).rest().len() < 8
                    &&& e == StreamError::BufferUnderread {
                        len: 8,
                        remaining: old(self).rest().len() as usize,
                    }
                    &&& *final(self) == *old(self)
                },
            },
    {
        match self.read_le(8) {
            Ok(v) => {
                proof {
                    lemma_le_value_bound(old(self).rest().take(8));
                    lemma_pow256_values();
                }
                Ok((v as u64) as i64)
            },
            Err(e) => Err(e),
        }
    }

    /// Skips `n` bytes in this stream.
    ///
    /// # Errors
    /// If this skip is beyond the stream length, then an error will be returned.
    pub fn skip(&mut self, n: usize) -> (r: Result<(), StreamError>)
        ensures
            final(self).data() == old(self).data(),
            match r {
                Ok(_) => {
                    &&& n <= old(self).rest().len()
                    &&& final(self).rest() == old(self).rest().skip(n as int)
                    &&& final(self).cursor() == old(self).cursor() + n
                },
                Err(e) => {
                    &&& old(self).rest().len() < n
                    &&& e == StreamError::OutOfBounds {
                        pos: if old(self).cursor() + n <= usize::MAX {
                            (old(self).cursor() + n) as usize
                        } else {
                            usize::MAX
                        },
                        len: old(self).data().len() as usize,
                    }
                    &&& *final(self) == *old(self)
                },
            },
    {
        proof {
            use_type_invariant(&*self);
        }
        if self.src.len() - self.pos < n {
            return Err(StreamError::OutOfBounds { pos: self.pos.saturating_add(n), len: self.src.len() });
        }
        self.pos = self.pos + n;
        proof {
            assert(self.rest() =~= old(self).rest().skip(n as int));
        }
        Ok(())
    }

    /// Consumes the stream and returns a slice of size n.
    ///
    /// # Errors
    /// If the slice bounds are outside of the range of the stream, then an error is returned.
    pub fn slice(&mut self, n: usize) -> (r: Result<&'a [u8], StreamError>)
        ensures
            final(self).data() == old(self).data(),
            match r {
                Ok(bytes) => {
                    &&& n <= old(self).rest().len()
                    &&& bytes@ == old(self).rest().take(n as int)
                    &&& final(self).rest() == old(self).rest().skip(n as int)
                    &&& final(self).cursor() == old(self).cursor() + n
                },
                Err(e) => {
                    &&& old(self).rest().len() < n
                    &&& e == StreamError::BufferUnderread {
                        len: n,
                        remaining: old(self).rest().len() as usize,
                    }
                    &&& *final(self) == *old(self)
                },
            },
    {
        self.take_bytes(n)
    }

    /// Like [`slice`](BufStream::slice), but it returns a new `BufStream` containing the slice.
    ///
    /// # Errors
    /// If the slice bounds are outside of the range of the stream, then an error is returned.
    pub fn slice_stream(&mut self, n: usize) -> (r: Result<BufStream<'a>, StreamError>)
        ensures
            final(self).data() == old(self).data(),
            match r {
                Ok(s) => {
                    &&& n <= old(self).rest().len()
                    &&& s.data() == old(self).rest().take(n as int)
                    &&& s.cursor() == 0
                    &&& s.rest() == old(self).rest().take(n as int)
                    &&& final(self).rest() == old(self).rest().skip(n as int)
                    &&& final(self).cursor() == old(self).cursor() + n
                },
                Err(e) => {
                    &&& old(self).rest().len() < n
                    &&& e == StreamError::BufferUnderread {
                        len: n,
                        remaining: old(self).rest().len() as usize,
                    }
                    &&& *final(self) == *old(self)
                },
            },
    {
        match self.take_bytes(n) {
            Ok(bytes) => Ok(BufStream::new(bytes)),
            Err(e) => Err(e),
        }
    }

    /// Peeks at a portion of this stream relative to the current position, without consuming the stream.
    ///
    /// # Errors
    /// If the peek location is out of bounds, an error will be returned.
    pub fn peek(&self, range: Range<usize>) -> (r: Result<&'a [u8], StreamError>)
        requires
            range.start <= range.end,
        ensures
            match r {
                Ok(bytes) => {
                    &&& range.end <= self.rest().len()
                    &&& bytes@ == self.rest().subrange(range.start as int, range.end as int)
                },
                Err(e) => {
                    &&& range.end > self.rest().len()
                    &&& e == if self.cursor() + range.start > self.data().len() {
                        StreamError::OutOfBounds {
                            pos: if self.cursor() + range.start <= usize::MAX {
                                (self.cursor() + range.start) as usize
                            } else {
                                usize::MAX
                            },
                            len: self.data().len() as usize,
                        }
                    } else {
                        StreamError::OutOfBounds {
                            pos: if self.cursor() + range.end <= usize::MAX {
                                (self.cursor() + range.end) as usize
                            } else {
                                usize::MAX
                            },
                            len: self.data().len() as usize,
                        }
                    }
                },
            },
    {
        proof {
            use_type_invariant(self);
        }
        let rem = self.src.len() - self.pos;
        if range.start > rem {
            return Err(StreamError::OutOfBounds { pos: range.start.saturating_add(self.pos), len: self.src.len() });
        }
        if range.end > rem {
            return Err(StreamError::OutOfBounds { pos: range.end.saturating_add(self.pos), len: self.src.len() });
        }
        let start = range.start + self.pos;
        let end = range.end + self.pos;
        let src: &'a [u8] = self.src;
        proof {
            assert(src@.subrange(start as int, end as int) =~= self.rest().subrange(
                range.start as int,
                range.end as int,
            ));
        }
        Ok(&src[start..end])
    }

    /// Searches for `needle` and returns a slice of the data including the pattern.
    ///
    /// This function will consume the stream until the stream is exhausted or if the
    /// pattern has been found. It will then return all of the data it consumed while
    /// searching. The search only compares `needle` against chunks of its own length,
    /// starting at the current position. If the pattern is not found, the rest of the
    /// stream is returned. An empty pattern is found at once: an empty slice is returned and
    /// the stream does not move.
    pub fn search(&mut self, needle: &[u8]) -> (r: &'a [u8])
        ensures
            final(self).data() == old(self).data(),
            search_end(old(self).rest(), needle@) <= old(self).rest().len(),
            r@ == old(self).rest().take(search_end(old(self).rest(), needle@) as int),
            final(self).rest() == old(self).rest().skip(search_end(old(self).rest(), needle@) as int),
            final(self).cursor() == old(self).cursor() + search_end(old(self).rest(), needle@),
    {
        proof {
            use_type_invariant(&*self);
            lemma_search_end_bound(old(self).rest(), needle@);
        }
        let src: &'a [u8] = self.src;
        let start = self.pos;
        let limit = src.len();
        let n = needle.len();
        if n == 0 {
            proof {
                assert(src@.subrange(start as int, start as int) =~= old(self).rest().take(0));
                assert(self.rest() =~= old(self).rest().skip(0));
            }
            return &src[start..start];
        }
        let mut begin = start;
        while begin <= limit && n <= limit - begin
            invariant
                start <= begin <= limit,
                limit == src@.len(),
                n == needle@.len() > 0,
                self.src == src,
                old(self).src == src,
                old(self).pos == start,
                self.pos == start,
                (begin - start) + search_end(src@.subrange(begin as int, limit as int), needle@)
                    == search_end(old(self).rest(), needle@),
                old(self).rest() == src@.subrange(start as int, limit as int),
            decreases limit - begin,
        {
            let ghost r = src@.subrange(begin as int, limit as int);
            if bytes_eq(&src[begin..begin + n], needle) {
                proof {
                    assert(r.take(n as int) =~= src@.subrange(begin as int, begin + n));
                    assert(search_end(r, needle@) == n);
                }
                let end = begin + n;
                self.pos = end;
                proof {
                    assert(src@.subrange(start as int, end as int) =~= old(self).rest().take(
                        search_end(old(self).rest(), needle@) as int,
                    ));
                    assert(self.rest() =~= old(self).rest().skip(
                        search_end(old(self).rest(), needle@) as int,
                    ));
                }
                return &src[start..end];
            }
            proof {
                assert(r.take(n as int) =~= src@.subrange(begin as int, begin + n));
                assert(r.skip(n as int) =~= src@.subrange(begin + n, limit as int));
            }
            begin = begin + n;
        }
        proof {
            let r = src@.subrange(begin as int, limit as int);
            assert(search_end(r, needle@) == r.len());
        }
        self.take_rest()
    }

    /// Consumes the rest of the stream into a slice, exhausting the stream.
    pub fn take_rest(&mut self) -> (r: &'a [u8])
        ensures
            final(self).data() == old(self).data(),
            r@ == old(self).rest(),
            final(self).rest().len() == 0,
            final(self).cursor() == old(self).data().len(),
    {
        proof {
            use_type_invariant(&*self);
        }
        let src: &'a [u8] = self.src;
        let start = self.pos;
        self.pos = src.len();
        &src[start..src.len()]
    }

    /// Copies the entire buffer of this stream into a [`Vec`](std::vec::Vec),
    /// without consuming the stream.
    pub fn to_vec(&self) -> (v: Vec<u8>)
        ensures
            v@ == self.data(),
    {
        vstd::slice::slice_to_vec(self.src)
    }

    /// Returns the length of this stream.
    pub fn len(&self) -> (n: usize)
        ensures
            n == self.data().len(),
    {
        self.src.len()
    }

    /// Returns the stream position.
    pub fn pos(&self) -> (n: usize)
        ensures
            n == self.cursor(),
            n <= self.data().len(),
    {
        proof {
            use_type_invariant(self);
        }
        self.pos
    }

    /// Returns the remaining length of this stream.
    pub fn remaining(&self) -> (n: usize)
        ensures
            n == self.rest().len(),
            self.cursor() + n == self.data().len(),
    {
        proof {
            use_type_invariant(self);
        }
        self.src.len() - self.pos
    }

    /// Returns if this stream is exhausted.
    pub fn is_empty(&self) -> (b: bool)
        ensures
            b == (self.rest().len() == 0),
            self.cursor() + self.rest().len() == self.data().len(),
    {
        proof {
            use_type_invariant(self);
        }
        self.remaining() == 0
    }

    /// Reads `n` bytes as a big-endian unsigned integer.
    fn read_be(&mut self, n: usize) -> (r: Result<u64, StreamError>)
        requires
            n <= 8,
        ensures
            final(self).data() == old(self).data(),
            match r {
                Ok(v) => {
                    &&& n <= old(self).rest().len()
                    &&& v as nat == be_value(old(self).rest().take(n as int))
                    &&& final(self).rest() == old(self).rest().skip(n as int)
                },
                Err(e) => {
                    &&& old(self).rest().len() < n
                    &&& e == StreamError::BufferUnderread {
                        len: n,
                        remaining: old(self).rest().len() as usize,
                    }
                    &&& *final(self) == *old(self)
                },
            },
    {
        match self.take_bytes(n) {
            Ok(bytes) => Ok(be_uint(bytes)),
            Err(e) => Err(e),
        }
    }

    /// Reads `n` bytes as a little-endian unsigned integer.
    fn read_le(&mut self, n: usize) -> (r: Result<u64, StreamError>)
        requires
            n <= 8,
        ensures
            final(self).data() == old(self).data(),
            match r {
                Ok(v) => {
                    &&& n <= old(self).rest().len()
                    &&& v as nat == le_value(old(self).rest().take(n as int))
                    &&& final(self).rest() == old(self).rest().skip(n as int)
                },
                Err(e) => {
                    &&& old(self).rest().len() < n
                    &&& e == StreamError::BufferUnderread {
                        len: n,
                        remaining: old(self).rest().len() as usize,
                    }
                    &&& *final(self) == *old(self)
                },
            },
    {
        match self.take_bytes(n) {
            Ok(bytes) => Ok(le_uint(bytes)),
            Err(e) => Err(e),
        }
    }
}

/// Whether two byte slices hold the same bytes.
pub fn bytes_eq(a: &[u8], b: &[u8]) -> (r: bool)
    ensures
        r == (a@ == b@),
{
    if a.len() != b.len() {
        return false;
    }
    let mut i: usize = 0;
    while i < a.len()
        invariant
            i <= a@.len() == b@.len(),
            forall|j: int| 0 <= j < i ==> a@[j] == b@[j],
        decreases a@.len() - i,
    {
        if a[i] != b[i] {
            return false;
        }
        i = i + 1;
    }
    assert(a@ =~= b@);
    true
}

/// The error type returned when a [`BufStream`](BufStream) read fails.
#[derive(Debug, Clone, Copy, PartialEq, Eq, Structural)]
pub enum StreamError {
    /// The stream was exhausted.
    EndOfStream,
    /// The buffer was left unread.
    BufferUnderread { len: usize, remaining: usize },
    /// A position was outside of the stream.
    OutOfBounds { pos: usize, len: usize },
}

} // verus!
