//! Byte-level codec primitives: fixed-width integers in either byte order,
//! strings, and hexadecimal text, written to and read from byte buffers.

use vstd::prelude::*;
use vstd::string::StringSliceAdditionalSpecFns;
use vstd::utf8::{decode_utf8, valid_utf8};
use crate::text::push_char;

verus! {

/// The `size` low-order base-256 digits of `n`, least significant first.
pub open spec fn le_bytes(n: nat, size: nat) -> Seq<u8>
    decreases size,
{
    if size == 0 {
        Seq::empty()
    } else {
        seq![(n % 256) as u8] + le_bytes(n / 256, (size - 1) as nat)
    }
}

/// The `size` low-order base-256 digits of `n`, most significant first.
pub open spec fn be_bytes(n: nat, size: nat) -> Seq<u8> {
    le_bytes(n, size).reverse()
}

/// The bytes of an integer in the chosen order.
pub open spec fn int_bytes(n: nat, size: nat, le: bool) -> Seq<u8> {
    if le {
        le_bytes(n, size)
    } else {
        be_bytes(n, size)
    }
}

/// The number that bytes spell, most significant first.
pub open spec fn from_be(s: Seq<u8>) -> nat
    decreases s.len(),
{
    if s.len() == 0 {
        0
    } else {
        from_be(s.drop_last()) * 256 + s.last() as nat
    }
}

/// The number that bytes spell in the chosen order.
pub open spec fn from_bytes(s: Seq<u8>, le: bool) -> nat {
    if le {
        from_be(s.reverse())
    } else {
        from_be(s)
    }
}

pub open spec fn hex_digit(d: nat) -> char {
    if d < 10 {
        (('0' as u32) + d) as char
    } else {
        (('A' as u32) + d - 10) as char
    }
}

/// Two upper-case hexadecimal digits for each byte.
pub open spec fn hex_of(s: Seq<u8>) -> Seq<char>
    decreases s.len(),
{
    if s.len() == 0 {
        Seq::empty()
    } else {
        hex_of(s.drop_last()) + seq![hex_digit(s.last() as nat / 16), hex_digit(s.last() as nat % 16)]
    }
}

/// The bytes from the start up to, not including, the first zero byte.
pub open spec fn zero_terminated(s: Seq<u8>) -> Seq<u8>
    decreases s.len(),
{
    if s.len() == 0 || s[0] == 0 {
        Seq::empty()
    } else {
        seq![s[0]] + zero_terminated(s.drop_first())
    }
}

pub open spec fn pow256(n: nat) -> nat
    decreases n,
{
    if n == 0 {
        1
    } else {
        256 * pow256((n - 1) as nat)
    }
}

/// The little-endian bytes of `n`.
pub(crate) fn le_bytes_of(n: u64, size: usize) -> (r: Vec<u8>)
    requires
        size <= 8,
    ensures
        r@ == le_bytes(n as nat, size as nat),
{
    let mut out: Vec<u8> = Vec::new();
    let mut x = n;
    let mut i: usize = 0;
    assert(out@ + le_bytes(x as nat, size as nat) =~= le_bytes(n as nat, size as nat));
    while i < size
        invariant
            i <= size,
            out@ + le_bytes(x as nat, (size - i) as nat) == le_bytes(n as nat, size as nat),
        decreases size - i,
    {
        let ghost k = (size - i) as nat;
        assert(le_bytes(x as nat, k) == seq![(x as nat % 256) as u8] + le_bytes(
            x as nat / 256,
            (k - 1) as nat,
        ));
        let ghost prev = out@;
        out.push((x % 256) as u8);
        assert(out@ + le_bytes((x / 256) as nat, (k - 1) as nat) =~= prev + le_bytes(x as nat, k));
        x = x / 256;
        i += 1;
    }
    assert(out@ + le_bytes(x as nat, 0) =~= out@);
    out
}

/// The bytes of `v` in reverse order.
pub(crate) fn reversed(v: &Vec<u8>) -> (r: Vec<u8>)
    ensures
        r@ == v@.reverse(),
{
    let mut out: Vec<u8> = Vec::new();
    let mut j: usize = v.len();
    while j > 0
        invariant
            j <= v.len(),
            out@.len() == v.len() - j,
            forall|k: int| 0 <= k < out@.len() ==> out@[k] == v@[v.len() - 1 - k],
        decreases j,
    {
        j -= 1;
        out.push(v[j]);
    }
    assert(out@ =~= v@.reverse());
    out
}

/// The bytes of `n` in the chosen order.
pub(crate) fn int_bytes_of(n: u64, size: usize, le: bool) -> (r: Vec<u8>)
    requires
        size <= 8,
    ensures
        r@ == int_bytes(n as nat, size as nat, le),
{
    let b = le_bytes_of(n, size);
    if le {
        b
    } else {
        reversed(&b)
    }
}

/// Appends all of `src` to `dst`.
pub(crate) fn append_bytes(dst: &mut Vec<u8>, src: &[u8])
    ensures
        final(dst)@ == old(dst)@ + src@,
{
    let mut i: usize = 0;
    while i < src.len()
        invariant
            i <= src.len(),
            dst@ == old(dst)@ + src@.take(i as int),
        decreases src.len() - i,
    {
        dst.push(src[i]);
        i += 1;
        assert(dst@ =~= old(dst)@ + src@.take(i as int));
    }
    assert(src@.take(src.len() as int) =~= src@);
}

fn hex_char(d: u8) -> (r: char)
    requires
        d < 16,
    ensures
        r == hex_digit(d as nat),
{
    if d < 10 {
        (('0' as u8) + d) as char
    } else {
        (('A' as u8) + d - 10) as char
    }
}

/// Upper-case hexadecimal text of `b`, two digits per byte.
pub fn hex_string(b: &Vec<u8>) -> (r: String)
    ensures
        r@ == hex_of(b@),
{
    let mut s = String::new();
    let mut i: usize = 0;
    while i < b.len()
        invariant
            i <= b.len(),
            s@ == hex_of(b@.take(i as int)),
        decreases b.len() - i,
    {
        let ghost t = b@.take(i as int + 1);
        assert(t.drop_last() =~= b@.take(i as int));
        push_char(&mut s, hex_char(b[i] / 16));
        push_char(&mut s, hex_char(b[i] % 16));
        i += 1;
        assert(s@ =~= hex_of(t));
    }
    assert(b@.take(b.len() as int) =~= b@);
    s
}

/// Hexadecimal text of the `size` low-order bytes of `dec`, most
/// significant first.
pub fn dec_to_hex(dec: i64, size: usize) -> (r: String)
    requires
        size <= 8,
    ensures
        r@ == hex_of(be_bytes((dec as u64) as nat, size as nat)),
{
    let b = int_bytes_of(dec as u64, size, false);
    hex_string(&b)
}

/// Relies on `String::from_utf8`: valid UTF-8 decodes to its characters.
#[verifier::external_body]
fn utf8_to_string(v: Vec<u8>) -> (r: String)
    requires
        valid_utf8(v@),
    ensures
        r@ == decode_utf8(v@),
{
    String::from_utf8(v).unwrap()
}

/// Writes bytes to a buffer while it holds fewer than a set number of bytes.
pub struct ByteWriter {
    pub bytes: Vec<u8>,
    /// Writes are accepted while the buffer holds fewer bytes than this.
    pub max_size: usize,
}

impl Default for ByteWriter {
    /// A writer without a practical size limit.
    fn default() -> (r: Self)
        ensures
            r.written() == Seq::<u8>::empty(),
            r.max_size() == usize::MAX,
    {
        ByteWriter::new(usize::MAX)
    }
}

impl ByteWriter {
    /// The bytes written so far.
    pub open spec fn written(&self) -> Seq<u8> {
        self.bytes@
    }

    pub open spec fn max_size(&self) -> usize {
        self.max_size
    }

    pub open spec fn can_write_spec(&self) -> bool {
        self.written().len() < self.max_size()
    }

    /// An empty writer that accepts writes while it holds fewer than
    /// `max_size` bytes.
    pub fn new(max_size: usize) -> (r: Self)
        ensures
            r.written() == Seq::<u8>::empty(),
            r.max_size() == max_size,
    {
        ByteWriter { bytes: Vec::new(), max_size }
    }

    fn can_write(&self) -> (r: bool)
        ensures
            r == self.can_write_spec(),
    {
        self.bytes.len() < self.max_size
    }

    /// Writes one byte; true when it was written.
    pub fn write_byte(&mut self, byte: u8) -> (r: bool)
        ensures
            r == old(self).can_write_spec(),
            final(self).written() == if r {
                old(self).written().push(byte)
            } else {
                old(self).written()
            },
            final(self).max_size() == old(self).max_size(),
    {
        if self.can_write() {
            self.bytes.push(byte);
            return true;
        }
        false
    }

    /// Writes all of `bytes`; true when they were written.
    pub fn write_vec(&mut self, bytes: &Vec<u8>) -> (r: bool)
        ensures
            r == old(self).can_write_spec(),
            final(self).written() == if r {
                old(self).written() + bytes@
            } else {
                old(self).written()
            },
            final(self).max_size() == old(self).max_size(),
    {
        if self.can_write() {
            append_bytes(&mut self.bytes, bytes.as_slice());
            return true;
        }
        false
    }

    /// Writes all of `bytes`; true when they were written.
    pub fn write_bytes(&mut self, bytes: &[u8]) -> (r: bool)
        ensures
            r == old(self).can_write_spec(),
            final(self).written() == if r {
                old(self).written() + bytes@
            } else {
                old(self).written()
            },
            final(self).max_size() == old(self).max_size(),
    {
        if self.can_write() {
            append_bytes(&mut self.bytes, bytes);
            return true;
        }
        false
    }

    /// Writes the UTF-8 bytes of `string`; true when they were written.
    pub fn write_ascii_string(&mut self, string: &str) -> (r: bool)
        ensures
            r == old(self).can_write_spec(),
            final(self).written() == if r {
                old(self).written() + string.spec_bytes()
            } else {
                old(self).written()
            },
            final(self).max_size() == old(self).max_size(),
    {
        if self.can_write() {
            self.write_bytes(string.as_bytes());
            return true;
        }
        false
    }

    /// Writes the UTF-8 bytes of `string`, then a zero byte when
    /// `write_end` and there is still room; true when the string was written.
    pub fn write_string(&mut self, string: &str, write_end: bool) -> (r: bool)
        ensures
            r == old(self).can_write_spec(),
            final(self).written() == if !r {
                old(self).written()
            } else if write_end && old(self).written().len() + string.spec_bytes().len()
                < old(self).max_size() {
                old(self).written() + string.spec_bytes() + seq![0u8]
            } else {
                old(self).written() + string.spec_bytes()
            },
            final(self).max_size() == old(self).max_size(),
    {
        if self.can_write() {
            append_bytes(&mut self.bytes, string.as_bytes());
            if write_end {
                self.write_byte(0);
            }
            return true;
        }
        false
    }

    /// Writes the `size` low-order bytes of `value` (two's complement) in
    /// the chosen order, when there is room. Always answers false.
    pub fn write_int(&mut self, value: i64, size: usize, le: bool) -> (r: bool)
        requires
            size <= 8,
        ensures
            !r,
            final(self).written() == if old(self).can_write_spec() {
                old(self).written() + int_bytes((value as u64) as nat, size as nat, le)
            } else {
                old(self).written()
            },
            final(self).max_size() == old(self).max_size(),
    {
        if self.can_write() {
            let b = int_bytes_of(value as u64, size, le);
            self.write_vec(&b);
        }
        false
    }

    /// Writes one byte of `value` when there is room. Always answers false.
    pub fn write_int8(&mut self, value: i8, le: bool) -> (r: bool)
        ensures
            !r,
            final(self).written() == if old(self).can_write_spec() {
                old(self).written() + int_bytes((value as u8) as nat, 1, le)
            } else {
                old(self).written()
            },
            final(self).max_size() == old(self).max_size(),
    {
        if self.can_write() {
            let b = int_bytes_of((value as u8) as u64, 1, le);
            self.write_vec(&b);
        }
        false
    }

    /// Writes the two bytes of `value` when there is room. Always answers false.
    pub fn write_int16(&mut self, value: i16, le: bool) -> (r: bool)
        ensures
            !r,
            final(self).written() == if old(self).can_write_spec() {
                old(self).written() + int_bytes((value as u16) as nat, 2, le)
            } else {
                old(self).written()
            },
            final(self).max_size() == old(self).max_size(),
    {
        if self.can_write() {
            let b = int_bytes_of((value as u16) as u64, 2, le);
            self.write_vec(&b);
        }
        false
    }

    /// Writes the four bytes of `value` when there is room. Always answers false.
    pub fn write_int32(&mut self, value: i32, le: bool) -> (r: bool)
        ensures
            !r,
            final(self).written() == if old(self).can_write_spec() {
                old(self).written() + int_bytes((value as u32) as nat, 4, le)
            } else {
                old(self).written()
            },
            final(self).max_size() == old(self).max_size(),
    {
        if self.can_write() {
            let b = int_bytes_of((value as u32) as u64, 4, le);
            self.write_vec(&b);
        }
        false
    }

    /// Writes the eight bytes of `value` when there is room. Always answers false.
    pub fn write_int64(&mut self, value: i64, le: bool) -> (r: bool)
        ensures
            !r,
            final(self).written() == if old(self).can_write_spec() {
                old(self).written() + int_bytes((value as u64) as nat, 8, le)
            } else {
                old(self).written()
            },
            final(self).max_size() == old(self).max_size(),
    {
        if self.can_write() {
            let b = int_bytes_of(value as u64, 8, le);
            self.write_vec(&b);
        }
        false
    }
}

/// Reads bytes from a buffer front to back.
pub struct ByteReader<'a> {
    bytes: &'a [u8],
    offset: usize,
}

/// The number that at most eight bytes spell, in the chosen order.
fn decode_bytes(b: &Vec<u8>, le: bool) -> (r: u64)
    requires
        b@.len() <= 8,
    ensures
        r as nat == from_bytes(b@, le),
{
    let v = if le {
        reversed(b)
    } else {
        b.clone()
    };
    assert(v@.len() == b@.len());
    let mut acc: u64 = 0;
    let mut i: usize = 0;
    while i < v.len()
        invariant
            i <= v.len() <= 8,
            acc as nat == from_be(v@.take(i as int)),
            acc < pow256(i as nat),
        decreases v.len() - i,
    {
        let ghost t = v@.take(i as int + 1);
        assert(t.drop_last() =~= v@.take(i as int));
        proof {
            lemma_pow256_bound(i as nat);
            assert(pow256((i + 1) as nat) == 256 * pow256(i as nat));
            assert(acc * 256 + v@[i as int] < pow256((i + 1) as nat)) by (nonlinear_arith)
                requires
                    acc < pow256(i as nat),
                    v@[i as int] < 256,
                    pow256((i + 1) as nat) == 256 * pow256(i as nat),
            ;
        }
        acc = acc * 256 + v[i] as u64;
        i += 1;
    }
    assert(v@.take(v.len() as int) =~= v@);
    acc
}

proof fn lemma_pow256_bound(n: nat)
    requires
        n < 8,
    ensures
        256 * pow256(n) <= 0x1_0000_0000_0000_0000,
        pow256(n) >= 1,
    decreases n,
{
    reveal_with_fuel(pow256, 9);
}

impl<'a> ByteReader<'a> {
    pub closed spec fn data(&self) -> Seq<u8> {
        self.bytes@
    }

    pub closed spec fn pos(&self) -> nat {
        self.offset as nat
    }

    /// The bytes from the read position up to `size` of them.
    pub open spec fn ahead(&self, size: nat) -> Seq<u8> {
        let end = if self.pos() + size < self.data().len() {
            self.pos() + size
        } else {
            self.data().len() as nat
        };
        self.data().subrange(self.pos() as int, end as int)
    }

    /// A reader at the start of `bytes`.
    pub fn new(bytes: &'a [u8]) -> (r: Self)
        ensures
            r.data() == bytes@,
            r.pos() == 0,
    {
        ByteReader { bytes, offset: 0 }
    }

    /// Moves the read position `offset` bytes forward.
    pub fn offset(&mut self, offset: usize)
        requires
            old(self).pos() + offset <= usize::MAX,
        ensures
            final(self).data() == old(self).data(),
            final(self).pos() == old(self).pos() + offset,
    {
        self.offset = self.offset + offset;
    }

    /// The next byte, if any.
    pub fn next(&mut self) -> (r: Option<u8>)
        ensures
            final(self).data() == old(self).data(),
            old(self).pos() < old(self).data().len() ==> r == Some(old(self).data()[old(self).pos() as int])
                && final(self).pos() == old(self).pos() + 1,
            old(self).pos() >= old(self).data().len() ==> r is None && final(self).pos() == old(self).pos(),
    {
        if self.offset >= self.bytes.len() {
            return None;
        }
        let byte = self.bytes[self.offset];
        self.offset = self.offset + 1;
        Some(byte)
    }

    /// The next `size` bytes, fewer at the end of the data.
    fn read_bytes(&mut self, size: usize) -> (r: Vec<u8>)
        requires
            old(self).pos() <= old(self).data().len(),
        ensures
            r@ == old(self).ahead(size as nat),
            final(self).data() == old(self).data(),
            final(self).pos() == old(self).pos() + r@.len(),
    {
        let start = self.offset;
        let max_size = self.bytes.len() - start;
        let end = if max_size < size {
            self.bytes.len()
        } else {
            start + size
        };
        let mut out: Vec<u8> = Vec::new();
        let mut i: usize = start;
        while i < end
            invariant
                start <= i <= end <= self.bytes@.len(),
                start == self.offset,
                out@ == self.bytes@.subrange(start as int, i as int),
            decreases end - i,
        {
            out.push(self.bytes[i]);
            i += 1;
            assert(out@ =~= self.bytes@.subrange(start as int, i as int));
        }
        self.offset = end;
        out
    }

    /// The next `size` bytes (fewer at the end) as an unsigned number in the
    /// chosen order, its bits taken as an `i64`.
    pub fn read_int(&mut self, size: usize, le: bool) -> (r: i64)
        requires
            old(self).pos() <= old(self).data().len(),
            size <= 8,
        ensures
            r == (from_bytes(old(self).ahead(size as nat), le) as u64) as i64,
            final(self).data() == old(self).data(),
            final(self).pos() == old(self).pos() + old(self).ahead(size as nat).len(),
    {
        let b = self.read_bytes(size);
        decode_bytes(&b, le) as i64
    }

    pub fn read_int8(&mut self, le: bool) -> (r: i8)
        requires
            old(self).pos() + 1 <= old(self).data().len(),
        ensures
            r == (from_bytes(old(self).ahead(1), le) as u8) as i8,
            final(self).data() == old(self).data(),
            final(self).pos() == old(self).pos() + 1,
    {
        let b = self.read_bytes(1);
        (decode_bytes(&b, le) as u8) as i8
    }

    pub fn read_int16(&mut self, le: bool) -> (r: i16)
        requires
            old(self).pos() + 2 <= old(self).data().len(),
        ensures
            r == (from_bytes(old(self).ahead(2), le) as u16) as i16,
            final(self).data() == old(self).data(),
            final(self).pos() == old(self).pos() + 2,
    {
        let b = self.read_bytes(2);
        (decode_bytes(&b, le) as u16) as i16
    }

    pub fn read_int32(&mut self, le: bool) -> (r: i32)
        requires
            old(self).pos() + 4 <= old(self).data().len(),
        ensures
            r == (from_bytes(old(self).ahead(4), le) as u32) as i32,
            final(self).data() == old(self).data(),
            final(self).pos() == old(self).pos() + 4,
    {
        let b = self.read_bytes(4);
        (decode_bytes(&b, le) as u32) as i32
    }

    pub fn read_int64(&mut self, le: bool) -> (r: i64)
        requires
            old(self).pos() + 8 <= old(self).data().len(),
        ensures
            r == (from_bytes(old(self).ahead(8), le) as u64) as i64,
            final(self).data() == old(self).data(),
            final(self).pos() == old(self).pos() + 8,
    {
        let b = self.read_bytes(8);
        decode_bytes(&b, le) as i64
    }

    /// The next `size` bytes (fewer at the end) as hexadecimal text, most
    /// significant byte first in the chosen order.
    pub fn read_hex_int(&mut self, size: usize, le: bool) -> (r: String)
        requires
            old(self).pos() <= old(self).data().len(),
        ensures
            r@ == hex_of(
                if le {
                    old(self).ahead(size as nat).reverse()
                } else {
                    old(self).ahead(size as nat)
                },
            ),
            final(self).data() == old(self).data(),
            final(self).pos() == old(self).pos() + old(self).ahead(size as nat).len(),
    {
        let b = self.read_bytes(size);
        if le {
            hex_string(&reversed(&b))
        } else {
            hex_string(&b)
        }
    }

    /// The text up to the next zero byte or the end, decoded as UTF-8; the
    /// zero byte is consumed too.
    pub fn read_utf8(&mut self) -> (r: String)
        requires
            old(self).pos() <= old(self).data().len(),
            valid_utf8(zero_terminated(old(self).data().skip(old(self).pos() as int))),
        ensures
            r@ == decode_utf8(zero_terminated(old(self).data().skip(old(self).pos() as int))),
            final(self).data() == old(self).data(),
            ({
                let n = zero_terminated(old(self).data().skip(old(self).pos() as int)).len();
                final(self).pos() == if old(self).pos() + n < old(self).data().len() {
                    old(self).pos() + n + 1
                } else {
                    old(self).pos() + n
                }
            }),
    {
        let ghost rest = self.bytes@.skip(self.offset as int);
        let mut out: Vec<u8> = Vec::new();
        assert(out@ + zero_terminated(self.bytes@.skip(self.offset as int)) =~= zero_terminated(rest));
        loop
            invariant_except_break
                out@ + zero_terminated(self.data().skip(self.pos() as int)) == zero_terminated(rest),
                self.pos() == old(self).pos() + out@.len(),
            invariant
                self.data() == old(self).data(),
                self.pos() <= self.data().len(),
                rest == old(self).data().skip(old(self).pos() as int),
            ensures
                out@ == zero_terminated(rest),
                self.pos() == if old(self).pos() + out@.len() < self.data().len() {
                    old(self).pos() + out@.len() + 1
                } else {
                    old(self).pos() + out@.len()
                },
            decreases self.data().len() - self.pos(),
        {
            let ghost cur = self.data().skip(self.pos() as int);
            match self.next() {
                Some(byte) => {
                    if byte == 0 {
                        assert(zero_terminated(cur) =~= Seq::<u8>::empty());
                        assert(out@ =~= zero_terminated(rest));
                        break;
                    }
                    assert(cur.drop_first() =~= self.data().skip(self.pos() as int));
                    let ghost prev = out@;
                    out.push(byte);
                    assert(out@ + zero_terminated(self.data().skip(self.pos() as int)) =~= prev
                        + zero_terminated(cur));
                },
                None => {
                    assert(cur.len() == 0);
                    assert(out@ =~= zero_terminated(rest));
                    break;
                },
            }
        }
        utf8_to_string(out)
    }
}

} // verus!
