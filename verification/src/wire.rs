//! The building blocks of a frame: fixed-width integers in little-endian
//! order, byte strings and texts behind a 32-bit length, and the cursor that
//! reads them back.

use vstd::bytes::*;
use vstd::prelude::*;
use vstd::slice::*;
use vstd::string::*;
use vstd::utf8::*;

verus! {

/// The largest length a length field can hold.
pub const MAX_LEN: usize = 0xffff_ffff;

/// One byte.
pub open spec fn put_u8(v: u8) -> Seq<u8> {
    seq![v]
}

/// A flag: the byte 1 for true, the byte 0 for false.
pub open spec fn put_bool(v: bool) -> Seq<u8> {
    seq![if v { 1u8 } else { 0u8 }]
}

/// A 32-bit integer, least significant byte first.
pub open spec fn put_u32(v: u32) -> Seq<u8> {
    spec_u32_to_le_bytes(v)
}

/// A 64-bit integer, least significant byte first.
pub open spec fn put_u64(v: u64) -> Seq<u8> {
    spec_u64_to_le_bytes(v)
}

/// A byte string: its length, then its bytes.
pub open spec fn put_bytes(b: Seq<u8>) -> Seq<u8> {
    put_u32(b.len() as u32) + b
}

/// A text: the byte string of its UTF-8 form.
pub open spec fn put_text(t: Seq<char>) -> Seq<u8> {
    put_bytes(encode_utf8(t))
}

/// Reads one byte.
pub open spec fn take_u8(s: Seq<u8>) -> Option<(u8, Seq<u8>)> {
    if s.len() >= 1 {
        Some((s[0], s.skip(1)))
    } else {
        None
    }
}

/// A flag is the byte 0 or the byte 1; any other byte is refused.
pub open spec fn take_bool(s: Seq<u8>) -> Option<(bool, Seq<u8>)> {
    if s.len() >= 1 && s[0] <= 1 {
        Some((s[0] == 1, s.skip(1)))
    } else {
        None
    }
}

/// Reads a 32-bit integer.
pub open spec fn take_u32(s: Seq<u8>) -> Option<(u32, Seq<u8>)> {
    if s.len() >= 4 {
        Some((spec_u32_from_le_bytes(s.take(4)), s.skip(4)))
    } else {
        None
    }
}

/// Reads a 64-bit integer.
pub open spec fn take_u64(s: Seq<u8>) -> Option<(u64, Seq<u8>)> {
    if s.len() >= 8 {
        Some((spec_u64_from_le_bytes(s.take(8)), s.skip(8)))
    } else {
        None
    }
}

/// Reads a byte string: its length, then as many bytes.
pub open spec fn take_bytes(s: Seq<u8>) -> Option<(Seq<u8>, Seq<u8>)> {
    match take_u32(s) {
        Some((n, rest)) => if rest.len() >= n {
            Some((rest.take(n as int), rest.skip(n as int)))
        } else {
            None
        },
        None => None,
    }
}

/// Reads a text. Bytes that are not UTF-8 are refused.
pub open spec fn take_text(s: Seq<u8>) -> Option<(Seq<char>, Seq<u8>)> {
    match take_bytes(s) {
        Some((b, rest)) => if valid_utf8(b) {
            Some((decode_utf8(b), rest))
        } else {
            None
        },
        None => None,
    }
}

/// How many bytes each value takes.
pub proof fn lemma_put_lengths()
    ensures
        forall|v: u32| #[trigger] put_u32(v).len() == 4,
        forall|v: u64| #[trigger] put_u64(v).len() == 8,
        forall|b: Seq<u8>| #[trigger] put_bytes(b).len() == 4 + b.len(),
        forall|t: Seq<char>| #[trigger] put_text(t).len() == 4 + encode_utf8(t).len(),
{
    lemma_auto_spec_u32_to_from_le_bytes();
    lemma_auto_spec_u64_to_from_le_bytes();
}

/// Reading a byte gives it back and leaves what follows it.
pub proof fn lemma_take_put_u8(v: u8, rest: Seq<u8>)
    ensures
        take_u8(put_u8(v) + rest) == Some((v, rest)),
{
    assert((put_u8(v) + rest).skip(1) =~= rest);
}

/// Reading a flag gives it back and leaves what follows it.
pub proof fn lemma_take_put_bool(v: bool, rest: Seq<u8>)
    ensures
        take_bool(put_bool(v) + rest) == Some((v, rest)),
{
    assert((put_bool(v) + rest).skip(1) =~= rest);
}

/// Reading a 32-bit integer gives it back and leaves what follows it.
pub proof fn lemma_take_put_u32(v: u32, rest: Seq<u8>)
    ensures
        take_u32(put_u32(v) + rest) == Some((v, rest)),
{
    lemma_auto_spec_u32_to_from_le_bytes();
    let s = put_u32(v) + rest;
    assert(s.take(4) =~= put_u32(v));
    assert(s.skip(4) =~= rest);
}

/// Reading a 64-bit integer gives it back and leaves what follows it.
pub proof fn lemma_take_put_u64(v: u64, rest: Seq<u8>)
    ensures
        take_u64(put_u64(v) + rest) == Some((v, rest)),
{
    lemma_auto_spec_u64_to_from_le_bytes();
    let s = put_u64(v) + rest;
    assert(s.take(8) =~= put_u64(v));
    assert(s.skip(8) =~= rest);
}

/// Reading a byte string gives it back and leaves what follows it.
pub proof fn lemma_take_put_bytes(b: Seq<u8>, rest: Seq<u8>)
    requires
        b.len() <= u32::MAX,
    ensures
        take_bytes(put_bytes(b) + rest) == Some((b, rest)),
{
    let n = b.len() as u32;
    assert(put_bytes(b) + rest =~= put_u32(n) + (b + rest));
    lemma_take_put_u32(n, b + rest);
    assert((b + rest).take(n as int) =~= b);
    assert((b + rest).skip(n as int) =~= rest);
}

/// Reading a text gives it back and leaves what follows it.
pub proof fn lemma_take_put_text(t: Seq<char>, rest: Seq<u8>)
    requires
        encode_utf8(t).len() <= u32::MAX,
    ensures
        take_text(put_text(t) + rest) == Some((t, rest)),
{
    lemma_take_put_bytes(encode_utf8(t), rest);
    encode_utf8_valid_utf8(t);
    encode_utf8_decode_utf8(t);
}

/// Appends one byte.
pub fn write_u8(out: &mut Vec<u8>, v: u8)
    ensures
        final(out)@ == old(out)@ + put_u8(v),
{
    out.push(v);
    assert(out@ =~= old(out)@ + put_u8(v));
}

/// Appends a flag.
pub fn write_bool(out: &mut Vec<u8>, v: bool)
    ensures
        final(out)@ == old(out)@ + put_bool(v),
{
    out.push(if v { 1u8 } else { 0u8 });
    assert(out@ =~= old(out)@ + put_bool(v));
}

/// Appends a 32-bit integer.
pub fn write_u32(out: &mut Vec<u8>, v: u32)
    ensures
        final(out)@ == old(out)@ + put_u32(v),
{
    let bytes = u32_to_le_bytes(v);
    out.extend_from_slice(bytes.as_slice());
}

/// Appends a 64-bit integer.
pub fn write_u64(out: &mut Vec<u8>, v: u64)
    ensures
        final(out)@ == old(out)@ + put_u64(v),
{
    let bytes = u64_to_le_bytes(v);
    out.extend_from_slice(bytes.as_slice());
}

/// Appends a byte string, unless it is too long for its length field; then
/// nothing is appended.
pub fn write_bytes(out: &mut Vec<u8>, b: &[u8]) -> (ok: bool)
    ensures
        ok == (b@.len() <= u32::MAX),
        ok ==> final(out)@ == old(out)@ + put_bytes(b@),
        !ok ==> final(out)@ == old(out)@,
{
    if b.len() > MAX_LEN {
        return false;
    }
    write_u32(out, b.len() as u32);
    out.extend_from_slice(b);
    assert(out@ =~= old(out)@ + put_bytes(b@));
    true
}

/// Appends a text, unless its UTF-8 form is too long for its length field;
/// then nothing is appended.
pub fn write_text(out: &mut Vec<u8>, t: &str) -> (ok: bool)
    ensures
        ok == (encode_utf8(t@).len() <= u32::MAX),
        ok ==> final(out)@ == old(out)@ + put_text(t@),
        !ok ==> final(out)@ == old(out)@,
{
    write_bytes(out, t.as_bytes())
}

/// Builds a text from its UTF-8 form.
///
/// Calls `String::from_utf8`. The contract states what its documentation
/// says: the conversion succeeds exactly on valid UTF-8, and the text then
/// has the bytes that were given.
#[verifier::external_body]
pub(crate) fn text_from_utf8(bytes: Vec<u8>) -> (r: Option<String>)
    ensures
        r is Some <==> valid_utf8(bytes@),
        r is Some ==> encode_utf8(r->0@) == bytes@,
{
    match String::from_utf8(bytes) {
        Ok(text) => Some(text),
        Err(_) => None,
    }
}

/// A position in a buffer from which values are read front to back. A
/// value that cannot be read leaves the position where it was.
pub struct Reader<'a> {
    buf: &'a [u8],
    pos: usize,
}

impl<'a> Reader<'a> {
    /// The cursor never passes the end of its buffer.
    #[verifier::type_invariant]
    spec fn inv(self) -> bool {
        self.pos <= self.buf@.len()
    }

    /// The bytes not read yet.
    pub closed spec fn remaining(self) -> Seq<u8> {
        self.buf@.skip(self.pos as int)
    }

    /// A cursor at the front of `buf`.
    pub fn new(buf: &'a [u8]) -> (r: Reader<'a>)
        ensures
            r.remaining() == buf@,
    {
        assert(buf@.skip(0) =~= buf@);
        Reader { buf, pos: 0 }
    }

    /// How many bytes are left.
    pub fn left(&self) -> (n: usize)
        ensures
            n == self.remaining().len(),
    {
        proof {
            use_type_invariant(self);
        }
        self.buf.len() - self.pos
    }

    /// Reads one byte.
    pub fn read_u8(&mut self) -> (r: Option<u8>)
        ensures
            match take_u8(old(self).remaining()) {
                Some((v, rest)) => r == Some(v) && final(self).remaining() == rest,
                None => r is None && final(self).remaining() == old(self).remaining(),
            },
    {
        proof {
            use_type_invariant(&*self);
        }
        if self.buf.len() - self.pos < 1 {
            return None;
        }
        let v = self.buf[self.pos];
        self.pos = self.pos + 1;
        assert(self.buf@.skip(self.pos as int) =~= old(self).remaining().skip(1));
        Some(v)
    }

    /// Reads a flag.
    pub fn read_bool(&mut self) -> (r: Option<bool>)
        ensures
            match take_bool(old(self).remaining()) {
                Some((v, rest)) => r == Some(v) && final(self).remaining() == rest,
                None => r is None && final(self).remaining() == old(self).remaining(),
            },
    {
        proof {
            use_type_invariant(&*self);
        }
        if self.buf.len() - self.pos < 1 {
            return None;
        }
        let v = self.buf[self.pos];
        if v > 1 {
            return None;
        }
        self.pos = self.pos + 1;
        assert(self.buf@.skip(self.pos as int) =~= old(self).remaining().skip(1));
        Some(v == 1)
    }

    /// Reads a 32-bit integer.
    pub fn read_u32(&mut self) -> (r: Option<u32>)
        ensures
            match take_u32(old(self).remaining()) {
                Some((v, rest)) => r == Some(v) && final(self).remaining() == rest,
                None => r is None && final(self).remaining() == old(self).remaining(),
            },
    {
        proof {
            use_type_invariant(&*self);
        }
        if self.buf.len() - self.pos < 4 {
            return None;
        }
        let v = u32_from_le_bytes(slice_subrange(self.buf, self.pos, self.pos + 4));
        assert(self.buf@.subrange(self.pos as int, self.pos + 4) =~= old(self).remaining().take(4));
        self.pos = self.pos + 4;
        assert(self.buf@.skip(self.pos as int) =~= old(self).remaining().skip(4));
        Some(v)
    }

    /// Reads a 64-bit integer.
    pub fn read_u64(&mut self) -> (r: Option<u64>)
        ensures
            match take_u64(old(self).remaining()) {
                Some((v, rest)) => r == Some(v) && final(self).remaining() == rest,
                None => r is None && final(self).remaining() == old(self).remaining(),
            },
    {
        proof {
            use_type_invariant(&*self);
        }
        if self.buf.len() - self.pos < 8 {
            return None;
        }
        let v = u64_from_le_bytes(slice_subrange(self.buf, self.pos, self.pos + 8));
        assert(self.buf@.subrange(self.pos as int, self.pos + 8) =~= old(self).remaining().take(8));
        self.pos = self.pos + 8;
        assert(self.buf@.skip(self.pos as int) =~= old(self).remaining().skip(8));
        Some(v)
    }

    /// The byte string at the cursor and the position behind it, without
    /// moving the cursor.
    fn peek_bytes(&self) -> (r: Option<(Vec<u8>, usize)>)
        ensures
            match (take_bytes(self.remaining()), r) {
                (Some((v, rest)), Some((bytes, end))) => bytes@ == v && end <= self.buf@.len()
                    && self.buf@.skip(end as int) == rest,
                (None, None) => true,
                _ => false,
            },
    {
        proof {
            use_type_invariant(self);
        }
        let left = self.buf.len() - self.pos;
        if left < 4 {
            return None;
        }
        let n = u32_from_le_bytes(slice_subrange(self.buf, self.pos, self.pos + 4)) as usize;
        assert(self.buf@.subrange(self.pos as int, self.pos + 4) =~= self.remaining().take(4));
        if left - 4 < n {
            return None;
        }
        let start = self.pos + 4;
        let ghost tail = self.remaining().skip(4);
        let bytes = slice_to_vec(slice_subrange(self.buf, start, start + n));
        assert(self.buf@.subrange(start as int, start + n) =~= tail.take(n as int));
        assert(self.buf@.skip(start + n) =~= tail.skip(n as int));
        Some((bytes, start + n))
    }

    /// Reads a byte string.
    pub fn read_bytes(&mut self) -> (r: Option<Vec<u8>>)
        ensures
            match take_bytes(old(self).remaining()) {
                Some((v, rest)) => r is Some && r->0@ == v && final(self).remaining() == rest,
                None => r is None && final(self).remaining() == old(self).remaining(),
            },
    {
        let (bytes, end) = self.peek_bytes()?;
        self.pos = end;
        Some(bytes)
    }

    /// Reads a text.
    pub fn read_text(&mut self) -> (r: Option<String>)
        ensures
            match take_text(old(self).remaining()) {
                Some((v, rest)) => r is Some && r->0@ == v && final(self).remaining() == rest,
                None => r is None && final(self).remaining() == old(self).remaining(),
            },
    {
        let (bytes, end) = self.peek_bytes()?;
        let text = text_from_utf8(bytes)?;
        proof {
            encode_utf8_decode_utf8(text@);
        }
        self.pos = end;
        Some(text)
    }
}

} // verus!
