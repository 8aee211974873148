//! A fixed-size packet buffer with a cursor, and the encoding of domain names.

use vstd::prelude::*;
use vstd::string::*;
use vstd::utf8::*;

use crate::net::{Ipv4Addr, Ipv6Addr};

verus! {

/// Capacity of a packet buffer in bytes.
pub const PACKET_CAPACITY: usize = 512;

/// Payload size in bytes that queries announce to the upstream server.
pub const MAX_PACKET_SIZE: usize = 1232;

/// Number of compression pointers that one name may follow.
pub const MAX_NAME_JUMPS: u8 = 10;

/// Labels of this many bytes or more have no encoding.
pub const LABEL_LIMIT: usize = 64;

/// Why reading from or writing to a packet failed.
#[derive(Debug, Clone, Copy, PartialEq, Eq, Structural)]
pub enum PacketError {
    /// The cursor ran over the end of the buffer.
    EndOfBuffer,
    /// A name followed more than [`MAX_NAME_JUMPS`] compression pointers.
    TooManyJumps,
    /// A character string ran over the end of its record, or is too long to be written.
    BadText,
    /// A length larger than the buffer was set.
    LengthExceedsBuffer,
}

impl PacketError {
    /// The message shown to users.
    pub fn message(&self) -> (text: String)
        ensures
            text@ == match self {
                PacketError::EndOfBuffer => "End of buffer"@,
                PacketError::TooManyJumps => "Limit of 10 jumps exceeded"@,
                PacketError::BadText => "Malformed character string"@,
                PacketError::LengthExceedsBuffer => "Length exceeds buffer"@,
            },
    {
        match self {
            PacketError::EndOfBuffer => "End of buffer".to_string(),
            PacketError::TooManyJumps => "Limit of 10 jumps exceeded".to_string(),
            PacketError::BadText => "Malformed character string".to_string(),
            PacketError::LengthExceedsBuffer => "Length exceeds buffer".to_string(),
        }
    }
}

/// A packet and the position of the next read or write.
pub struct BytePacketBuf {
    pub buf: [u8; 512],
    pub pos: usize,
    /// Number of leading bytes that make up the packet.
    pub len: usize,
}

/// Where a cursor at `pos` stands after an attempt to pass over `n` bytes: it
/// stops at the end of the buffer.
pub open spec fn advance(pos: int, n: int) -> int {
    if pos + n <= PACKET_CAPACITY {
        pos + n
    } else if pos < PACKET_CAPACITY {
        PACKET_CAPACITY as int
    } else {
        pos
    }
}

/// The buffer contents `b` after `bytes` were written from `pos` on, as far as they fit.
pub open spec fn overwrite(b: Seq<u8>, pos: int, bytes: Seq<u8>) -> Seq<u8> {
    Seq::new(
        b.len(),
        |i: int|
            if pos <= i < pos + bytes.len() {
                bytes[i - pos]
            } else {
                b[i]
            },
    )
}

/// Big-endian value of two bytes.
pub open spec fn be16(hi: u8, lo: u8) -> u16 {
    (hi * 256 + lo) as u16
}

/// Big-endian value of four bytes.
pub open spec fn be32(b0: u8, b1: u8, b2: u8, b3: u8) -> u32 {
    (b0 * 16777216 + b1 * 65536 + b2 * 256 + b3) as u32
}

/// The two bytes of `v`, most significant first.
pub open spec fn be16_bytes(v: u16) -> Seq<u8> {
    seq![(v / 256) as u8, (v % 256) as u8]
}

/// The four bytes of `v`, most significant first.
pub open spec fn be32_bytes(v: u32) -> Seq<u8> {
    seq![
        (v / 16777216) as u8,
        (v / 65536 % 256) as u8,
        (v / 256 % 256) as u8,
        (v % 256) as u8,
    ]
}

/// The big-endian number in the two bytes of `b` at `pos`.
pub open spec fn u16_at(b: Seq<u8>, pos: int) -> Result<u16, PacketError> {
    if pos + 2 <= PACKET_CAPACITY {
        Ok(be16(b[pos], b[pos + 1]))
    } else {
        Err(PacketError::EndOfBuffer)
    }
}

/// The big-endian number in the four bytes of `b` at `pos`.
pub open spec fn u32_at(b: Seq<u8>, pos: int) -> Result<u32, PacketError> {
    if pos + 4 <= PACKET_CAPACITY {
        Ok(be32(b[pos], b[pos + 1], b[pos + 2], b[pos + 3]))
    } else {
        Err(PacketError::EndOfBuffer)
    }
}

/// The IPv6 address in the sixteen bytes of `b` at `pos`.
pub open spec fn ipv6_at(b: Seq<u8>, pos: int) -> Result<Ipv6Addr, PacketError> {
    if pos + 16 <= PACKET_CAPACITY {
        Ok(
            Ipv6Addr {
                w0: u32_at(b, pos)->Ok_0,
                w1: u32_at(b, pos + 4)->Ok_0,
                w2: u32_at(b, pos + 8)->Ok_0,
                w3: u32_at(b, pos + 12)->Ok_0,
            },
        )
    } else {
        Err(PacketError::EndOfBuffer)
    }
}

/// `String::from_utf8_lossy`: the text of `bytes` with every malformed part replaced.
pub uninterp spec fn utf8_lossy(bytes: Seq<u8>) -> Seq<char>;

/// `str::to_lowercase`: the Unicode lowercase mapping of `text`.
pub uninterp spec fn lowercase(text: Seq<char>) -> Seq<char>;

/// Calls `String::from_utf8_lossy`. Its result depends on the bytes alone; bytes that
/// are valid UTF-8 come out as the text that they encode.
#[verifier::external_body]
pub(crate) fn decode_lossy(bytes: &[u8]) -> (text: String)
    ensures
        text@ == utf8_lossy(bytes@),
        valid_utf8(bytes@) ==> text@ == decode_utf8(bytes@),
{
    String::from_utf8_lossy(bytes).into_owned()
}

/// Calls `str::to_lowercase`. Its result depends on the text alone; in ASCII text the
/// letters `A` to `Z` become `a` to `z` and nothing else changes.
#[verifier::external_body]
fn to_lowercase(text: &str) -> (lower: String)
    ensures
        lower@ == lowercase(text@),
        is_ascii_chars(text@) ==> lower@ == ascii_lowercase(text@),
{
    text.to_lowercase()
}

/// The lowercase form of one ASCII character.
pub open spec fn ascii_lowercase_char(c: char) -> char {
    if 'A' <= c && c <= 'Z' {
        ((c as u32 + 32) as u8) as char
    } else {
        c
    }
}

/// The lowercase form of ASCII text.
pub open spec fn ascii_lowercase(text: Seq<char>) -> Seq<char> {
    text.map_values(|c: char| ascii_lowercase_char(c))
}

/// The text of `bytes`: what they encode where they are valid UTF-8, and the lossy reading
/// of them elsewhere.
pub open spec fn byte_text(bytes: Seq<u8>) -> Seq<char> {
    if valid_utf8(bytes) {
        decode_utf8(bytes)
    } else {
        utf8_lossy(bytes)
    }
}

/// The lowercase form of `text`.
pub open spec fn lower_text(text: Seq<char>) -> Seq<char> {
    if is_ascii_chars(text) {
        ascii_lowercase(text)
    } else {
        lowercase(text)
    }
}

/// The text that a label of a name on the wire stands for.
pub open spec fn label_text(bytes: Seq<u8>) -> Seq<char> {
    lower_text(byte_text(bytes))
}

/// The text of the name that starts at `pos` in the packet `b`, and the error that ends
/// the reading, if one does. `jumps` pointers were followed before, and `dotted` says
/// whether a label came before.
pub open spec fn name_at(b: Seq<u8>, pos: int, jumps: int, dotted: bool) -> (
    Seq<char>,
    Option<PacketError>,
)
    decreases MAX_NAME_JUMPS + 1 - jumps, PACKET_CAPACITY - pos,
{
    if jumps > MAX_NAME_JUMPS || jumps < 0 || pos < 0 {
        (Seq::empty(), Some(PacketError::TooManyJumps))
    } else if pos >= PACKET_CAPACITY {
        (Seq::empty(), Some(PacketError::EndOfBuffer))
    } else if b[pos] >= 0xC0 {
        if pos + 1 >= PACKET_CAPACITY {
            (Seq::empty(), Some(PacketError::EndOfBuffer))
        } else {
            name_at(b, (b[pos] - 0xC0) * 256 + b[pos + 1], jumps + 1, dotted)
        }
    } else if b[pos] == 0 {
        (Seq::empty(), None)
    } else {
        let dot = if dotted {
            seq!['.']
        } else {
            Seq::empty()
        };
        let next = pos + 1 + b[pos];
        if next >= PACKET_CAPACITY {
            (dot, Some(PacketError::EndOfBuffer))
        } else {
            let rest = name_at(b, next, jumps, true);
            (dot + label_text(b.subrange(pos + 1, next)) + rest.0, rest.1)
        }
    }
}

/// Where reading goes on after the name that starts at `pos`: behind its first pointer or
/// its terminator. `None` if the buffer ends before either.
pub open spec fn name_end(b: Seq<u8>, pos: int) -> Option<int>
    decreases PACKET_CAPACITY - pos,
{
    if pos < 0 || pos >= PACKET_CAPACITY {
        None
    } else if b[pos] >= 0xC0 {
        Some(pos + 2)
    } else if b[pos] == 0 {
        Some(pos + 1)
    } else if pos + 1 + b[pos] >= PACKET_CAPACITY {
        None
    } else {
        name_end(b, pos + 1 + b[pos])
    }
}

/// The cursor after reading a name from `pos`.
pub open spec fn after_name(b: Seq<u8>, pos: int) -> int {
    match name_end(b, pos) {
        Some(end) => end,
        None => pos,
    }
}

/// Index of the first dot in `b`, or the length of `b` if there is none.
pub open spec fn first_dot(b: Seq<u8>) -> int
    decreases b.len(),
{
    if b.len() == 0 || b[0] == 46u8 {
        0
    } else {
        1 + first_dot(b.skip(1))
    }
}

/// The parts of `b` between its dots.
pub open spec fn labels(b: Seq<u8>) -> Seq<Seq<u8>>
    decreases b.len(),
    via labels_shrink
{
    let dot = first_dot(b);
    if dot >= b.len() {
        seq![b]
    } else {
        seq![b.take(dot)] + labels(b.skip(dot + 1))
    }
}

#[via_fn]
proof fn labels_shrink(b: Seq<u8>) {
    lemma_first_dot(b);
}

/// `first_dot` is the first place with a dot, if there is one.
pub proof fn lemma_first_dot(b: Seq<u8>)
    ensures
        0 <= first_dot(b) <= b.len(),
        first_dot(b) < b.len() ==> b[first_dot(b)] == 46u8,
        forall|i: int| 0 <= i < first_dot(b) ==> b[i] != 46u8,
    decreases b.len(),
{
    if b.len() == 0 || b[0] == 46u8 {
    } else {
        lemma_first_dot(b.skip(1));
        assert forall|i: int| 0 <= i < first_dot(b) implies b[i] != 46u8 by {
            if i > 0 {
                assert(b[i] == b.skip(1)[i - 1]);
            }
        }
    }
}

/// A label as it stands in a packet: its length, then its bytes.
pub open spec fn label_wire(label: Seq<u8>) -> Seq<u8> {
    seq![label.len() as u8] + label
}

/// The labels one after the other; those that have no encoding are left out.
pub open spec fn labels_wire(ls: Seq<Seq<u8>>) -> Seq<u8>
    decreases ls.len(),
{
    if ls.len() == 0 {
        Seq::empty()
    } else {
        let init = labels_wire(ls.drop_last());
        if ls.last().len() < LABEL_LIMIT {
            init + label_wire(ls.last())
        } else {
            init
        }
    }
}

/// Whether the encoding of `ls` ends with the empty label.
pub open spec fn ends_with_root(ls: Seq<Seq<u8>>) -> bool
    decreases ls.len(),
{
    if ls.len() == 0 {
        false
    } else if ls.last().len() < LABEL_LIMIT {
        ls.last().len() == 0
    } else {
        ends_with_root(ls.drop_last())
    }
}

/// A name as it stands in a packet: its labels, closed by the empty label.
pub open spec fn name_wire(b: Seq<u8>) -> Seq<u8> {
    let ls = labels(b);
    if ends_with_root(ls) {
        labels_wire(ls)
    } else {
        labels_wire(ls).push(0u8)
    }
}

impl BytePacketBuf {
    /// The length that marks the end of the packet lies within the buffer.
    pub open spec fn wf(&self) -> bool {
        self.len <= PACKET_CAPACITY
    }

    /// Only the contents and the cursor differ from `other`: the contents are `bytes`
    /// and the cursor stands at `at`.
    pub open spec fn is_at(&self, other: &BytePacketBuf, bytes: Seq<u8>, at: int) -> bool {
        &&& self.buf@ == bytes
        &&& self.pos == at
        &&& self.len == other.len
    }

    /// What an attempt to write `bytes` leaves: they stand from the old cursor on, as far as
    /// they fit, and the attempt succeeds if they all do.
    pub open spec fn wrote(
        &self,
        before: &BytePacketBuf,
        bytes: Seq<u8>,
        r: Result<(), PacketError>,
    ) -> bool {
        &&& r == (if bytes.len() == 0 || before.pos + bytes.len() <= PACKET_CAPACITY {
            Ok(())
        } else {
            Err(PacketError::EndOfBuffer)
        })
        &&& self.is_at(
            before,
            overwrite(before.buf@, before.pos as int, bytes),
            if bytes.len() == 0 { before.pos as int } else { advance(before.pos as int, bytes.len() as int) },
        )
    }

    pub fn new() -> (r: BytePacketBuf)
        ensures
            r.wf(),
            r.buf@ == Seq::new(512, |i: int| 0u8),
            r.pos == 0,
            r.len == PACKET_CAPACITY,
    {
        BytePacketBuf { buf: [0;512], pos: 0, len: PACKET_CAPACITY }
    }

    pub fn as_mut_slice(&mut self) -> (r: &mut [u8])
        ensures
            r@ == old(self).buf@,
            final(self).is_at(old(self), final(r)@, old(self).pos as int),
    {
        &mut self.buf
    }

    pub fn as_slice(&self) -> (r: &[u8])
        requires
            self.wf(),
        ensures
            r@ == self.buf@.take(self.len as int),
    {
        vstd::slice::slice_subrange(vstd::array::array_as_slice(&self.buf), 0, self.len)
    }

    pub fn pos(&self) -> (r: usize)
        ensures
            r == self.pos,
    {
        self.pos
    }

    /// Marks the first `len` bytes of the buffer as the packet.
    pub fn set_len(&mut self, len: usize) -> (r: Result<(), PacketError>)
        ensures
            r == (if len <= PACKET_CAPACITY {
                Ok(())
            } else {
                Err(PacketError::LengthExceedsBuffer)
            }),
            final(self).buf@ == old(self).buf@,
            final(self).pos == old(self).pos,
            final(self).len == (if len <= PACKET_CAPACITY {
                len
            } else {
                old(self).len
            }),
    {
        if len > PACKET_CAPACITY {
            return Err(PacketError::LengthExceedsBuffer);
        }
        self.len = len;
        Ok(())
    }

    /// The `len` bytes from `start` on. A range that reaches the end of the buffer is refused.
    pub fn get_range(&self, start: usize, len: usize) -> (r: Result<&[u8], PacketError>)
        requires
            start + len <= usize::MAX,
        ensures
            start + len >= PACKET_CAPACITY ==> r == Err::<&[u8], _>(PacketError::EndOfBuffer),
            start + len < PACKET_CAPACITY ==> r is Ok && r->Ok_0@ == self.buf@.subrange(
                start as int,
                start + len,
            ),
    {
        if start + len >= PACKET_CAPACITY {
            return Err(PacketError::EndOfBuffer);
        }
        Ok(vstd::slice::slice_subrange(vstd::array::array_as_slice(&self.buf), start, start + len))
    }

    pub fn set_to_pos(&mut self, pos: usize) -> (r: Result<(), PacketError>)
        ensures
            r is Ok,
            final(self).is_at(old(self), old(self).buf@, pos as int),
    {
        self.pos = pos;
        Ok(())
    }

    pub fn step(&mut self, step: usize) -> (r: Result<(), PacketError>)
        requires
            old(self).pos + step <= usize::MAX,
        ensures
            r is Ok,
            final(self).is_at(old(self), old(self).buf@, old(self).pos + step),
    {
        self.pos = self.pos + step;
        Ok(())
    }

    pub fn seek(&mut self, pos: usize) -> (r: Result<(), PacketError>)
        ensures
            r is Ok,
            final(self).is_at(old(self), old(self).buf@, pos as int),
    {
        self.pos = pos;
        Ok(())
    }

    pub fn get(&self, pos: usize) -> (r: Result<u8, PacketError>)
        ensures
            r == (if pos < PACKET_CAPACITY {
                Ok(self.buf@[pos as int])
            } else {
                Err(PacketError::EndOfBuffer)
            }),
    {
        if pos >= PACKET_CAPACITY {
            return Err(PacketError::EndOfBuffer);
        }
        Ok(self.buf[pos])
    }

    pub fn read(&mut self) -> (r: Result<u8, PacketError>)
        ensures
            r == (if old(self).pos < PACKET_CAPACITY {
                Ok(old(self).buf@[old(self).pos as int])
            } else {
                Err(PacketError::EndOfBuffer)
            }),
            final(self).is_at(old(self), old(self).buf@, advance(old(self).pos as int, 1)),
    {
        if self.pos >= PACKET_CAPACITY {
            return Err(PacketError::EndOfBuffer);
        }
        let res: u8 = self.buf[self.pos];
        self.pos = self.pos + 1;
        Ok(res)
    }

    pub fn read_u16(&mut self) -> (r: Result<u16, PacketError>)
        ensures
            r == u16_at(old(self).buf@, old(self).pos as int),
            final(self).is_at(old(self), old(self).buf@, advance(old(self).pos as int, 2)),
    {
        let hi: u8 = self.read()?;
        let lo: u8 = self.read()?;
        Ok((hi as u16) * 256 + lo as u16)
    }

    pub fn read_u32(&mut self) -> (r: Result<u32, PacketError>)
        ensures
            r == u32_at(old(self).buf@, old(self).pos as int),
            final(self).is_at(old(self), old(self).buf@, advance(old(self).pos as int, 4)),
    {
        let b0: u8 = self.read()?;
        let b1: u8 = self.read()?;
        let b2: u8 = self.read()?;
        let b3: u8 = self.read()?;
        Ok((b0 as u32) * 16777216 + (b1 as u32) * 65536 + (b2 as u32) * 256 + b3 as u32)
    }

    pub fn read_ipv4(&mut self) -> (r: Result<Ipv4Addr, PacketError>)
        ensures
            r == match u32_at(old(self).buf@, old(self).pos as int) {
                Ok(bits) => Ok(Ipv4Addr { bits }),
                Err(e) => Err(e),
            },
            final(self).is_at(old(self), old(self).buf@, advance(old(self).pos as int, 4)),
    {
        let bits: u32 = self.read_u32()?;
        Ok(Ipv4Addr { bits })
    }

    pub fn read_ipv6(&mut self) -> (r: Result<Ipv6Addr, PacketError>)
        ensures
            r == ipv6_at(old(self).buf@, old(self).pos as int),
            final(self).is_at(old(self), old(self).buf@, advance(old(self).pos as int, 16)),
    {
        let w0: u32 = self.read_u32()?;
        let w1: u32 = self.read_u32()?;
        let w2: u32 = self.read_u32()?;
        let w3: u32 = self.read_u32()?;
        Ok(Ipv6Addr { w0, w1, w2, w3 })
    }

    /// Appends the name at the cursor to `outstr`, in lowercase and with dots between its
    /// labels, following compression pointers.
    pub fn read_qname(&mut self, outstr: &mut String) -> (r: Result<(), PacketError>)
        ensures
            ({
                let (text, error) = name_at(old(self).buf@, old(self).pos as int, 0, false);
                &&& r == match error {
                    None => Ok(()),
                    Some(e) => Err(e),
                }
                &&& final(outstr)@ == old(outstr)@ + text
            }),
            final(self).is_at(
                old(self),
                old(self).buf@,
                after_name(old(self).buf@, old(self).pos as int),
            ),
    {
        let ghost b = self.buf@;
        let ghost start = self.pos as int;
        let mut pos: usize = self.pos();
        let mut jumped: bool = false;
        let mut jumps: u8 = 0;
        let mut dotted: bool = false;
        let ghost mut acc: Seq<char> = Seq::empty();
        assert(outstr@ =~= old(outstr)@ + acc);
        loop
            invariant
                b == old(self).buf@,
                start == old(self).pos,
                self.is_at(old(self), b, self.pos as int),
                jumps <= MAX_NAME_JUMPS + 1,
                outstr@ == old(outstr)@ + acc,
                jumped || self.pos == start,
                jumped == (jumps > 0),
                name_at(b, start, 0, false) == (
                    acc + name_at(b, pos as int, jumps as int, dotted).0,
                    name_at(b, pos as int, jumps as int, dotted).1,
                ),
                jumped ==> name_end(b, start) == Some(self.pos as int),
                !jumped ==> name_end(b, start) == name_end(b, pos as int),
            decreases MAX_NAME_JUMPS + 1 - jumps, PACKET_CAPACITY - pos,
        {
            if jumps > MAX_NAME_JUMPS {
                assert(outstr@ =~= old(outstr)@ + name_at(b, start, 0, false).0);
                return Err(PacketError::TooManyJumps);
            }
            let len: u8 = match self.get(pos) {
                Ok(v) => v,
                Err(e) => {
                    assert(outstr@ =~= old(outstr)@ + name_at(b, start, 0, false).0);
                    return Err(e);
                },
            };
            if len >= 0xC0 {
                if !jumped {
                    self.pos = pos + 2;
                }
                let b2: u8 = match self.get(pos + 1) {
                    Ok(v) => v,
                    Err(e) => {
                        assert(outstr@ =~= old(outstr)@ + name_at(b, start, 0, false).0);
                        return Err(e);
                    },
                };
                pos = ((len - 0xC0) as usize) * 256 + b2 as usize;
                jumped = true;
                jumps = jumps + 1;
            } else if len == 0 {
                if !jumped {
                    self.pos = pos + 1;
                }
                assert(outstr@ =~= old(outstr)@ + name_at(b, start, 0, false).0);
                return Ok(());
            } else {
                let next: usize = pos + 1 + len as usize;
                if dotted {
                    outstr.append(".");
                    proof {
                        reveal_strlit(".");
                        assert("."@ =~= seq!['.']);
                    }
                }
                let label: &[u8] = match self.get_range(pos + 1, len as usize) {
                    Ok(v) => v,
                    Err(e) => {
                        assert(outstr@ =~= old(outstr)@ + name_at(b, start, 0, false).0);
                        return Err(e);
                    },
                };
                let text: String = to_lowercase(decode_lossy(label).as_str());
                outstr.append(text.as_str());
                proof {
                    let dot = if dotted {
                        seq!['.']
                    } else {
                        Seq::empty()
                    };
                    let rest = name_at(b, next as int, jumps as int, true).0;
                    let before = acc;
                    acc = acc + dot + label_text(b.subrange(pos + 1, next as int));
                    assert(outstr@ =~= old(outstr)@ + acc);
                    assert(before + (dot + label_text(b.subrange(pos + 1, next as int)) + rest)
                        =~= acc + rest);
                }
                dotted = true;
                pos = next;
            }
        }
    }

    pub fn write_u8(&mut self, val: u8) -> (r: Result<(), PacketError>)
        ensures
            final(self).wrote(old(self), seq![val], r),
    {
        if self.pos >= PACKET_CAPACITY {
            assert(overwrite(self.buf@, self.pos as int, seq![val]) =~= self.buf@);
            return Err(PacketError::EndOfBuffer);
        }
        self.buf[self.pos] = val;
        self.pos = self.pos + 1;
        assert(self.buf@ =~= overwrite(old(self).buf@, old(self).pos as int, seq![val]));
        Ok(())
    }

    /// Writes `bytes` at the cursor, as far as they fit.
    pub fn write_bytes(&mut self, bytes: &[u8]) -> (r: Result<(), PacketError>)
        ensures
            final(self).wrote(old(self), bytes@, r),
    {
        let mut i: usize = 0;
        assert(overwrite(self.buf@, self.pos as int, bytes@.take(0)) =~= self.buf@);
        while i < bytes.len()
            invariant
                i <= bytes.len(),
                self.wrote(old(self), bytes@.take(i as int), Ok(())),
                i > 0 ==> old(self).pos + i <= PACKET_CAPACITY,
            decreases bytes.len() - i,
        {
            match self.write_u8(bytes[i]) {
                Ok(_) => {
                    assert(self.buf@ =~= overwrite(
                        old(self).buf@,
                        old(self).pos as int,
                        bytes@.take(i + 1),
                    ));
                },
                Err(e) => {
                    assert(self.buf@ =~= overwrite(old(self).buf@, old(self).pos as int, bytes@));
                    return Err(e);
                },
            }
            i = i + 1;
        }
        assert(bytes@.take(i as int) =~= bytes@);
        Ok(())
    }

    pub fn write_u16(&mut self, val: u16) -> (r: Result<(), PacketError>)
        ensures
            final(self).wrote(old(self), be16_bytes(val), r),
    {
        let bytes: [u8; 2] = [(val / 256) as u8, (val % 256) as u8];
        assert(bytes@ =~= be16_bytes(val));
        self.write_bytes(&bytes)
    }

    pub fn write_u32(&mut self, val: u32) -> (r: Result<(), PacketError>)
        ensures
            final(self).wrote(old(self), be32_bytes(val), r),
    {
        let bytes: [u8; 4] = [
            (val / 16777216) as u8,
            (val / 65536 % 256) as u8,
            (val / 256 % 256) as u8,
            (val % 256) as u8,
        ];
        assert(bytes@ =~= be32_bytes(val));
        self.write_bytes(&bytes)
    }

    /// Writes a dotted name as labels. Labels of 64 bytes or more are left out.
    pub fn write_qname(&mut self, qname: &str) -> (r: Result<(), PacketError>)
        ensures
            final(self).wrote(old(self), name_wire(encode_utf8(qname@)), r),
    {
        let bytes: Vec<u8> = encode_name(qname);
        self.write_bytes(bytes.as_slice())
    }
}

impl Default for BytePacketBuf {
    fn default() -> (r: BytePacketBuf)
        ensures
            r.wf(),
            r.buf@ == Seq::new(512, |i: int| 0u8),
            r.pos == 0,
            r.len == PACKET_CAPACITY,
    {
        BytePacketBuf::new()
    }
}

/// The encoding of a dotted name.
pub fn encode_name(qname: &str) -> (r: Vec<u8>)
    ensures
        r@ == name_wire(encode_utf8(qname@)),
{
    let text: &[u8] = qname.as_bytes();
    let ghost all = labels(text@);
    let mut out: Vec<u8> = Vec::new();
    let mut root: bool = false;
    let mut start: usize = 0;
    let mut done: bool = false;
    let ghost mut seen: Seq<Seq<u8>> = Seq::empty();
    assert(text@.skip(0) =~= text@);
    assert(seen + labels(text@) =~= labels(text@));
    while !done
        invariant
            start <= text.len(),
            all == labels(text@),
            !done ==> all == seen + labels(text@.skip(start as int)),
            done ==> all == seen,
            out@ == labels_wire(seen),
            root == ends_with_root(seen),
        decreases (if done { 0 } else { 1 + text.len() - start }),
    {
        let ghost rest = text@.skip(start as int);
        let mut end: usize = start;
        proof {
            lemma_first_dot(rest);
        }
        while end < text.len() && text[end] != 46u8
            invariant
                start <= end <= text.len(),
                rest == text@.skip(start as int),
                end - start <= first_dot(rest) <= rest.len(),
                first_dot(rest) < rest.len() ==> rest[first_dot(rest)] == 46u8,
                forall|i: int| 0 <= i < first_dot(rest) ==> rest[i] != 46u8,
            decreases text.len() - end,
        {
            assert(text@[end as int] == rest[end - start]);
            end = end + 1;
        }
        assert(end - start == first_dot(rest)) by {
            if end < text.len() {
                assert(text@[end as int] == rest[end - start]);
            }
        }
        let label: &[u8] = vstd::slice::slice_subrange(text, start, end);
        assert(label@ =~= rest.take(end - start));
        if label.len() < LABEL_LIMIT {
            let ghost before = out@;
            out.push(label.len() as u8);
            out.extend_from_slice(label);
            root = label.len() == 0;
            assert(out@ =~= before + label_wire(label@));
        }
        proof {
            let was = seen;
            seen = seen.push(label@);
            assert(seen.drop_last() =~= was);
            if end == text.len() {
                assert(rest.take(end - start) =~= rest);
                assert(all =~= seen);
            } else {
                assert(rest.skip(first_dot(rest) + 1) =~= text@.skip(end + 1));
                assert(all =~= seen + labels(text@.skip(end + 1)));
            }
        }
        if end == text.len() {
            done = true;
        } else {
            start = end + 1;
        }
    }
    if !root {
        out.push(0u8);
    }
    out
}

/// The texts of the labels `ls`, with dots between them and, if `dotted`, before them.
pub open spec fn joined(ls: Seq<Seq<u8>>, dotted: bool) -> Seq<char>
    decreases ls.len(),
{
    if ls.len() == 0 {
        Seq::empty()
    } else {
        (if dotted {
            seq!['.']
        } else {
            Seq::empty()
        }) + label_text(ls[0]) + joined(ls.skip(1), true)
    }
}

/// Every label of `ls` has at least one byte and fewer than [`LABEL_LIMIT`].
pub open spec fn proper_labels(ls: Seq<Seq<u8>>) -> bool {
    forall|i: int| 0 <= i < ls.len() ==> 0 < (#[trigger] ls[i]).len() < LABEL_LIMIT
}

proof fn lemma_labels_wire_front(ls: Seq<Seq<u8>>)
    requires
        ls.len() > 0,
        ls[0].len() < LABEL_LIMIT,
    ensures
        labels_wire(ls) == label_wire(ls[0]) + labels_wire(ls.skip(1)),
    decreases ls.len(),
{
    if ls.len() == 1 {
        assert(ls.drop_last() =~= Seq::empty());
        assert(ls.skip(1) =~= Seq::empty());
        assert(labels_wire(ls) =~= label_wire(ls[0]) + labels_wire(ls.skip(1)));
    } else {
        lemma_labels_wire_front(ls.drop_last());
        assert(ls.drop_last().skip(1) =~= ls.skip(1).drop_last());
        assert(ls.drop_last()[0] == ls[0]);
        assert(ls.skip(1).last() == ls.last());
        assert(labels_wire(ls) =~= label_wire(ls[0]) + labels_wire(ls.skip(1)));
    }
}

/// Reading proper labels that are closed by the empty label.
proof fn lemma_read_labels(b: Seq<u8>, pos: int, ls: Seq<Seq<u8>>, jumps: int, dotted: bool)
    requires
        b.len() == PACKET_CAPACITY,
        proper_labels(ls),
        0 <= jumps <= MAX_NAME_JUMPS,
        0 <= pos,
        pos + labels_wire(ls).len() + 1 <= PACKET_CAPACITY,
        b.subrange(pos, pos + labels_wire(ls).len() + 1) == labels_wire(ls).push(0u8),
    ensures
        name_at(b, pos, jumps, dotted) == (joined(ls, dotted), None::<PacketError>),
        name_end(b, pos) == Some(pos + labels_wire(ls).len() + 1),
    decreases ls.len(),
{
    let w = labels_wire(ls).push(0u8);
    let sub = b.subrange(pos, pos + w.len());
    if ls.len() == 0 {
        assert(sub[0] == b[pos]);
    } else {
        lemma_labels_wire_front(ls);
        let n = ls[0].len() as int;
        let rest = ls.skip(1);
        assert(0 < ls[0].len() < LABEL_LIMIT);
        assert(labels_wire(ls).len() == 1 + n + labels_wire(rest).len());
        assert(sub[0] == b[pos]);
        assert(w[0] == n as u8);
        let next = pos + 1 + n;
        assert(b.subrange(pos + 1, next) =~= ls[0]) by {
            assert forall|i: int| 0 <= i < n implies b[pos + 1 + i] == ls[0][i] by {
                assert(sub[1 + i] == b[pos + 1 + i]);
                assert(w[1 + i] == ls[0][i]);
            }
        }
        assert(b.subrange(next, next + labels_wire(rest).len() + 1) =~= labels_wire(rest).push(0u8))
            by {
            assert forall|i: int| 0 <= i < labels_wire(rest).len() + 1 implies b[next + i]
                == labels_wire(rest).push(0u8)[i] by {
                assert(sub[1 + n + i] == b[next + i]);
                assert(w[1 + n + i] == labels_wire(rest).push(0u8)[i]);
            }
        }
        assert forall|i: int| 0 <= i < rest.len() implies 0 < (#[trigger] rest[i]).len()
            < LABEL_LIMIT by {
            assert(rest[i] == ls[i + 1]);
        }
        lemma_read_labels(b, next, rest, jumps, true);
    }
}

proof fn lemma_proper_has_no_root(ls: Seq<Seq<u8>>)
    requires
        proper_labels(ls),
    ensures
        !ends_with_root(ls),
{
    if ls.len() > 0 {
        assert(ls.last() == ls[ls.len() - 1]);
    }
}

/// A name that was written is read back: its labels come out as text with dots between
/// them, and the cursor ends where the writing ended. The labels have 1 to 63 bytes.
pub proof fn law_name_round_trip(b: Seq<u8>, pos: int, name: Seq<u8>)
    requires
        b.len() == PACKET_CAPACITY,
        proper_labels(labels(name)),
        0 <= pos,
        pos + name_wire(name).len() <= PACKET_CAPACITY,
        b.subrange(pos, pos + name_wire(name).len()) == name_wire(name),
    ensures
        name_at(b, pos, 0, false) == (joined(labels(name), false), None::<PacketError>),
        after_name(b, pos) == pos + name_wire(name).len(),
{
    lemma_proper_has_no_root(labels(name));
    lemma_read_labels(b, pos, labels(name), 0, false);
}

/// The empty name stands in a packet as a single zero, and is read back.
pub proof fn lemma_root_wire(b: Seq<u8>, pos: int)
    requires
        b.len() == PACKET_CAPACITY,
        0 <= pos < PACKET_CAPACITY,
    ensures
        name_wire(encode_utf8(Seq::empty())) == seq![0u8],
        b.subrange(pos, pos + 1) == seq![0u8] ==> name_at(b, pos, 0, false) == (
            Seq::<char>::empty(),
            None::<PacketError>,
        ) && after_name(b, pos) == pos + 1,
{
    let e = Seq::<u8>::empty();
    assert(encode_utf8(Seq::empty()) =~= e);
    assert(first_dot(e) == 0);
    assert(labels(e) =~= seq![e]);
    assert(labels(e).drop_last() =~= Seq::empty());
    assert(labels_wire(labels(e).drop_last()) =~= e);
    assert(labels_wire(labels(e)) =~= seq![0u8]);
    if b.subrange(pos, pos + 1) == seq![0u8] {
        assert(b.subrange(pos, pos + 1)[0] == b[pos]);
    }
}

/// ASCII bytes are the text of their characters.
proof fn lemma_ascii_text(b: Seq<u8>)
    requires
        forall|i: int| 0 <= i < b.len() ==> #[trigger] b[i] < 128,
    ensures
        label_text(b) == ascii_lowercase(b.map_values(|x: u8| x as char)),
{
    let chars = b.map_values(|x: u8| x as char);
    assert(is_ascii_chars(chars));
    is_ascii_chars_encode_utf8(chars);
    assert(encode_utf8(chars) =~= b);
    encode_utf8_valid_utf8(chars);
    encode_utf8_decode_utf8(chars);
}

proof fn lemma_ascii_joined(b: Seq<u8>, dotted: bool)
    requires
        forall|i: int| 0 <= i < b.len() ==> #[trigger] b[i] < 128,
    ensures
        joined(labels(b), dotted) == (if dotted {
            seq!['.']
        } else {
            Seq::empty()
        }) + ascii_lowercase(b.map_values(|x: u8| x as char)),
    decreases b.len(),
{
    let d = first_dot(b);
    lemma_first_dot(b);
    let dot = if dotted {
        seq!['.']
    } else {
        Seq::empty()
    };
    let chars = b.map_values(|x: u8| x as char);
    if d >= b.len() {
        lemma_ascii_text(b);
        assert(labels(b).skip(1) =~= Seq::empty());
        assert(joined(labels(b).skip(1), true) =~= Seq::empty());
        assert(joined(labels(b), dotted) =~= dot + ascii_lowercase(chars));
    } else {
        let front = b.take(d);
        let back = b.skip(d + 1);
        lemma_ascii_text(front);
        lemma_ascii_joined(back, true);
        assert(labels(b).skip(1) =~= labels(back));
        assert(labels(b)[0] == front);
        assert(joined(labels(b), dotted) =~= dot + ascii_lowercase(chars)) by {
            assert(46u8 as char == '.');
            assert(ascii_lowercase(chars) =~= ascii_lowercase(
                front.map_values(|x: u8| x as char),
            ) + (seq!['.'] + ascii_lowercase(back.map_values(|x: u8| x as char))));
        }
    }
}

/// An ASCII name whose labels have 1 to 63 characters is read back in lowercase.
pub proof fn law_ascii_name_round_trip(b: Seq<u8>, pos: int, name: Seq<char>)
    requires
        b.len() == PACKET_CAPACITY,
        is_ascii_chars(name),
        proper_labels(labels(encode_utf8(name))),
        0 <= pos,
        pos + name_wire(encode_utf8(name)).len() <= PACKET_CAPACITY,
        b.subrange(pos, pos + name_wire(encode_utf8(name)).len()) == name_wire(encode_utf8(name)),
    ensures
        name_at(b, pos, 0, false) == (ascii_lowercase(name), None::<PacketError>),
        after_name(b, pos) == pos + name_wire(encode_utf8(name)).len(),
{
    let bytes = encode_utf8(name);
    law_name_round_trip(b, pos, bytes);
    is_ascii_chars_encode_utf8(name);
    is_ascii_chars_nat_bound(name);
    assert(bytes.map_values(|x: u8| x as char) =~= name);
    lemma_ascii_joined(bytes, false);
    assert(joined(labels(bytes), false) =~= ascii_lowercase(name));
}

/// Bytes that were written and fit stand at the old cursor, and the rest of the buffer is
/// as before.
pub proof fn law_write_lands(b: Seq<u8>, pos: int, bytes: Seq<u8>)
    requires
        0 <= pos,
        pos + bytes.len() <= b.len(),
    ensures
        overwrite(b, pos, bytes).subrange(pos, pos + bytes.len()) == bytes,
        overwrite(b, pos, bytes).take(pos) == b.take(pos),
        overwrite(b, pos, bytes).skip(pos + bytes.len()) == b.skip(pos + bytes.len()),
{
    assert(overwrite(b, pos, bytes).subrange(pos, pos + bytes.len()) =~= bytes);
    assert(overwrite(b, pos, bytes).take(pos) =~= b.take(pos));
    assert(overwrite(b, pos, bytes).skip(pos + bytes.len()) =~= b.skip(pos + bytes.len()));
}

/// Writing `x` and then `y` is writing both at once.
pub proof fn law_writes_compose(b: Seq<u8>, pos: int, x: Seq<u8>, y: Seq<u8>)
    ensures
        overwrite(overwrite(b, pos, x), pos + x.len(), y) == overwrite(b, pos, x + y),
{
    assert(overwrite(overwrite(b, pos, x), pos + x.len(), y) =~= overwrite(b, pos, x + y));
}

/// A number that was written is read back.
pub proof fn law_u16_round_trip(b: Seq<u8>, pos: int, v: u16)
    requires
        0 <= pos,
        b.len() == PACKET_CAPACITY,
        pos + 2 <= PACKET_CAPACITY,
    ensures
        u16_at(overwrite(b, pos, be16_bytes(v)), pos) == Ok::<u16, PacketError>(v),
{
}

/// A number that was written is read back.
pub proof fn law_u32_round_trip(b: Seq<u8>, pos: int, v: u32)
    requires
        0 <= pos,
        b.len() == PACKET_CAPACITY,
        pos + 4 <= PACKET_CAPACITY,
    ensures
        u32_at(overwrite(b, pos, be32_bytes(v)), pos) == Ok::<u32, PacketError>(v),
{
}

/// Numbers stand in a packet with their highest byte first.
pub proof fn law_numbers_are_big_endian(short: u16, long: u32)
    ensures
        ({
            let s = be16_bytes(short);
            let l = be32_bytes(long);
            &&& s.len() == 2 && s[0] * 256 + s[1] == short
            &&& l.len() == 4 && ((l[0] * 256 + l[1]) * 256 + l[2]) * 256 + l[3] == long
        }),
{
}

/// A pointer stands for the name at the place that its fourteen low bits give. It ends the name
/// in which it stands.
pub proof fn law_pointer_is_followed(b: Seq<u8>, pos: int, jumps: int, dotted: bool)
    requires
        0 <= pos && pos + 1 < PACKET_CAPACITY,
        b[pos] >= 0xC0,
        0 <= jumps <= 10,
    ensures
        name_at(b, pos, jumps, dotted) == name_at(
            b,
            (b[pos] * 256 + b[pos + 1]) % 16384,
            jumps + 1,
            dotted,
        ),
        name_end(b, pos) == Some(pos + 2),
{
    assert((b[pos] * 256 + b[pos + 1]) % 16384 == (b[pos] - 0xC0) * 256 + b[pos + 1]);
}

/// A name that goes through more than ten pointers is refused. So a name that points at itself is.
pub proof fn law_pointer_loops_are_refused(b: Seq<u8>, pos: int, jumps: int, dotted: bool)
    requires
        0 <= pos && pos + 1 < PACKET_CAPACITY,
        b[pos] >= 0xC0,
        (b[pos] * 256 + b[pos + 1]) % 16384 == pos,
        0 <= jumps <= 11,
    ensures
        name_at(b, pos, jumps, dotted) == (Seq::<char>::empty(), Some(PacketError::TooManyJumps)),
    decreases 11 - jumps,
{
    if jumps <= 10 {
        law_pointer_is_followed(b, pos, jumps, dotted);
        law_pointer_loops_are_refused(b, pos, jumps + 1, dotted);
    }
}

/// A name is its first label, a dot and the rest, and it ends with a zero.
pub proof fn law_labels_are_read_in_turn(b: Seq<u8>, pos: int)
    requires
        0 <= pos < PACKET_CAPACITY,
    ensures
        b[pos] == 0 ==> name_at(b, pos, 0, false) == (Seq::<char>::empty(), None::<PacketError>)
            && name_end(b, pos) == Some(pos + 1),
        0 < b[pos] < 0xC0 && pos + 1 + b[pos] < PACKET_CAPACITY ==> ({
            let next = pos + 1 + b[pos];
            let (rest, error) = name_at(b, next, 0, false);
            &&& name_end(b, pos) == name_end(b, next)
            &&& error is None && rest.len() > 0 && (0 < b[next] < 0xC0) ==> name_at(
                b,
                pos,
                0,
                false,
            ) == (label_text(b.subrange(pos + 1, next)) + seq!['.'] + rest, None::<PacketError>)
            &&& b[next] == 0 ==> name_at(b, pos, 0, false) == (
                label_text(b.subrange(pos + 1, next)),
                None::<PacketError>,
            )
        }),
{
    if 0 < b[pos] < 0xC0 && pos + 1 + b[pos] < PACKET_CAPACITY {
        let next = pos + 1 + b[pos];
        let label = label_text(b.subrange(pos + 1, next));
        assert(name_at(b, pos, 0, false).0 =~= label + name_at(b, next, 0, true).0);
        if b[next] == 0 {
            assert(name_at(b, pos, 0, false).0 =~= label);
        } else if b[next] < 0xC0 && name_at(b, next, 0, false).1 is None {
            let after = next + 1 + b[next];
            assert(name_at(b, next, 0, true).0 =~= seq!['.'] + name_at(b, next, 0, false).0);
            assert(name_at(b, pos, 0, false).0 =~= label + seq!['.'] + name_at(
                b,
                next,
                0,
                false,
            ).0);
        }
    }
}

/// A name stands in a packet as its text, with the length of the label that follows in place of
/// each dot and before the first label, and a zero at its end.
pub proof fn law_name_layout(name: Seq<u8>, i: int)
    requires
        proper_labels(labels(name)),
        -1 <= i < name.len(),
    ensures
        ({
            let w = name_wire(name);
            let n = w[i + 1] as int;
            &&& w.len() == name.len() + 2
            &&& w.last() == 0
            &&& i >= 0 && name[i] != 46 ==> w[i + 1] == name[i]
            &&& i == -1 || name[i] == 46 ==> {
                &&& 0 < n && i + 1 + n <= name.len()
                &&& forall|k: int| i < k <= i + n ==> #[trigger] name[k] != 46
                &&& i + 1 + n == name.len() || name[i + 1 + n] == 46
            }
        }),
{
    lemma_proper_has_no_root(labels(name));
    lemma_labels_layout(name, i);
}

proof fn lemma_labels_layout(name: Seq<u8>, i: int)
    requires
        proper_labels(labels(name)),
        -1 <= i < name.len(),
    ensures
        ({
            let w = labels_wire(labels(name));
            let n = w[i + 1] as int;
            &&& w.len() == name.len() + 1
            &&& i >= 0 && name[i] != 46 ==> w[i + 1] == name[i]
            &&& i == -1 || name[i] == 46 ==> {
                &&& 0 < n && i + 1 + n <= name.len()
                &&& forall|k: int| i < k <= i + n ==> #[trigger] name[k] != 46
                &&& i + 1 + n == name.len() || name[i + 1 + n] == 46
            }
        }),
    decreases name.len(),
{
    let dot = first_dot(name);
    let ls = labels(name);
    let w = labels_wire(ls);
    lemma_first_dot(name);
    assert(0 < ls[0].len() < LABEL_LIMIT);
    lemma_labels_wire_front(ls);
    if dot >= name.len() {
        assert(ls =~= seq![name]);
        assert(ls.skip(1) =~= Seq::empty());
        assert(w =~= label_wire(name));
    } else {
        let rest = name.skip(dot + 1);
        assert(ls[0] == name.take(dot));
        assert(ls.skip(1) =~= labels(rest));
        assert(w == label_wire(name.take(dot)) + labels_wire(labels(rest)));
        assert forall|k: int| 0 <= k < labels(rest).len() implies 0 < (
        #[trigger] labels(rest)[k]).len() < LABEL_LIMIT by {
            assert(labels(rest)[k] == ls[k + 1]);
        }
        let j = if i > dot {
            i - dot - 1
        } else {
            -1
        };
        lemma_labels_layout(rest, j);
        assert(w.len() == name.len() + 1);
        if i >= dot {
            assert(w[i + 1] == labels_wire(labels(rest))[j + 1]);
            let n = w[i + 1] as int;
            if i == dot || name[i] == 46 {
                assert forall|k: int| i < k <= i + n implies #[trigger] name[k] != 46 by {
                    assert(name[k] == rest[k - dot - 1]);
                }
            }
        }
    }
}

} // verus!
