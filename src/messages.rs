//! The wire protocol: hashes, payloads, addresses, messages and their frames.
//!
//! Frame layout, all integers big-endian, the type tag first:
//!
//! | Tag | Message           | Body                                              |
//! |-----|-------------------|---------------------------------------------------|
//! | 0   | `Get(hash)`       | 8-byte hash                                       |
//! | 1   | `Put(hash, data)` | 8-byte hash, 2-byte payload length, payload bytes |
//! | 2   | `KeepAlive`       | (empty)                                           |
//! | 3   | `IHave(hash)`     | 8-byte hash                                       |
//! | 4   | `Discover(addr)`  | family (4 or 6), 4 or 16 address bytes, 2-byte port |
use vstd::prelude::*;
use vstd::slice::slice_subrange;
use vstd::slice::slice_to_vec;
use vstd::string::StrSliceExecFns;
use vstd::string::StringExecFns;
use vstd::string::StringSliceAdditionalSpecFns;

verus! {

/// Hashes are 8 bytes long.
pub const HASH_SIZE: usize = 8;

/// The largest payload a frame can carry: its length is written on two bytes.
pub const MAX_PAYLOAD: usize = 65535;

// ---------------------------------------------------------------------------
// The frame format, as sequences of bytes.
// ---------------------------------------------------------------------------

/// Why a frame could not be decoded.
#[derive(Debug, Clone, Copy, PartialEq, Eq, Structural)]
pub enum DecodeError {
    MessageTooLong,
    MessageTooShort,
    InvalidMessageType,
    InvalidContent,
}

impl DecodeError {
    /// What went wrong, in words.
    pub fn description(&self) -> (r: &'static str)
        ensures
            r@ == match self {
                DecodeError::MessageTooLong => "input message is too long"@,
                DecodeError::MessageTooShort => "input message is too short"@,
                DecodeError::InvalidMessageType => "message type unknown"@,
                DecodeError::InvalidContent => "invalid message content"@,
            },
    {
        match self {
            DecodeError::MessageTooLong => "input message is too long",
            DecodeError::MessageTooShort => "input message is too short",
            DecodeError::InvalidMessageType => "message type unknown",
            DecodeError::InvalidContent => "invalid message content",
        }
    }
}

/// A socket address as the protocol carries it.
pub enum AddrView {
    V4(Seq<u8>, u16),
    V6(Seq<u8>, u16),
}

/// A message as the protocol sees it: hashes and payloads as byte sequences.
pub enum MessageView {
    Get(Seq<u8>),
    Put(Seq<u8>, Seq<u8>),
    KeepAlive,
    IHave(Seq<u8>),
    Discover(AddrView),
}

/// The two big-endian bytes of `n`, for `0 <= n < 65536`.
pub open spec fn be16(n: int) -> Seq<u8> {
    seq![(n / 256) as u8, (n % 256) as u8]
}

/// The number written big-endian in `hi`, `lo`.
pub open spec fn be16_value(hi: u8, lo: u8) -> int {
    hi as int * 256 + lo as int
}

/// The frame bytes of a payload: its length, then its bytes.
pub open spec fn payload_frame(p: Seq<u8>) -> Seq<u8> {
    be16(p.len() as int) + p
}

/// The frame bytes of an address: family, address bytes, port.
pub open spec fn addr_frame(a: AddrView) -> Seq<u8> {
    match a {
        AddrView::V4(ip, port) => seq![4u8] + ip + be16(port as int),
        AddrView::V6(ip, port) => seq![6u8] + ip + be16(port as int),
    }
}

/// The tag that starts the frame of a message.
pub open spec fn tag_of(m: MessageView) -> u8 {
    match m {
        MessageView::Get(_) => 0,
        MessageView::Put(_, _) => 1,
        MessageView::KeepAlive => 2,
        MessageView::IHave(_) => 3,
        MessageView::Discover(_) => 4,
    }
}

/// The frame of a message.
pub open spec fn frame_of(m: MessageView) -> Seq<u8> {
    match m {
        MessageView::Get(h) => seq![0u8] + h,
        MessageView::Put(h, p) => seq![1u8] + h + payload_frame(p),
        MessageView::KeepAlive => seq![2u8],
        MessageView::IHave(h) => seq![3u8] + h,
        MessageView::Discover(a) => seq![4u8] + addr_frame(a),
    }
}

/// The messages that the types of this module can hold and a frame can carry:
/// hashes of 8 bytes, addresses of 4 or 16 bytes, payloads of at most 65535 bytes.
pub open spec fn well_formed(m: MessageView) -> bool {
    match m {
        MessageView::Get(h) => h.len() == HASH_SIZE,
        MessageView::Put(h, p) => h.len() == HASH_SIZE && p.len() <= MAX_PAYLOAD,
        MessageView::KeepAlive => true,
        MessageView::IHave(h) => h.len() == HASH_SIZE,
        MessageView::Discover(a) => match a {
            AddrView::V4(ip, _) => ip.len() == 4,
            AddrView::V6(ip, _) => ip.len() == 16,
        },
    }
}

/// Reading a byte from the start of `b`.
pub open spec fn parse_u8(b: Seq<u8>) -> Result<u8, DecodeError> {
    if b.len() < 1 {
        Err(DecodeError::MessageTooShort)
    } else {
        Ok(b[0])
    }
}

/// Reading a hash from the start of `b`.
pub open spec fn parse_hash(b: Seq<u8>) -> Result<Seq<u8>, DecodeError> {
    if b.len() < HASH_SIZE {
        Err(DecodeError::MessageTooShort)
    } else {
        Ok(b.subrange(0, HASH_SIZE as int))
    }
}

/// Reading a payload from the start of `b`; bytes after it are ignored.
pub open spec fn parse_payload(b: Seq<u8>) -> Result<Seq<u8>, DecodeError> {
    if b.len() < 2 {
        Err(DecodeError::MessageTooShort)
    } else if b.len() < 2 + be16_value(b[0], b[1]) {
        Err(DecodeError::MessageTooShort)
    } else {
        Ok(b.subrange(2, 2 + be16_value(b[0], b[1])))
    }
}

/// Reading an address from the start of `b`.
pub open spec fn parse_addr(b: Seq<u8>) -> Result<AddrView, DecodeError> {
    if b.len() < 1 {
        Err(DecodeError::MessageTooShort)
    } else if b[0] == 4 {
        if b.len() < 7 {
            Err(DecodeError::MessageTooShort)
        } else {
            Ok(AddrView::V4(b.subrange(1, 5), be16_value(b[5], b[6]) as u16))
        }
    } else if b[0] == 6 {
        if b.len() < 19 {
            Err(DecodeError::MessageTooShort)
        } else {
            Ok(AddrView::V6(b.subrange(1, 17), be16_value(b[17], b[18]) as u16))
        }
    } else {
        Err(DecodeError::InvalidContent)
    }
}

/// Decoding a frame; bytes after the message are ignored.
pub open spec fn parse_frame(b: Seq<u8>) -> Result<MessageView, DecodeError> {
    if b.len() < 1 {
        Err(DecodeError::MessageTooShort)
    } else {
        let body = b.subrange(1, b.len() as int);
        if b[0] == 0 {
            match parse_hash(body) {
                Ok(h) => Ok(MessageView::Get(h)),
                Err(e) => Err(e),
            }
        } else if b[0] == 1 {
            match parse_hash(body) {
                Ok(h) => match parse_payload(b.subrange(1 + HASH_SIZE, b.len() as int)) {
                    Ok(p) => Ok(MessageView::Put(h, p)),
                    Err(e) => Err(e),
                },
                Err(e) => Err(e),
            }
        } else if b[0] == 2 {
            Ok(MessageView::KeepAlive)
        } else if b[0] == 3 {
            match parse_hash(body) {
                Ok(h) => Ok(MessageView::IHave(h)),
                Err(e) => Err(e),
            }
        } else if b[0] == 4 {
            match parse_addr(body) {
                Ok(a) => Ok(MessageView::Discover(a)),
                Err(e) => Err(e),
            }
        } else {
            Err(DecodeError::InvalidMessageType)
        }
    }
}

/// The view of a decoding result.
pub open spec fn result_view<T: View>(r: Result<T, DecodeError>) -> Result<T::V, DecodeError> {
    match r {
        Ok(v) => Ok(v@),
        Err(e) => Err(e),
    }
}

// ---------------------------------------------------------------------------
// Values that have a place in a frame.
// ---------------------------------------------------------------------------

/// A Pushable value can be written into a frame and read back from one.
pub trait Pushable: Sized + View {
    /// Whether the value can be written in a frame.
    spec fn spec_fits(v: Self::V) -> bool;

    /// The bytes that stand for the value in a frame.
    spec fn spec_frame(v: Self::V) -> Seq<u8>;

    /// What reading a value from the start of `buf` gives.
    spec fn spec_pull(buf: Seq<u8>) -> Result<Self::V, DecodeError>;

    /// Push the value in the given frame.
    fn push_in_frame(&self, frame: &mut Vec<u8>)
        requires
            Self::spec_fits(self@),
        ensures
            final(frame)@ == old(frame)@ + Self::spec_frame(self@),
    ;

    /// The number of bytes the value takes in a frame.
    fn frame_len(&self) -> (n: usize)
        requires
            Self::spec_fits(self@),
        ensures
            n == Self::spec_frame(self@).len(),
    ;

    /// Pull the value from the start of a slice of bytes.
    fn pull(buf: &[u8]) -> (r: Result<Self, DecodeError>)
        ensures
            result_view(r) == Self::spec_pull(buf@),
    ;
}

/// Append `bytes` to `frame`.
fn push_bytes(frame: &mut Vec<u8>, bytes: &[u8])
    ensures
        final(frame)@ == old(frame)@ + bytes@,
{
    let ghost start = frame@;
    let mut i: usize = 0;
    while i < bytes.len()
        invariant
            i <= bytes@.len(),
            frame@ == start + bytes@.subrange(0, i as int),
        decreases bytes@.len() - i,
    {
        frame.push(bytes[i]);
        i = i + 1;
        assert(frame@ =~= start + bytes@.subrange(0, i as int));
    }
    assert(bytes@.subrange(0, bytes@.len() as int) =~= bytes@);
}

/// Append the two big-endian bytes of `n`.
fn push_be16(frame: &mut Vec<u8>, n: u16)
    ensures
        final(frame)@ == old(frame)@ + be16(n as int),
{
    frame.push((n / 256) as u8);
    frame.push((n % 256) as u8);
    assert(frame@ =~= old(frame)@ + be16(n as int));
}

/// The message type is stored as a byte.
impl Pushable for u8 {
    open spec fn spec_fits(v: u8) -> bool {
        true
    }

    open spec fn spec_frame(v: u8) -> Seq<u8> {
        seq![v]
    }

    open spec fn spec_pull(buf: Seq<u8>) -> Result<u8, DecodeError> {
        parse_u8(buf)
    }

    fn push_in_frame(&self, frame: &mut Vec<u8>) {
        frame.push(*self);
        assert(frame@ =~= old(frame)@ + seq![*self]);
    }

    fn frame_len(&self) -> (n: usize) {
        1
    }

    fn pull(buf: &[u8]) -> (r: Result<u8, DecodeError>) {
        if buf.len() < 1 {
            Err(DecodeError::MessageTooShort)
        } else {
            Ok(buf[0])
        }
    }
}

// ---------------------------------------------------------------------------
// Hashes.
// ---------------------------------------------------------------------------

/// A content identifier: exactly 8 raw bytes.
#[derive(Copy, Clone, Debug, Eq, Hash)]
pub struct Hash(pub [u8; HASH_SIZE]);

impl View for Hash {
    type V = Seq<u8>;

    open spec fn view(&self) -> Seq<u8> {
        self.0@
    }
}

/// Why a text is not a hash.
#[derive(Debug, Clone, Copy, PartialEq, Eq, Structural)]
pub struct HashParseError;

impl HashParseError {
    /// What went wrong, in words.
    pub fn description(&self) -> (r: &'static str)
        ensures
            r@ == "invalid hash syntax"@,
    {
        "invalid hash syntax"
    }
}

/// The value of a hexadecimal digit.
pub open spec fn hex_value(c: char) -> Option<u8> {
    if '0' <= c && c <= '9' {
        Some((c as u32 - '0' as u32) as u8)
    } else if 'a' <= c && c <= 'f' {
        Some((c as u32 - 'a' as u32 + 10) as u8)
    } else if 'A' <= c && c <= 'F' {
        Some((c as u32 - 'A' as u32 + 10) as u8)
    } else {
        None
    }
}

/// The lower-case hexadecimal digits, by value.
pub open spec fn hex_digits() -> Seq<char> {
    seq!['0', '1', '2', '3', '4', '5', '6', '7', '8', '9', 'a', 'b', 'c', 'd', 'e', 'f']
}

/// A hash text of at most 16 digits, with leading zeros up to 16.
pub open spec fn padded_hash_text(s: Seq<char>) -> Seq<char> {
    Seq::new((2 * HASH_SIZE - s.len()) as nat, |i: int| '0') + s
}

/// The bytes that 16 hexadecimal digits stand for, two digits a byte.
pub open spec fn hex_bytes(t: Seq<char>) -> Seq<u8> {
    Seq::new(
        HASH_SIZE as nat,
        |i: int| (hex_value(t[2 * i])->0 * 16 + hex_value(t[2 * i + 1])->0) as u8,
    )
}

/// The hash that a text names: at most 16 hexadecimal digits, either case,
/// read as if padded with leading zeros to 16.
pub open spec fn hash_of_text(s: Seq<char>) -> Option<Seq<u8>> {
    if s.len() > 2 * HASH_SIZE {
        None
    } else if forall|i: int| 0 <= i < 2 * HASH_SIZE ==> #[trigger] hex_value(padded_hash_text(s)[i]) is Some {
        Some(hex_bytes(padded_hash_text(s)))
    } else {
        None
    }
}

/// The lower-case hexadecimal text of some bytes, two digits a byte.
pub open spec fn hex_text(b: Seq<u8>) -> Seq<char> {
    Seq::new(
        2 * b.len(),
        |i: int|
            if i % 2 == 0 {
                hex_digits()[b[i / 2] as int / 16]
            } else {
                hex_digits()[b[i / 2] as int % 16]
            },
    )
}

/// The value of a hexadecimal digit.
fn hex_digit(c: char) -> (r: Option<u8>)
    ensures
        r == hex_value(c),
{
    if '0' <= c && c <= '9' {
        Some((c as u32 - '0' as u32) as u8)
    } else if 'a' <= c && c <= 'f' {
        Some((c as u32 - 'a' as u32 + 10) as u8)
    } else if 'A' <= c && c <= 'F' {
        Some((c as u32 - 'A' as u32 + 10) as u8)
    } else {
        None
    }
}

/// The character at `i` of `s` padded with `pad` leading zeros.
fn padded_char(s: &str, pad: usize, i: usize) -> (c: char)
    requires
        pad + s@.len() == 2 * HASH_SIZE,
        i < 2 * HASH_SIZE,
    ensures
        c == padded_hash_text(s@)[i as int],
{
    if i < pad {
        '0'
    } else {
        s.get_char(i - pad)
    }
}

impl Hash {
    /// Create a new Hash.
    pub fn new(hash: [u8; HASH_SIZE]) -> (r: Self)
        ensures
            r@ == hash@,
    {
        Hash(hash)
    }

    /// The hash made of the first 8 bytes of `hash`, if it has that many.
    pub fn from_slice(hash: &[u8]) -> (r: Option<Self>)
        ensures
            hash@.len() < HASH_SIZE ==> r is None,
            hash@.len() >= HASH_SIZE ==> r is Some && r->0@ == hash@.subrange(0, HASH_SIZE as int),
    {
        if hash.len() < HASH_SIZE {
            return None;
        }
        let h = Hash::new([hash[0], hash[1], hash[2], hash[3], hash[4], hash[5], hash[6], hash[7]]);
        assert(h@ =~= hash@.subrange(0, HASH_SIZE as int));
        Some(h)
    }

    /// Whether two hashes hold the same bytes.
    pub fn same(&self, other: &Hash) -> (r: bool)
        ensures
            r == (self@ == other@),
    {
        let mut i: usize = 0;
        while i < HASH_SIZE
            invariant
                i <= HASH_SIZE,
                forall|j: int| 0 <= j < i ==> self@[j] == other@[j],
            decreases HASH_SIZE - i,
        {
            if self.0[i] != other.0[i] {
                return false;
            }
            i = i + 1;
        }
        assert(self@ =~= other@);
        true
    }

    /// Read a hash from at most 16 hexadecimal digits (either case); a shorter
    /// text stands for the hash with leading zero digits.
    pub fn from_hex(s: &str) -> (r: Result<Hash, HashParseError>)
        ensures
            match hash_of_text(s@) {
                Some(b) => r is Ok && r->Ok_0@ == b,
                None => r is Err,
            },
    {
        let count = s.unicode_len();
        if count > 2 * HASH_SIZE {
            return Err(HashParseError);
        }
        let pad = 2 * HASH_SIZE - count;
        let ghost t = padded_hash_text(s@);
        let mut bytes: Vec<u8> = Vec::new();
        let mut i: usize = 0;
        while i < HASH_SIZE
            invariant
                i <= HASH_SIZE,
                pad + s@.len() == 2 * HASH_SIZE,
                t == padded_hash_text(s@),
                t.len() == 2 * HASH_SIZE,
                bytes@.len() == i,
                forall|j: int| 0 <= j < 2 * i ==> #[trigger] hex_value(t[j]) is Some,
                forall|j: int| 0 <= j < i ==> bytes@[j] == hex_bytes(t)[j],
            decreases HASH_SIZE - i,
        {
            let upper = hex_digit(padded_char(s, pad, 2 * i));
            let lower = hex_digit(padded_char(s, pad, 2 * i + 1));
            match (upper, lower) {
                (Some(u), Some(l)) => {
                    assert(u < 16 && l < 16);
                    bytes.push(u * 16 + l);
                },
                _ => {
                    assert(!(hex_value(t[2 * i as int]) is Some) || !(hex_value(t[2 * i + 1]) is Some));
                    return Err(HashParseError);
                },
            }
            i = i + 1;
        }
        assert(bytes@ =~= hex_bytes(t));
        let h = Hash::new([bytes[0], bytes[1], bytes[2], bytes[3], bytes[4], bytes[5], bytes[6], bytes[7]]);
        assert(h@ =~= hex_bytes(t));
        Ok(h)
    }

    /// The hash as 16 lower-case hexadecimal digits.
    pub fn to_hex(&self) -> (r: String)
        ensures
            r@ == hex_text(self@),
    {
        let digits = "0123456789abcdef";
        proof {
            reveal_strlit("0123456789abcdef");
        }
        assert(digits@ =~= hex_digits());
        let mut out = String::new();
        let mut i: usize = 0;
        while i < HASH_SIZE
            invariant
                i <= HASH_SIZE,
                digits@ == hex_digits(),
                out@ == hex_text(self@.subrange(0, i as int)),
            decreases HASH_SIZE - i,
        {
            let b = self.0[i];
            let hi = (b / 16) as usize;
            let lo = (b % 16) as usize;
            out.append(digits.substring_char(hi, hi + 1));
            out.append(digits.substring_char(lo, lo + 1));
            i = i + 1;
            assert(out@ =~= hex_text(self@.subrange(0, i as int)));
        }
        assert(self@.subrange(0, HASH_SIZE as int) =~= self@);
        out
    }
}

impl PartialEq for Hash {
    fn eq(&self, other: &Hash) -> (r: bool) {
        self.same(other)
    }
}

impl vstd::std_specs::cmp::PartialEqSpecImpl for Hash {
    open spec fn obeys_eq_spec() -> bool {
        true
    }

    open spec fn eq_spec(&self, other: &Hash) -> bool {
        self@ == other@
    }
}

impl std::str::FromStr for Hash {
    type Err = HashParseError;

    /// Create a Hash from hexadecimal text: see [`Hash::from_hex`].
    fn from_str(s: &str) -> Result<Hash, HashParseError> {
        Hash::from_hex(s)
    }
}

impl Pushable for Hash {
    open spec fn spec_fits(v: Seq<u8>) -> bool {
        v.len() == HASH_SIZE
    }

    open spec fn spec_frame(v: Seq<u8>) -> Seq<u8> {
        v
    }

    open spec fn spec_pull(buf: Seq<u8>) -> Result<Seq<u8>, DecodeError> {
        parse_hash(buf)
    }

    fn push_in_frame(&self, frame: &mut Vec<u8>) {
        push_bytes(frame, self.0.as_slice());
    }

    fn frame_len(&self) -> (n: usize) {
        HASH_SIZE
    }

    fn pull(buf: &[u8]) -> (r: Result<Hash, DecodeError>) {
        match Hash::from_slice(buf) {
            Some(h) => Ok(h),
            None => Err(DecodeError::MessageTooShort),
        }
    }
}

// ---------------------------------------------------------------------------
// Payloads.
// ---------------------------------------------------------------------------

/// The payload inside PUT messages.
#[derive(Debug, Clone, PartialEq, Eq)]
pub struct Payload(pub Vec<u8>);

impl View for Payload {
    type V = Seq<u8>;

    open spec fn view(&self) -> Seq<u8> {
        self.0@
    }
}

impl Default for Payload {
    fn default() -> (r: Self)
        ensures
            r@ == Seq::<u8>::empty(),
    {
        Payload(Vec::new())
    }
}

impl Payload {
    /// The payload made of the UTF-8 bytes of a text.
    pub fn from_text(s: &str) -> (r: Payload)
        ensures
            r@ == s.spec_bytes(),
    {
        Payload(s.as_bytes_vec())
    }

    /// An independent copy of the payload.
    pub fn duplicate(&self) -> (r: Payload)
        ensures
            r@ == self@,
    {
        Payload(slice_to_vec(self.0.as_slice()))
    }
}

impl Pushable for Payload {
    open spec fn spec_fits(v: Seq<u8>) -> bool {
        v.len() <= MAX_PAYLOAD
    }

    open spec fn spec_frame(v: Seq<u8>) -> Seq<u8> {
        payload_frame(v)
    }

    open spec fn spec_pull(buf: Seq<u8>) -> Result<Seq<u8>, DecodeError> {
        parse_payload(buf)
    }

    fn push_in_frame(&self, frame: &mut Vec<u8>) {
        let len = self.0.len();
        push_be16(frame, len as u16);
        push_bytes(frame, self.0.as_slice());
    }

    fn frame_len(&self) -> (n: usize) {
        self.0.len() + 2
    }

    fn pull(buf: &[u8]) -> (r: Result<Payload, DecodeError>) {
        // The first two bytes are the payload length, the rest is the payload itself.
        if buf.len() < 2 {
            return Err(DecodeError::MessageTooShort);
        }
        let length = buf[0] as usize * 256 + buf[1] as usize;
        if buf.len() - 2 < length {
            return Err(DecodeError::MessageTooShort);
        }
        let data = slice_subrange(buf, 2, 2 + length);
        Ok(Payload(slice_to_vec(data)))
    }
}

// ---------------------------------------------------------------------------
// Addresses.
// ---------------------------------------------------------------------------

/// The address of a peer: an IPv4 or IPv6 address and a port.
#[derive(Copy, Clone, Debug, Eq, Hash)]
pub enum PeerAddr {
    V4([u8; 4], u16),
    V6([u8; 16], u16),
}

impl View for PeerAddr {
    type V = AddrView;

    open spec fn view(&self) -> AddrView {
        match self {
            PeerAddr::V4(ip, port) => AddrView::V4(ip@, *port),
            PeerAddr::V6(ip, port) => AddrView::V6(ip@, *port),
        }
    }
}

impl PeerAddr {
    /// The port.
    pub fn port(&self) -> (r: u16)
        ensures
            r == match self@ {
                AddrView::V4(_, p) => p,
                AddrView::V6(_, p) => p,
            },
    {
        match self {
            PeerAddr::V4(_, p) => *p,
            PeerAddr::V6(_, p) => *p,
        }
    }

    /// Whether two addresses are the same.
    pub fn same(&self, other: &PeerAddr) -> (r: bool)
        ensures
            r == (self@ == other@),
    {
        match (self, other) {
            (PeerAddr::V4(a, p), PeerAddr::V4(b, q)) => {
                assert(self@ == AddrView::V4(a@, *p) && other@ == AddrView::V4(b@, *q));
                if *p != *q {
                    return false;
                }
                let mut i: usize = 0;
                while i < 4
                    invariant
                        i <= 4,
                        self@ == AddrView::V4(a@, *p),
                        other@ == AddrView::V4(b@, *q),
                        forall|j: int| 0 <= j < i ==> a@[j] == b@[j],
                    decreases 4 - i,
                {
                    if a[i] != b[i] {
                        assert(a@[i as int] != b@[i as int]);
                        return false;
                    }
                    i = i + 1;
                }
                assert(a@ =~= b@);
                true
            },
            (PeerAddr::V6(a, p), PeerAddr::V6(b, q)) => {
                assert(self@ == AddrView::V6(a@, *p) && other@ == AddrView::V6(b@, *q));
                if *p != *q {
                    return false;
                }
                let mut i: usize = 0;
                while i < 16
                    invariant
                        i <= 16,
                        self@ == AddrView::V6(a@, *p),
                        other@ == AddrView::V6(b@, *q),
                        forall|j: int| 0 <= j < i ==> a@[j] == b@[j],
                    decreases 16 - i,
                {
                    if a[i] != b[i] {
                        assert(a@[i as int] != b@[i as int]);
                        return false;
                    }
                    i = i + 1;
                }
                assert(a@ =~= b@);
                true
            },
            _ => false,
        }
    }
}

impl PartialEq for PeerAddr {
    fn eq(&self, other: &PeerAddr) -> (r: bool) {
        self.same(other)
    }
}

impl vstd::std_specs::cmp::PartialEqSpecImpl for PeerAddr {
    open spec fn obeys_eq_spec() -> bool {
        true
    }

    open spec fn eq_spec(&self, other: &PeerAddr) -> bool {
        self@ == other@
    }
}

impl Pushable for PeerAddr {
    open spec fn spec_fits(v: AddrView) -> bool {
        match v {
            AddrView::V4(ip, _) => ip.len() == 4,
            AddrView::V6(ip, _) => ip.len() == 16,
        }
    }

    open spec fn spec_frame(v: AddrView) -> Seq<u8> {
        addr_frame(v)
    }

    open spec fn spec_pull(buf: Seq<u8>) -> Result<AddrView, DecodeError> {
        parse_addr(buf)
    }

    fn push_in_frame(&self, frame: &mut Vec<u8>) {
        match self {
            PeerAddr::V4(ip, port) => {
                frame.push(4);
                push_bytes(frame, ip.as_slice());
                push_be16(frame, *port);
            },
            PeerAddr::V6(ip, port) => {
                frame.push(6);
                push_bytes(frame, ip.as_slice());
                push_be16(frame, *port);
            },
        }
        assert(frame@ =~= old(frame)@ + addr_frame(self@));
    }

    fn frame_len(&self) -> (n: usize) {
        match self {
            PeerAddr::V4(_, _) => 1 + 4 + 2,
            PeerAddr::V6(_, _) => 1 + 16 + 2,
        }
    }

    fn pull(buf: &[u8]) -> (r: Result<PeerAddr, DecodeError>) {
        if buf.len() < 1 {
            return Err(DecodeError::MessageTooShort);
        }
        let family = buf[0];
        if family == 4 {
            if buf.len() < 7 {
                return Err(DecodeError::MessageTooShort);
            }
            let ip: [u8; 4] = [buf[1], buf[2], buf[3], buf[4]];
            let port = (buf[5] as u16) * 256 + buf[6] as u16;
            let a = PeerAddr::V4(ip, port);
            assert(ip@ =~= buf@.subrange(1, 5));
            Ok(a)
        } else if family == 6 {
            if buf.len() < 19 {
                return Err(DecodeError::MessageTooShort);
            }
            let ip: [u8; 16] = [
                buf[1], buf[2], buf[3], buf[4], buf[5], buf[6], buf[7], buf[8],
                buf[9], buf[10], buf[11], buf[12], buf[13], buf[14], buf[15], buf[16],
            ];
            let port = (buf[17] as u16) * 256 + buf[18] as u16;
            let a = PeerAddr::V6(ip, port);
            assert(ip@ =~= buf@.subrange(1, 17));
            Ok(a)
        } else {
            Err(DecodeError::InvalidContent)
        }
    }
}

// ---------------------------------------------------------------------------
// Messages.
// ---------------------------------------------------------------------------

/// A protocol event.
#[derive(Debug, Clone, PartialEq)]
pub enum Message {
    Get(Hash),
    Put(Hash, Payload),
    KeepAlive,
    IHave(Hash),
    Discover(PeerAddr),
}

impl View for Message {
    type V = MessageView;

    open spec fn view(&self) -> MessageView {
        match self {
            Message::Get(h) => MessageView::Get(h@),
            Message::Put(h, p) => MessageView::Put(h@, p@),
            Message::KeepAlive => MessageView::KeepAlive,
            Message::IHave(h) => MessageView::IHave(h@),
            Message::Discover(a) => MessageView::Discover(a@),
        }
    }
}

impl Message {
    /// An independent copy of the message.
    pub fn duplicate(&self) -> (r: Message)
        ensures
            r@ == self@,
    {
        match self {
            Message::Get(h) => Message::Get(*h),
            Message::Put(h, p) => Message::Put(*h, p.duplicate()),
            Message::KeepAlive => Message::KeepAlive,
            Message::IHave(h) => Message::IHave(*h),
            Message::Discover(a) => Message::Discover(*a),
        }
    }

    /// Whether the message can be written in a frame: its payload, if any, is
    /// at most 65535 bytes long.
    pub fn fits(&self) -> (r: bool)
        ensures
            r == well_formed(self@),
    {
        match self {
            Message::Put(_, payload) => payload.0.len() <= MAX_PAYLOAD,
            _ => true,
        }
    }

    /// The message type -> id conversion.
    fn type_identifier(&self) -> (r: u8)
        ensures
            r == tag_of(self@),
    {
        match self {
            Message::Get(_) => 0,
            Message::Put(_, _) => 1,
            Message::KeepAlive => 2,
            Message::IHave(_) => 3,
            Message::Discover(_) => 4,
        }
    }

    /// The length of the message's frame.
    pub fn frame_len(&self) -> (n: usize)
        requires
            well_formed(self@),
        ensures
            n == frame_of(self@).len(),
    {
        let id = self.type_identifier();
        match self {
            Message::Get(hash) => id.frame_len() + hash.frame_len(),
            Message::Put(hash, payload) => id.frame_len() + hash.frame_len() + payload.frame_len(),
            Message::KeepAlive => id.frame_len(),
            Message::IHave(hash) => id.frame_len() + hash.frame_len(),
            Message::Discover(addr) => id.frame_len() + addr.frame_len(),
        }
    }

    /// Serialize a message into a vector of bytes.
    pub fn serialize(&self) -> (r: Vec<u8>)
        requires
            well_formed(self@),
        ensures
            r@ == frame_of(self@),
    {
        let id = self.type_identifier();
        let mut msg: Vec<u8> = Vec::with_capacity(self.frame_len());
        id.push_in_frame(&mut msg);
        match self {
            Message::Get(hash) => {
                hash.push_in_frame(&mut msg);
            },
            Message::Put(hash, payload) => {
                hash.push_in_frame(&mut msg);
                payload.push_in_frame(&mut msg);
            },
            Message::KeepAlive => {},
            Message::IHave(hash) => {
                hash.push_in_frame(&mut msg);
            },
            Message::Discover(addr) => {
                addr.push_in_frame(&mut msg);
            },
        }
        assert(msg@ =~= frame_of(self@));
        msg
    }

    /// Deserialize a buffer into a message; bytes after the message are ignored.
    pub fn deserialize(buf: &[u8]) -> (r: Result<Message, DecodeError>)
        ensures
            result_view(r) == parse_frame(buf@),
    {
        let id = u8::pull(buf)?;
        let body = slice_subrange(buf, 1, buf.len());
        if id == 0 {
            let hash = Hash::pull(body)?;
            Ok(Message::Get(hash))
        } else if id == 1 {
            let hash = Hash::pull(body)?;
            let rest = slice_subrange(buf, 1 + HASH_SIZE, buf.len());
            assert(rest@ =~= buf@.subrange(1 + HASH_SIZE, buf@.len() as int));
            let payload = Payload::pull(rest)?;
            Ok(Message::Put(hash, payload))
        } else if id == 2 {
            Ok(Message::KeepAlive)
        } else if id == 3 {
            let hash = Hash::pull(body)?;
            Ok(Message::IHave(hash))
        } else if id == 4 {
            let addr = PeerAddr::pull(body)?;
            Ok(Message::Discover(addr))
        } else {
            Err(DecodeError::InvalidMessageType)
        }
    }
}

// ---------------------------------------------------------------------------
// Laws of the codec.
// ---------------------------------------------------------------------------

proof fn lemma_be16(n: int)
    requires
        0 <= n < 65536,
    ensures
        be16(n).len() == 2,
        be16_value(be16(n)[0], be16(n)[1]) == n,
{
    assert(0 <= n / 256 < 256) by (nonlinear_arith)
        requires
            0 <= n < 65536,
    ;
    assert((n / 256) * 256 + n % 256 == n) by (nonlinear_arith);
}

/// Decoding the frame of a well-formed message gives back that message.
pub proof fn lemma_round_trip(m: MessageView)
    requires
        well_formed(m),
    ensures
        parse_frame(frame_of(m)) == Ok::<MessageView, DecodeError>(m),
{
    let f = frame_of(m);
    let body = f.subrange(1, f.len() as int);
    match m {
        MessageView::Get(h) => {
            assert(body =~= h);
            assert(body.subrange(0, HASH_SIZE as int) =~= h);
        },
        MessageView::Put(h, p) => {
            lemma_be16(p.len() as int);
            assert(body.subrange(0, HASH_SIZE as int) =~= h);
            let rest = f.subrange(1 + HASH_SIZE, f.len() as int);
            assert(rest =~= payload_frame(p));
            assert(rest.subrange(2, 2 + p.len() as int) =~= p);
        },
        MessageView::KeepAlive => {},
        MessageView::IHave(h) => {
            assert(body =~= h);
            assert(body.subrange(0, HASH_SIZE as int) =~= h);
        },
        MessageView::Discover(a) => {
            assert(body =~= addr_frame(a));
            match a {
                AddrView::V4(ip, port) => {
                    lemma_be16(port as int);
                    assert(body.subrange(1, 5) =~= ip);
                },
                AddrView::V6(ip, port) => {
                    lemma_be16(port as int);
                    assert(body.subrange(1, 17) =~= ip);
                },
            }
        },
    }
}

/// Every proper prefix of the frame of a well-formed message, the empty one
/// included, is rejected as too short.
pub proof fn lemma_truncated_frame(m: MessageView, k: int)
    requires
        well_formed(m),
        0 <= k < frame_of(m).len(),
    ensures
        parse_frame(frame_of(m).subrange(0, k)) == Err::<MessageView, DecodeError>(
            DecodeError::MessageTooShort,
        ),
{
    let f = frame_of(m);
    let b = f.subrange(0, k);
    if k > 0 {
        assert(b[0] == f[0]);
        let body = b.subrange(1, k);
        match m {
            MessageView::Put(h, p) => {
                if k >= 1 + HASH_SIZE + 2 {
                    lemma_be16(p.len() as int);
                    let rest = b.subrange(1 + HASH_SIZE, k);
                    assert(rest[0] == f[1 + HASH_SIZE]);
                    assert(rest[1] == f[2 + HASH_SIZE]);
                    assert(f.subrange(1 + HASH_SIZE, 3 + HASH_SIZE) =~= be16(p.len() as int));
                }
            },
            MessageView::Discover(a) => {
                if k >= 2 {
                    assert(body[0] == f[1]);
                }
            },
            _ => {},
        }
    }
}

// ---------------------------------------------------------------------------
// The datagram codec.
// ---------------------------------------------------------------------------

/// The datagram codec: a message together with the address it came from or
/// goes to.
pub struct UdpMessage;

impl UdpMessage {
    /// Decode a datagram received from `addr`.
    pub fn decode(&mut self, addr: &PeerAddr, buf: &[u8]) -> (r: Result<(PeerAddr, Message), DecodeError>)
        ensures
            match r {
                Ok((a, m)) => a@ == addr@ && parse_frame(buf@) == Ok::<MessageView, DecodeError>(m@),
                Err(e) => parse_frame(buf@) == Err::<MessageView, DecodeError>(e),
            },
    {
        match Message::deserialize(buf) {
            Ok(msg) => Ok((*addr, msg)),
            Err(e) => Err(e),
        }
    }

    /// Append the frame of a message to `buf`, and give back where it goes.
    pub fn encode(&mut self, out: (PeerAddr, Message), buf: &mut Vec<u8>) -> (r: PeerAddr)
        requires
            well_formed(out.1@),
        ensures
            final(buf)@ == old(buf)@ + frame_of(out.1@),
            r@ == out.0@,
    {
        let (addr, msg) = out;
        let frame = msg.serialize();
        push_bytes(buf, frame.as_slice());
        addr
    }
}

} // verus!
