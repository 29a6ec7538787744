use vstd::prelude::*;
use vstd::utf8::*;

verus! {

/// First byte of the start marker of a frame.
pub const PACKET_START1: u8 = 0xAA;
/// Second byte of the start marker of a frame.
pub const PACKET_START2: u8 = 0x55;
/// First byte of the end marker of a frame.
pub const PACKET_END1: u8 = 0x55;
/// Second byte of the end marker of a frame.
pub const PACKET_END2: u8 = 0xAA;

/// Opcode of a version request.
pub const LS_VERSION_REQ: u8 = 0x01;
/// Opcode of a server list request.
pub const LS_SERVER_LIST: u8 = 0xF5;
/// Opcode of a news request.
pub const LS_NEWS: u8 = 0xF6;
/// Opcode of a download information request.
pub const LS_DOWNLOAD_INFO_REQ: u8 = 0x02;
/// Opcode of a login request.
pub const LS_LOGIN_REQ: u8 = 0xF3;

/// Login accepted.
pub const AUTH_OK: u8 = 0x01;
/// Unknown account, wrong password or malformed request.
pub const AUTH_NOT_FOUND: u8 = 0x02;
/// Invalid password (part of the protocol, not sent by this server).
pub const AUTH_INVALID_PW: u8 = 0x03;
/// The account is blocked.
pub const AUTH_BANNED: u8 = 0x04;
/// The account is already in game.
pub const AUTH_IN_GAME: u8 = 0x05;
/// The account could not be checked.
pub const AUTH_FAILED: u8 = 0xFF;

/// Longest account name, in bytes.
pub const MAX_ID_SIZE: usize = 20;
/// Longest password, in bytes.
pub const MAX_PW_SIZE: usize = 12;
/// Longest payload that a frame may carry.
pub const MAX_PACKET_SIZE: usize = 8192;

/// Most bytes a connection may hold while waiting for a complete frame.
pub const MAX_BUFFERED_BYTES: usize = 65536;

/// Little-endian signed 16-bit value of the two bytes `lo`, `hi`.
pub open spec fn le_i16_value(lo: u8, hi: u8) -> int {
    lo + 256 * hi - (if hi >= 128 { 65536int } else { 0int })
}

/// The two little-endian bytes of `v`, for `0 <= v < 65536`.
pub open spec fn le_u16_bytes(v: int) -> Seq<u8> {
    seq![(v % 256) as u8, (v / 256) as u8]
}

/// The two little-endian bytes of the two's complement encoding of `v`.
pub open spec fn i16_le_bytes(v: i16) -> Seq<u8> {
    le_u16_bytes(if v < 0 { v + 65536 } else { v as int })
}

/// The length field that precedes a string or payload of `n` bytes: `n`
/// truncated to 16 bits, little-endian.
pub open spec fn len_field(n: nat) -> Seq<u8> {
    le_u16_bytes((n % 65536) as int)
}

/// A length-prefixed byte string.
pub open spec fn string2_bytes(bytes: Seq<u8>) -> Seq<u8> {
    len_field(bytes.len()) + bytes
}

/// A length-prefixed string: its UTF-8 bytes behind their length field.
pub open spec fn string2(chars: Seq<char>) -> Seq<u8> {
    string2_bytes(encode_utf8(chars))
}

/// What `read_i16` gives for `data` at `offset`.
pub open spec fn spec_read_i16(data: Seq<u8>, offset: int) -> Option<i16> {
    if 0 <= offset && offset + 2 <= data.len() {
        Some(le_i16_value(data[offset], data[offset + 1]) as i16)
    } else {
        None
    }
}

/// Appends the two little-endian bytes of `v` to `buf`.
pub fn push_i16_le(buf: &mut Vec<u8>, v: i16)
    ensures
        final(buf)@ == old(buf)@ + i16_le_bytes(v),
{
    let w: i32 = if v < 0 { v as i32 + 65536 } else { v as i32 };
    buf.push((w % 256) as u8);
    buf.push((w / 256) as u8);
    assert(final(buf)@ =~= old(buf)@ + i16_le_bytes(v));
}

/// Appends the length field for `n` bytes to `buf`.
pub fn push_len_field(buf: &mut Vec<u8>, n: usize)
    ensures
        final(buf)@ == old(buf)@ + len_field(n as nat),
{
    let m: usize = n % 65536;
    buf.push((m % 256) as u8);
    buf.push((m / 256) as u8);
    assert(final(buf)@ =~= old(buf)@ + len_field(n as nat));
}

/// Reads the little-endian `i16` at `offset`, or `None` when fewer than two
/// bytes are left there.
pub fn read_i16(data: &[u8], offset: usize) -> (r: Option<i16>)
    ensures
        r == spec_read_i16(data@, offset as int),
{
    if offset > data.len() || data.len() - offset < 2 {
        return None;
    }
    let lo: u8 = data[offset];
    let hi: u8 = data[offset + 1];
    let v: i32 = lo as i32 + 256 * (hi as i32) - if hi >= 128 { 65536i32 } else { 0i32 };
    Some(v as i16)
}

/// Appends `s` to `buf` as a length-prefixed string: the byte length
/// truncated to 16 bits, little-endian, then the UTF-8 bytes.
pub fn write_string2(buf: &mut Vec<u8>, s: &str)
    ensures
        final(buf)@ == old(buf)@ + string2(s@),
{
    let bytes: &[u8] = s.as_bytes();
    push_len_field(buf, bytes.len());
    let ghost start = buf@;
    let n: usize = bytes.len();
    let mut i: usize = 0;
    while i < n
        invariant
            n == bytes@.len(),
            bytes@ == encode_utf8(s@),
            i <= n,
            buf@ == start + bytes@.subrange(0, i as int),
        decreases n - i,
    {
        buf.push(bytes[i]);
        i += 1;
        assert(buf@ =~= start + bytes@.subrange(0, i as int));
    }
    assert(bytes@.subrange(0, n as int) =~= bytes@);
    assert(final(buf)@ =~= old(buf)@ + string2(s@));
}


/// The characters that an ASCII byte string stands for, byte for byte.
pub open spec fn ascii_chars(b: Seq<u8>) -> Seq<char> {
    Seq::new(b.len(), |i: int| b[i] as char)
}

/// A byte that may stand in an account name or password: an ASCII letter,
/// an ASCII digit or `_`.
pub open spec fn is_name_byte(b: u8) -> bool {
    ||| 0x30 <= b <= 0x39
    ||| 0x41 <= b <= 0x5A
    ||| 0x61 <= b <= 0x7A
    ||| b == 0x5F
}

/// Every byte of `b` is a name byte.
pub open spec fn all_name_bytes(b: Seq<u8>) -> bool {
    forall|i: int| 0 <= i < b.len() ==> is_name_byte(#[trigger] b[i])
}

/// What `read_string2` reads from `data` at `offset`: the bytes of the
/// string and the offset just past them. The length field must be
/// non-negative, the bytes must all be there, and each must be a name byte.
pub open spec fn spec_read_string2(data: Seq<u8>, offset: int) -> Option<(Seq<u8>, int)> {
    match spec_read_i16(data, offset) {
        None => None,
        Some(n) => {
            let start = offset + 2;
            let end = start + n;
            if n < 0 || end > data.len() {
                None
            } else if all_name_bytes(data.subrange(start, end)) {
                Some((data.subrange(start, end), end))
            } else {
                None
            }
        },
    }
}

/// A byte string of ASCII bytes is valid UTF-8 and decodes byte for byte.
pub proof fn lemma_ascii_utf8(b: Seq<u8>)
    requires
        forall|i: int| 0 <= i < b.len() ==> #[trigger] b[i] < 128,
    ensures
        valid_utf8(b),
        decode_utf8(b) == ascii_chars(b),
    decreases b.len(),
{
    if b.len() > 0 {
        let x = b[0];
        assert((x & 0x7f) == x) by (bit_vector)
            requires
                x < 128,
        ;
        let rest = b.subrange(1, b.len() as int);
        assert(pop_first_scalar(b) =~= rest);
        lemma_ascii_utf8(rest);
        assert(decode_utf8(b) =~= ascii_chars(b));
    }
}

/// Name bytes are ASCII, so they are valid UTF-8 and decode byte for byte.
pub proof fn lemma_name_bytes_utf8(b: Seq<u8>)
    requires
        all_name_bytes(b),
    ensures
        valid_utf8(b),
        decode_utf8(b) == ascii_chars(b),
{
    assert forall|i: int| 0 <= i < b.len() implies #[trigger] b[i] < 128 by {
        assert(is_name_byte(b[i]));
    }
    lemma_ascii_utf8(b);
}

/// `String::from_utf8`: the string that `bytes` encode, where they are
/// valid UTF-8. Claimed: the call succeeds exactly on valid UTF-8, and the
/// string then holds the decoded characters.
#[verifier::external_body]
fn string_from_utf8(bytes: Vec<u8>) -> (r: Option<String>)
    ensures
        r is Some <==> valid_utf8(bytes@),
        r matches Some(s) ==> s@ == decode_utf8(bytes@),
{
    String::from_utf8(bytes).ok()
}

fn is_name_byte_exec(b: u8) -> (r: bool)
    ensures
        r == is_name_byte(b),
{
    (0x30 <= b && b <= 0x39) || (0x41 <= b && b <= 0x5A) || (0x61 <= b && b <= 0x7A) || b == 0x5F
}

/// Reads a length-prefixed string at `offset`: a little-endian `i16`
/// length, then that many bytes, each an ASCII letter, digit or `_`.
/// Returns the string and the offset just past it.
#[verifier::loop_isolation(false)]
pub fn read_string2(data: &[u8], offset: usize) -> (r: Option<(String, usize)>)
    ensures
        r is Some <==> spec_read_string2(data@, offset as int) is Some,
        r matches Some((s, e)) ==> {
            let (b, e2) = spec_read_string2(data@, offset as int).unwrap();
            &&& e == e2
            &&& s@ == ascii_chars(b)
            &&& encode_utf8(s@) == b
        },
{
    let n: i16 = match read_i16(data, offset) {
        Some(n) => n,
        None => return None,
    };
    if n < 0 {
        return None;
    }
    let len: usize = n as usize;
    let dlen: usize = data.len();
    assert(offset + 2 <= dlen);
    let start: usize = offset + 2;
    if dlen - start < len {
        return None;
    }
    let end: usize = start + len;
    let bytes: &[u8] = vstd::slice::slice_subrange(data, start, end);
    let s: String = match string_from_utf8(vstd::slice::slice_to_vec(bytes)) {
        Some(s) => s,
        None => {
            proof {
                if all_name_bytes(bytes@) {
                    lemma_name_bytes_utf8(bytes@);
                }
            }
            return None;
        },
    };
    let mut i: usize = 0;
    while i < len
        invariant
            len == bytes@.len(),
            i <= len,
            forall|j: int| 0 <= j < i ==> is_name_byte(#[trigger] bytes@[j]),
        decreases len - i,
    {
        if !is_name_byte_exec(bytes[i]) {
            assert(!all_name_bytes(bytes@));
            return None;
        }
        i += 1;
    }
    proof {
        lemma_name_bytes_utf8(bytes@);
        decode_utf8_encode_utf8(bytes@);
    }
    Some((s, end))
}

/// What scanning a receive buffer for the next frame yields.
#[derive(Debug, PartialEq, Eq)]
pub enum FrameResult {
    /// A complete, valid frame: its payload, and the bytes it took up.
    Packet { payload: Vec<u8>, consumed: usize },
    /// Garbage or a corrupt frame: drop this many bytes and scan again.
    Skip { consumed: usize },
    /// No complete frame yet: wait for more bytes.
    NeedMore,
}

/// The mathematical value of a `FrameResult`.
pub enum FrameOutcome {
    Packet { payload: Seq<u8>, consumed: int },
    Skip { consumed: int },
    NeedMore,
}

impl View for FrameResult {
    type V = FrameOutcome;

    open spec fn view(&self) -> FrameOutcome {
        match self {
            FrameResult::Packet { payload, consumed } => FrameOutcome::Packet {
                payload: payload@,
                consumed: *consumed as int,
            },
            FrameResult::Skip { consumed } => FrameOutcome::Skip { consumed: *consumed as int },
            FrameResult::NeedMore => FrameOutcome::NeedMore,
        }
    }
}

/// A start marker begins at index `i` of `data`.
pub open spec fn marker_at(data: Seq<u8>, i: int) -> bool {
    &&& 0 <= i
    &&& i + 1 < data.len()
    &&& data[i] == PACKET_START1
    &&& data[i + 1] == PACKET_START2
}

/// The first start marker of `data` begins at index `i`.
pub open spec fn first_marker_at(data: Seq<u8>, i: int) -> bool {
    &&& marker_at(data, i)
    &&& forall|j: int| 0 <= j < i ==> !marker_at(data, j)
}

/// What `extract_frame` makes of the bytes `data`.
///
/// Without a start marker, everything but the last byte (which may be the
/// first half of a marker) is garbage. Garbage before the first marker is
/// skipped first. A frame at the front is the marker, a little-endian
/// `i16` length, the payload and the end marker; a length that is negative
/// or above `MAX_PACKET_SIZE`, or a wrong end marker, makes the scan skip
/// the start marker and resynchronise.
pub open spec fn spec_extract_frame(data: Seq<u8>) -> FrameOutcome {
    if !(exists|i: int| first_marker_at(data, i)) {
        if data.len() > 1 {
            FrameOutcome::Skip { consumed: data.len() - 1 }
        } else {
            FrameOutcome::NeedMore
        }
    } else {
        let pos = choose|i: int| first_marker_at(data, i);
        if pos > 0 {
            FrameOutcome::Skip { consumed: pos }
        } else if data.len() < 4 {
            FrameOutcome::NeedMore
        } else {
            let len = le_i16_value(data[2], data[3]);
            if len < 0 || len > MAX_PACKET_SIZE {
                FrameOutcome::Skip { consumed: 2 }
            } else if data.len() < len + 6 {
                FrameOutcome::NeedMore
            } else if data[4 + len] != PACKET_END1 || data[5 + len] != PACKET_END2 {
                FrameOutcome::Skip { consumed: 2 }
            } else {
                FrameOutcome::Packet { payload: data.subrange(4, 4 + len), consumed: len + 6 }
            }
        }
    }
}

/// The frame that carries `payload`: start marker, length field, payload,
/// end marker.
pub open spec fn spec_frame(payload: Seq<u8>) -> Seq<u8> {
    seq![PACKET_START1, PACKET_START2] + len_field(payload.len()) + payload + seq![
        PACKET_END1,
        PACKET_END2,
    ]
}

/// There is at most one first start marker.
pub proof fn lemma_first_marker_unique(data: Seq<u8>, a: int, b: int)
    requires
        first_marker_at(data, a),
        first_marker_at(data, b),
    ensures
        a == b,
{
    if a < b {
        assert(!marker_at(data, a));
    } else if b < a {
        assert(!marker_at(data, b));
    }
}

/// Finds the first start marker of `data`.
fn find_start_marker(data: &[u8]) -> (r: Option<usize>)
    ensures
        r matches Some(p) ==> first_marker_at(data@, p as int),
        r is None ==> forall|j: int| !marker_at(data@, j),
{
    let n: usize = data.len();
    let mut i: usize = 0;
    while n >= 2 && i < n - 1
        invariant
            n == data@.len(),
            i <= n,
            forall|j: int| 0 <= j < i ==> !marker_at(data@, j),
        decreases n - i,
    {
        if data[i] == PACKET_START1 && data[i + 1] == PACKET_START2 {
            return Some(i);
        }
        i += 1;
    }
    None
}

/// Scans `data` for the next frame (see `spec_extract_frame`).
pub fn extract_frame(data: &[u8]) -> (r: FrameResult)
    ensures
        r@ == spec_extract_frame(data@),
{
    let n: usize = data.len();
    let start_pos: usize = match find_start_marker(data) {
        Some(pos) => pos,
        None => {
            assert(!(exists|i: int| first_marker_at(data@, i)));
            return if n > 1 {
                FrameResult::Skip { consumed: n - 1 }
            } else {
                FrameResult::NeedMore
            };
        },
    };
    proof {
        let c = choose|i: int| first_marker_at(data@, i);
        lemma_first_marker_unique(data@, c, start_pos as int);
    }
    if start_pos > 0 {
        return FrameResult::Skip { consumed: start_pos };
    }
    if n < 4 {
        return FrameResult::NeedMore;
    }
    let lo: u8 = data[2];
    let hi: u8 = data[3];
    if hi >= 128 {
        return FrameResult::Skip { consumed: 2 };
    }
    let len: usize = lo as usize + 256 * (hi as usize);
    if len > MAX_PACKET_SIZE {
        return FrameResult::Skip { consumed: 2 };
    }
    let end_pos: usize = 4 + len;
    if n < end_pos + 2 {
        return FrameResult::NeedMore;
    }
    if data[end_pos] != PACKET_END1 || data[end_pos + 1] != PACKET_END2 {
        return FrameResult::Skip { consumed: 2 };
    }
    let payload: Vec<u8> = vstd::slice::slice_to_vec(vstd::slice::slice_subrange(data, 4, end_pos));
    FrameResult::Packet { payload, consumed: end_pos + 2 }
}

/// Wraps `payload` in a frame. The length field holds the payload length
/// truncated to 16 bits.
pub fn frame(payload: &[u8]) -> (r: Vec<u8>)
    ensures
        r@ == spec_frame(payload@),
{
    let mut out: Vec<u8> = Vec::new();
    out.push(PACKET_START1);
    out.push(PACKET_START2);
    push_len_field(&mut out, payload.len());
    let ghost start = out@;
    let n: usize = payload.len();
    let mut i: usize = 0;
    while i < n
        invariant
            n == payload@.len(),
            i <= n,
            out@ == start + payload@.subrange(0, i as int),
        decreases n - i,
    {
        out.push(payload[i]);
        i += 1;
        assert(out@ =~= start + payload@.subrange(0, i as int));
    }
    out.push(PACKET_END1);
    out.push(PACKET_END2);
    assert(payload@.subrange(0, n as int) =~= payload@);
    assert(out@ =~= spec_frame(payload@));
    out
}


/// Extracting a frame never consumes nothing and never more than it was
/// given, and a packet is the bytes between the length field and the end
/// marker.
pub proof fn lemma_extract_frame_progress(data: Seq<u8>)
    ensures
        spec_extract_frame(data) matches FrameOutcome::Skip { consumed } ==> 0 < consumed
            <= data.len(),
        spec_extract_frame(data) matches FrameOutcome::Packet { payload, consumed } ==> {
            &&& 6 <= consumed <= data.len()
            &&& payload.len() + 6 == consumed
            &&& payload.len() <= MAX_PACKET_SIZE
            &&& payload == data.subrange(4, consumed - 2)
        },
{
}

/// A frame that carries at most `MAX_PACKET_SIZE` bytes is extracted
/// whole from the front of a buffer, whatever follows it: what `frame`
/// wraps, `extract_frame` gives back.
pub proof fn lemma_frame_round_trip(payload: Seq<u8>, rest: Seq<u8>)
    requires
        payload.len() <= MAX_PACKET_SIZE,
    ensures
        spec_extract_frame(spec_frame(payload) + rest) == (FrameOutcome::Packet {
            payload,
            consumed: payload.len() + 6int,
        }),
{
    let data = spec_frame(payload) + rest;
    let n = payload.len() as int;
    assert(data[0] == PACKET_START1);
    assert(data[1] == PACKET_START2);
    assert(first_marker_at(data, 0));
    let c = choose|i: int| first_marker_at(data, i);
    lemma_first_marker_unique(data, c, 0);
    assert(data[2] == (n % 256) as u8);
    assert(data[3] == (n / 256) as u8);
    assert(le_i16_value(data[2], data[3]) == n);
    assert(data[4 + n] == PACKET_END1);
    assert(data[5 + n] == PACKET_END2);
    assert(data.subrange(4, 4 + n) =~= payload);
}

/// A scan decided by a start marker in the bytes at hand (a packet, or a
/// skip of garbage or of a corrupt frame) does not change when more bytes
/// arrive.
pub proof fn lemma_extract_frame_stable(data: Seq<u8>, more: Seq<u8>)
    requires
        exists|i: int| first_marker_at(data, i),
        !(spec_extract_frame(data) is NeedMore),
    ensures
        spec_extract_frame(data + more) == spec_extract_frame(data),
{
    let all = data + more;
    let c = choose|i: int| first_marker_at(data, i);
    assert(marker_at(all, c));
    assert forall|j: int| 0 <= j < c implies !marker_at(all, j) by {
        assert(!marker_at(data, j));
    }
    assert(first_marker_at(all, c));
    let c2 = choose|i: int| first_marker_at(all, i);
    lemma_first_marker_unique(all, c2, c);
    if c == 0 {
        let len = le_i16_value(data[2], data[3]);
        if 0 <= len <= MAX_PACKET_SIZE && data.len() >= len + 6 {
            assert(all.subrange(4, 4 + len) =~= data.subrange(4, 4 + len));
        }
    }
}

/// Once the bytes at hand hold a complete packet, bytes that arrive later
/// do not change it.
pub proof fn lemma_packet_stable(data: Seq<u8>, more: Seq<u8>)
    requires
        spec_extract_frame(data) is Packet,
    ensures
        spec_extract_frame(data + more) == spec_extract_frame(data),
{
    lemma_extract_frame_stable(data, more);
}

/// How a receive buffer splits into the payloads of its complete frames
/// and the bytes left over: frames are extracted one after the other,
/// garbage and corrupt frames are skipped, and what is left when more
/// bytes are needed stays buffered.
pub open spec fn spec_split_frames(data: Seq<u8>) -> (Seq<Seq<u8>>, Seq<u8>)
    decreases data.len(),
{
    match spec_extract_frame(data) {
        FrameOutcome::NeedMore => (seq![], data),
        FrameOutcome::Skip { consumed } => {
            if 0 < consumed <= data.len() {
                spec_split_frames(data.subrange(consumed, data.len() as int))
            } else {
                (seq![], data)
            }
        },
        FrameOutcome::Packet { payload, consumed } => {
            if 0 < consumed <= data.len() {
                let (ps, rest) = spec_split_frames(data.subrange(consumed, data.len() as int));
                (seq![payload] + ps, rest)
            } else {
                (seq![], data)
            }
        },
    }
}

/// A frame at the front of the buffer is delivered first, and the bytes
/// behind it are split as if they had arrived alone.
pub proof fn lemma_split_frames_front(payload: Seq<u8>, rest: Seq<u8>)
    requires
        payload.len() <= MAX_PACKET_SIZE,
    ensures
        spec_split_frames(spec_frame(payload) + rest) == (
            seq![payload] + spec_split_frames(rest).0,
            spec_split_frames(rest).1,
        ),
{
    let data = spec_frame(payload) + rest;
    lemma_frame_round_trip(payload, rest);
    assert(data.subrange(payload.len() + 6int, data.len() as int) =~= rest);
}

/// Bytes before `k` in which no start marker begins are garbage: the
/// buffer splits as if they were not there.
pub proof fn lemma_split_frames_skip_garbage(data: Seq<u8>, k: int)
    requires
        0 <= k < data.len(),
        forall|i: int| 0 <= i < k ==> !marker_at(data, i),
    ensures
        spec_split_frames(data) == spec_split_frames(data.subrange(k, data.len() as int)),
    decreases data.len(),
{
    if k == 0 {
        assert(data.subrange(0, data.len() as int) =~= data);
    } else {
        let rest = data.subrange(k, data.len() as int);
        if exists|i: int| first_marker_at(data, i) {
            let pos = choose|i: int| first_marker_at(data, i);
            assert(pos >= k);
            let k2 = pos - k;
            assert(rest.subrange(k2, rest.len() as int) =~= data.subrange(pos, data.len() as int));
            if k2 > 0 {
                assert forall|i: int| 0 <= i < k2 implies !marker_at(rest, i) by {
                    assert(!marker_at(data, i + k));
                }
                lemma_split_frames_skip_garbage(rest, k2);
            }
        } else {
            let k2 = data.len() - 1 - k;
            assert(rest.subrange(k2, rest.len() as int) =~= data.subrange(
                data.len() - 1,
                data.len() as int,
            ));
            assert forall|i: int| 0 <= i < k2 implies !marker_at(rest, i) by {
                assert(!marker_at(data, i + k)) by {
                    if marker_at(data, i + k) {
                        lemma_some_marker_gives_first(data, i + k);
                    }
                }
            }
            lemma_split_frames_skip_garbage(rest, k2);
        }
    }
}

/// Where a start marker begins, a first one begins too.
pub proof fn lemma_some_marker_gives_first(data: Seq<u8>, i: int)
    requires
        marker_at(data, i),
    ensures
        exists|j: int| first_marker_at(data, j),
    decreases i,
{
    if forall|j: int| 0 <= j < i ==> !marker_at(data, j) {
        assert(first_marker_at(data, i));
    } else {
        let j = choose|j: int| 0 <= j < i && marker_at(data, j);
        lemma_some_marker_gives_first(data, j);
    }
}

/// How the bytes of a connection are chunked on the way does not matter:
/// splitting `a` first and then what it left followed by `b` gives the
/// same payloads, in the same order, and leaves the same bytes as
/// splitting `a + b` at once.
pub proof fn lemma_split_frames_chunked(a: Seq<u8>, b: Seq<u8>)
    ensures
        spec_split_frames(a + b) == (
            spec_split_frames(a).0 + spec_split_frames(spec_split_frames(a).1 + b).0,
            spec_split_frames(spec_split_frames(a).1 + b).1,
        ),
    decreases a.len(),
{
    lemma_extract_frame_progress(a);
    let ab = a + b;
    match spec_extract_frame(a) {
        FrameOutcome::NeedMore => {
            assert(seq![] + spec_split_frames(ab).0 =~= spec_split_frames(ab).0);
        },
        FrameOutcome::Skip { consumed } => {
            let a2 = a.subrange(consumed, a.len() as int);
            lemma_split_frames_chunked(a2, b);
            if exists|i: int| first_marker_at(a, i) {
                lemma_extract_frame_stable(a, b);
                assert(ab.subrange(consumed, ab.len() as int) =~= a2 + b);
            } else {
                assert forall|i: int| 0 <= i < consumed implies !marker_at(ab, i) by {
                    if marker_at(ab, i) {
                        assert(marker_at(a, i));
                        lemma_some_marker_gives_first(a, i);
                    }
                }
                lemma_split_frames_skip_garbage(ab, consumed);
                assert(ab.subrange(consumed, ab.len() as int) =~= a2 + b);
            }
        },
        FrameOutcome::Packet { payload, consumed } => {
            let a2 = a.subrange(consumed, a.len() as int);
            lemma_split_frames_chunked(a2, b);
            lemma_extract_frame_stable(a, b);
            assert(ab.subrange(consumed, ab.len() as int) =~= a2 + b);
            let x = spec_split_frames(spec_split_frames(a2).1 + b);
            assert(seq![payload] + spec_split_frames(a2).0 + x.0 =~= seq![payload] + (
            spec_split_frames(a2).0 + x.0));
        },
    }
}

/// The views of a list of byte vectors.
pub open spec fn vec_views(v: Seq<Vec<u8>>) -> Seq<Seq<u8>> {
    v.map_values(|x: Vec<u8>| x@)
}

/// Splits the buffered bytes into the payloads of their complete frames,
/// in order, and keeps in `acc` only the bytes that still wait for more.
pub fn split_frames(acc: &mut Vec<u8>) -> (r: Vec<Vec<u8>>)
    ensures
        (vec_views(r@), final(acc)@) == spec_split_frames(old(acc)@),
{
    let n: usize = acc.len();
    let mut pos: usize = 0;
    let mut out: Vec<Vec<u8>> = Vec::new();
    assert(acc@.subrange(0, n as int) =~= acc@);
    assert(vec_views(out@) + spec_split_frames(acc@).0 =~= spec_split_frames(acc@).0);
    loop
        invariant
            n == acc@.len(),
            acc@ == old(acc)@,
            pos <= n,
            spec_split_frames(old(acc)@) == (
                vec_views(out@) + spec_split_frames(acc@.subrange(pos as int, n as int)).0,
                spec_split_frames(acc@.subrange(pos as int, n as int)).1,
            ),
        ensures
            n == acc@.len(),
            acc@ == old(acc)@,
            pos <= n,
            spec_split_frames(old(acc)@) == (vec_views(out@), acc@.subrange(pos as int, n as int)),
        decreases n - pos,
    {
        let rest: &[u8] = vstd::slice::slice_subrange(acc.as_slice(), pos, n);
        proof {
            lemma_extract_frame_progress(rest@);
        }
        match extract_frame(rest) {
            FrameResult::NeedMore => {
                assert(vec_views(out@) + seq![] =~= vec_views(out@));
                break;
            },
            FrameResult::Skip { consumed } => {
                assert(rest@.subrange(consumed as int, rest@.len() as int) =~= acc@.subrange(
                    pos + consumed,
                    n as int,
                ));
                pos = pos + consumed;
            },
            FrameResult::Packet { payload, consumed } => {
                assert(rest@.subrange(consumed as int, rest@.len() as int) =~= acc@.subrange(
                    pos + consumed,
                    n as int,
                ));
                let ghost before = out@;
                out.push(payload);
                assert(vec_views(out@) =~= vec_views(before) + seq![payload@]);
                pos = pos + consumed;
            },
        }
    }
    let left: Vec<u8> = vstd::slice::slice_to_vec(vstd::slice::slice_subrange(acc.as_slice(), pos, n));
    *acc = left;
    out
}


/// Takes bytes just received on a connection into its buffer `acc`. When
/// the buffer then holds more than `MAX_BUFFERED_BYTES`, the connection is
/// to be dropped and `None` comes back; otherwise the payloads of the
/// complete frames come back in order, and `acc` keeps what is left.
pub fn ingest(acc: &mut Vec<u8>, incoming: &[u8]) -> (r: Option<Vec<Vec<u8>>>)
    ensures
        old(acc)@.len() + incoming@.len() > MAX_BUFFERED_BYTES ==> r is None && final(acc)@ == old(
            acc,
        )@ + incoming@,
        old(acc)@.len() + incoming@.len() <= MAX_BUFFERED_BYTES ==> (r matches Some(frames) && (
        vec_views(frames@), final(acc)@) == spec_split_frames(old(acc)@ + incoming@)),
{
    let n: usize = incoming.len();
    let ghost start = acc@;
    let mut i: usize = 0;
    while i < n
        invariant
            n == incoming@.len(),
            i <= n,
            acc@ == start + incoming@.subrange(0, i as int),
        decreases n - i,
    {
        acc.push(incoming[i]);
        i += 1;
        assert(acc@ =~= start + incoming@.subrange(0, i as int));
    }
    assert(incoming@.subrange(0, n as int) =~= incoming@);
    if acc.len() > MAX_BUFFERED_BYTES {
        return None;
    }
    Some(split_frames(acc))
}

/// A payload whose first byte is the login opcode is a login request, which
/// the login flow answers rather than `handle`.
pub fn is_login_request(payload: &[u8]) -> (r: bool)
    ensures
        r == (payload@.len() > 0 && payload@[0] == LS_LOGIN_REQ),
{
    payload.len() > 0 && payload[0] == LS_LOGIN_REQ
}

/// An opcode that this server answers: version, download information,
/// server list, news or login.
pub fn is_known_opcode(opcode: u8) -> (r: bool)
    ensures
        r == (opcode == LS_VERSION_REQ || opcode == LS_DOWNLOAD_INFO_REQ || opcode == LS_SERVER_LIST
            || opcode == LS_NEWS || opcode == LS_LOGIN_REQ),
{
    opcode == LS_VERSION_REQ || opcode == LS_DOWNLOAD_INFO_REQ || opcode == LS_SERVER_LIST
        || opcode == LS_NEWS || opcode == LS_LOGIN_REQ
}

/// The little-endian bytes of an `i16` read back as that `i16`, wherever
/// they stand in a buffer.
pub proof fn lemma_i16_round_trip(buf: Seq<u8>, v: i16, rest: Seq<u8>)
    ensures
        spec_read_i16(buf + i16_le_bytes(v) + rest, buf.len() as int) == Some(v),
{
    let data = buf + i16_le_bytes(v) + rest;
    let n = buf.len() as int;
    let w: int = if v < 0 { v + 65536 } else { v as int };
    assert(data[n] == (w % 256) as u8);
    assert(data[n + 1] == (w / 256) as u8);
    assert(le_i16_value(data[n], data[n + 1]) == v);
}

/// A name written as a length-prefixed string reads back as itself, and
/// the read stops just past it: for a string of name bytes no longer than
/// `i16::MAX` bytes, `read_string2` undoes `write_string2`.
pub proof fn lemma_string2_round_trip(buf: Seq<u8>, s: Seq<char>, rest: Seq<u8>)
    requires
        all_name_bytes(encode_utf8(s)),
        encode_utf8(s).len() <= 32767,
    ensures
        spec_read_string2(buf + string2(s) + rest, buf.len() as int) == Some(
            (encode_utf8(s), buf.len() + 2int + encode_utf8(s).len()),
        ),
        ascii_chars(encode_utf8(s)) == s,
{
    let b = encode_utf8(s);
    let data = buf + string2(s) + rest;
    let n = buf.len() as int;
    let len = b.len() as int;
    assert(data[n] == (len % 256) as u8);
    assert(data[n + 1] == (len / 256) as u8);
    assert(le_i16_value(data[n], data[n + 1]) == len);
    assert(data.subrange(n + 2, n + 2 + len) =~= b);
    lemma_name_bytes_utf8(b);
    encode_utf8_decode_utf8(s);
}

/// A length-prefixed string is its UTF-8 byte count, truncated to 16 bits,
/// little-endian, followed by its UTF-8 bytes.
pub proof fn lemma_string2_layout(chars: Seq<char>)
    ensures
        ({
            let b = encode_utf8(chars);
            let n = b.len() % 65536;
            string2(chars) == seq![(n % 256) as u8, (n / 256) as u8] + b
        }),
{
    let b = encode_utf8(chars);
    let n = b.len() % 65536;
    assert(len_field(b.len()) =~= seq![(n % 256) as u8, (n / 256) as u8]);
}

/// The characters of an ASCII byte string are its bytes, one for one.
pub proof fn lemma_ascii_chars(b: Seq<u8>)
    ensures
        ascii_chars(b).len() == b.len(),
        forall|i: int| 0 <= i < b.len() ==> #[trigger] ascii_chars(b)[i] == b[i] as char,
{
}

/// `read_string2` accepts every string of ASCII letters (either case),
/// digits and `_` of at most `i16::MAX` bytes behind its little-endian
/// length, gives back exactly its bytes, and stops just past them.
pub proof fn lemma_read_string2_accepts_names(prefix: Seq<u8>, b: Seq<u8>, rest: Seq<u8>)
    requires
        b.len() <= 32767,
        forall|i: int|
            0 <= i < b.len() ==> ({
                let x = #[trigger] b[i];
                ||| 0x30 <= x <= 0x39
                ||| 0x41 <= x <= 0x5A
                ||| 0x61 <= x <= 0x7A
                ||| x == 0x5F
            }),
    ensures
        spec_read_string2(
            prefix + seq![(b.len() % 256) as u8, (b.len() / 256) as u8] + b + rest,
            prefix.len() as int,
        ) == Some((b, prefix.len() + 2int + b.len())),
{
    let data = prefix + seq![(b.len() % 256) as u8, (b.len() / 256) as u8] + b + rest;
    let n = prefix.len() as int;
    let len = b.len() as int;
    assert(le_i16_value(data[n], data[n + 1]) == len);
    assert(data.subrange(n + 2, n + 2 + len) =~= b);
    assert(all_name_bytes(b));
}

/// `read_string2` refuses a string holding any byte other than an ASCII
/// letter, digit or `_`.
pub proof fn lemma_read_string2_rejects_other_bytes(
    prefix: Seq<u8>,
    b: Seq<u8>,
    rest: Seq<u8>,
    j: int,
)
    requires
        b.len() <= 32767,
        0 <= j < b.len(),
        !({
            let x = b[j];
            ||| 0x30 <= x <= 0x39
            ||| 0x41 <= x <= 0x5A
            ||| 0x61 <= x <= 0x7A
            ||| x == 0x5F
        }),
    ensures
        spec_read_string2(
            prefix + seq![(b.len() % 256) as u8, (b.len() / 256) as u8] + b + rest,
            prefix.len() as int,
        ) is None,
{
    let data = prefix + seq![(b.len() % 256) as u8, (b.len() / 256) as u8] + b + rest;
    let n = prefix.len() as int;
    let len = b.len() as int;
    assert(le_i16_value(data[n], data[n + 1]) == len);
    assert(data.subrange(n + 2, n + 2 + len) =~= b);
    assert(!is_name_byte(b[j]));
}

/// `read_i16` reads the two bytes at `offset` as a little-endian two's
/// complement `i16` when both are there, and nothing otherwise.
pub proof fn lemma_read_i16_value(data: Seq<u8>, offset: int)
    ensures
        (0 <= offset && offset + 2 <= data.len()) ==> spec_read_i16(data, offset) == Some(
            (data[offset] + 256 * data[offset + 1] - (if data[offset + 1] >= 128 {
                65536int
            } else {
                0int
            })) as i16,
        ),
        !(0 <= offset && offset + 2 <= data.len()) ==> spec_read_i16(data, offset) is None,
{
}

/// The two little-endian bytes of an `i16`: its low byte, then its high
/// byte, in two's complement.
pub proof fn lemma_i16_le_bytes(v: i16)
    ensures
        ({
            let u: int = if v < 0 {
                v + 65536
            } else {
                v as int
            };
            i16_le_bytes(v) == seq![(u % 256) as u8, (u / 256) as u8]
        }),
{
}

/// A frame is `0xAA 0x55`, the payload length truncated to 16 bits,
/// little-endian, the payload, then `0x55 0xAA`.
pub proof fn lemma_frame_layout(payload: Seq<u8>)
    ensures
        ({
            let n = payload.len() % 65536;
            spec_frame(payload) == seq![0xAAu8, 0x55u8, (n % 256) as u8, (n / 256) as u8]
                + payload + seq![0x55u8, 0xAAu8]
        }),
{
    let n = payload.len() % 65536;
    assert(spec_frame(payload) =~= seq![0xAAu8, 0x55u8, (n % 256) as u8, (n / 256) as u8]
        + payload + seq![0x55u8, 0xAAu8]);
}

/// Without a start marker (`0xAA 0x55`) anywhere, all but the last byte are
/// skipped, and a buffer of at most one byte waits for more; with the first
/// marker past the front, the bytes before it are skipped.
pub proof fn lemma_extract_frame_garbage(data: Seq<u8>, pos: int)
    ensures
        (forall|i: int| 0 <= i < data.len() - 1 ==> !(#[trigger] data[i] == 0xAA && data[i + 1] == 0x55))
            ==> spec_extract_frame(data) == (if data.len() > 1 {
            FrameOutcome::Skip { consumed: data.len() - 1 }
        } else {
            FrameOutcome::NeedMore
        }),
        (0 < pos < data.len() - 1 && data[pos] == 0xAA && data[pos + 1] == 0x55 && forall|i: int|
            0 <= i < pos ==> !(#[trigger] data[i] == 0xAA && data[i + 1] == 0x55)) ==> spec_extract_frame(data)
            == (FrameOutcome::Skip { consumed: pos }),
{
    if forall|i: int| 0 <= i < data.len() - 1 ==> !(#[trigger] data[i] == 0xAA && data[i + 1] == 0x55) {
        assert forall|i: int| !first_marker_at(data, i) by {
            if first_marker_at(data, i) {
                assert(!(data[i] == 0xAA && data[i + 1] == 0x55));
            }
        }
    }
    if 0 < pos < data.len() - 1 && data[pos] == 0xAA && data[pos + 1] == 0x55 && forall|i: int|
        0 <= i < pos ==> !(#[trigger] data[i] == 0xAA && data[i + 1] == 0x55) {
        assert(first_marker_at(data, pos));
        let c = choose|i: int| first_marker_at(data, i);
        lemma_first_marker_unique(data, c, pos);
    }
}

/// A frame at the front whose length field is negative or above
/// `MAX_PACKET_SIZE`, or whose end marker is not `0x55 0xAA`, makes the scan
/// skip its start marker; one whose bytes have not all arrived waits.
pub proof fn lemma_extract_frame_front(data: Seq<u8>)
    requires
        data.len() >= 2,
        data[0] == 0xAA,
        data[1] == 0x55,
    ensures
        data.len() < 4 ==> spec_extract_frame(data) is NeedMore,
        data.len() >= 4 ==> ({
            let len = data[2] + 256 * data[3] - (if data[3] >= 128 {
                65536int
            } else {
                0int
            });
            &&& (len < 0 || len > 8192) ==> spec_extract_frame(data) == (FrameOutcome::Skip {
                consumed: 2,
            })
            &&& (0 <= len <= 8192 && data.len() < len + 6) ==> spec_extract_frame(data) is NeedMore
            &&& (0 <= len <= 8192 && data.len() >= len + 6 && !(data[4 + len] == 0x55 && data[5
                + len] == 0xAA)) ==> spec_extract_frame(data) == (FrameOutcome::Skip {
                consumed: 2,
            })
        }),
{
    assert(first_marker_at(data, 0));
    let c = choose|i: int| first_marker_at(data, i);
    lemma_first_marker_unique(data, c, 0);
}

} // verus!
