use crate::client::Ssm2;
use crate::error::Ssm2Error;
use vstd::prelude::*;
use vstd::slice::slice_subrange;

verus! {

/// First byte of every packet.
pub const HEADER_BYTE: u8 = 0x80;

/// Address byte of the control unit.
pub const ECU_BYTE: u8 = 0x10;

/// Address byte of the diagnostic tool, which is this program.
pub const TOOL_BYTE: u8 = 0xF0;

/// Index of the destination byte in a packet.
pub const DST_I: usize = 1;

/// Index of the source byte in a packet.
pub const SRC_I: usize = 2;

/// Index of the byte that holds the payload's length.
pub const NUM_I: usize = 3;

/// Bytes of a packet that are not payload: header, destination, source, length
/// and checksum.
pub const FRAMING_LEN: usize = 5;

/// The longest payload whose length fits the length byte.
pub const MAX_PAYLOAD: usize = 255;

/// Command byte that primes the control unit after the link is opened.
pub const CMD_INIT: u8 = 0xBF;

/// Command byte that writes a block of the control unit's memory.
pub const CMD_WRITE_BLOCK: u8 = 0xB0;

/// Command byte that writes single bytes of the control unit's memory.
pub const CMD_WRITE_SINGLE: u8 = 0xB8;

/// The sum of the bytes, as a natural number.
pub open spec fn byte_sum(bytes: Seq<u8>) -> nat
    decreases bytes.len(),
{
    if bytes.len() == 0 {
        0
    } else {
        byte_sum(bytes.drop_last()) + bytes.last() as nat
    }
}

/// The checksum of a run of bytes: their sum, of which the low eight bits are
/// kept.
pub open spec fn checksum(bytes: Seq<u8>) -> u8 {
    (byte_sum(bytes) % 256) as u8
}

/// The packet that carries `payload` from `src` to `dst`: header, destination,
/// source, the payload's length, the payload, and the checksum of all that
/// comes before it.
pub open spec fn frame(dst: u8, src: u8, payload: Seq<u8>) -> Seq<u8> {
    let head = seq![HEADER_BYTE, dst, src, payload.len() as u8] + payload;
    head.push(checksum(head))
}

/// The packet that carries `payload` from the tool to the control unit.
pub open spec fn request_packet(payload: Seq<u8>) -> Seq<u8> {
    frame(ECU_BYTE, TOOL_BYTE, payload)
}

/// The packet that carries `payload` from the control unit to the tool.
pub open spec fn response_packet(payload: Seq<u8>) -> Seq<u8> {
    frame(TOOL_BYTE, ECU_BYTE, payload)
}

/// The commands that write to the control unit. None of them is ever encoded.
pub open spec fn is_write_command(command: u8) -> bool {
    command == CMD_WRITE_BLOCK || command == CMD_WRITE_SINGLE
}

/// The length that the packet at index `i` of `buf` declares for itself: its
/// payload's length and the framing.
pub open spec fn packet_len_at(buf: Seq<u8>, i: int) -> int {
    buf[i + NUM_I] + FRAMING_LEN
}

/// Whether the bytes of `buf` from index `i` on begin with a structurally valid
/// response: at least the framing is there, the packet goes from the control
/// unit to the tool, all the bytes that it declares are there, and its last
/// byte is the checksum of those before it. The byte at `i` itself is not
/// looked at.
pub open spec fn valid_response_at(buf: Seq<u8>, i: int) -> bool {
    &&& 0 <= i
    &&& i + FRAMING_LEN <= buf.len()
    &&& buf[i + DST_I] == TOOL_BYTE
    &&& buf[i + SRC_I] == ECU_BYTE
    &&& i + packet_len_at(buf, i) <= buf.len()
    &&& checksum(buf.subrange(i, i + packet_len_at(buf, i) - 1)) == buf[i + packet_len_at(buf, i)
        - 1]
}

/// Whether a response packet starts at index `i` of `buf`: a header byte stands
/// there and a structurally valid response begins with it.
pub open spec fn is_candidate(buf: Seq<u8>, i: int) -> bool {
    0 <= i < buf.len() && buf[i] == HEADER_BYTE && valid_response_at(buf, i)
}

/// Whether the first response packet of `buf` starts at index `i`.
pub open spec fn is_first_candidate(buf: Seq<u8>, i: int) -> bool {
    is_candidate(buf, i) && forall|j: int| 0 <= j < i ==> !is_candidate(buf, j)
}

/// Where the first response packet of `buf` starts and how long it is, if `buf`
/// holds one.
pub open spec fn first_packet(buf: Seq<u8>) -> Option<(int, int)> {
    if exists|i: int| is_candidate(buf, i) {
        let start = choose|i: int| is_first_candidate(buf, i);
        Some((start, packet_len_at(buf, start)))
    } else {
        None
    }
}

impl Ssm2 {
    /// Computes the checksum of `packet`.
    pub fn calculate_checksum(packet: &[u8]) -> (sum: u8)
        ensures
            sum == checksum(packet@),
    {
        let mut sum: u8 = 0;
        let mut i: usize = 0;
        while i < packet.len()
            invariant
                i <= packet@.len(),
                sum == checksum(packet@.subrange(0, i as int)),
            decreases packet@.len() - i,
        {
            proof {
                let seen = packet@.subrange(0, i as int);
                assert(packet@.subrange(0, i + 1) =~= seen.push(packet@[i as int]));
                lemma_checksum_push(seen, packet@[i as int]);
            }
            sum = sum.wrapping_add(packet[i]);
            i += 1;
        }
        assert(packet@.subrange(0, i as int) =~= packet@);
        sum
    }

    /// Builds the request packet for `command` followed by the bytes of
    /// `extra`. A command that writes to the control unit is refused, whatever
    /// follows it.
    pub fn encode_request(command: u8, extra: &[u8]) -> (res: Result<Vec<u8>, Ssm2Error>)
        requires
            1 + extra@.len() <= MAX_PAYLOAD,
        ensures
            res is Err <==> is_write_command(command),
            res matches Err(e) ==> e == Ssm2Error::UnsupportedOperation,
            res matches Ok(packet) ==> packet@ == request_packet(seq![command] + extra@),
            res matches Ok(packet) ==> packet@.len() == 1 + extra@.len() + FRAMING_LEN
                && packet@[NUM_I as int] == 1 + extra@.len() && packet@[4] == command,
    {
        if command == CMD_WRITE_BLOCK || command == CMD_WRITE_SINGLE {
            return Err(Ssm2Error::UnsupportedOperation);
        }
        let ghost payload = seq![command] + extra@;
        proof {
            lemma_frame_layout(ECU_BYTE, TOOL_BYTE, payload);
        }
        let mut packet: Vec<u8> = Vec::new();
        packet.push(HEADER_BYTE);
        packet.push(ECU_BYTE);
        packet.push(TOOL_BYTE);
        packet.push((extra.len() + 1) as u8);
        packet.push(command);
        let mut i: usize = 0;
        while i < extra.len()
            invariant
                i <= extra@.len(),
                payload == seq![command] + extra@,
                packet@ == seq![HEADER_BYTE, ECU_BYTE, TOOL_BYTE, payload.len() as u8]
                    + payload.subrange(0, i + 1),
            decreases extra@.len() - i,
        {
            packet.push(extra[i]);
            i += 1;
        }
        assert(payload.subrange(0, i + 1) =~= payload);
        let sum = Ssm2::calculate_checksum(packet.as_slice());
        packet.push(sum);
        Ok(packet)
    }

    /// Checks whether `packet` begins with a structurally valid response from
    /// the control unit. Returns the length of that response, which is never
    /// zero, or zero where there is none.
    pub fn check_packet(packet: &[u8]) -> (len: usize)
        ensures
            valid_response_at(packet@, 0) ==> len == packet_len_at(packet@, 0),
            !valid_response_at(packet@, 0) ==> len == 0,
    {
        if packet.len() < FRAMING_LEN {
            return 0;
        }
        let dst_byte = packet[DST_I];
        let src_byte = packet[SRC_I];
        if dst_byte != TOOL_BYTE || src_byte != ECU_BYTE {
            return 0;
        }
        let packet_len: usize = packet[NUM_I] as usize + FRAMING_LEN;
        if packet_len > packet.len() {
            return 0;
        }
        let actual_sum = Ssm2::calculate_checksum(slice_subrange(packet, 0, packet_len - 1));
        let expect_sum = packet[packet_len - 1];
        if actual_sum != expect_sum {
            return 0;
        }
        packet_len
    }

    /// Looks for the first response packet in `buffer`, whatever stands before
    /// it or after it. Returns the index at which it starts and its length.
    ///
    /// Every header byte is tried as the start of a packet, in order. One that
    /// fails disqualifies only itself: the search goes on with the next header
    /// byte, also where that one lies inside the packet just refused.
    pub fn find_valid_packet(buffer: &[u8]) -> (res: Option<(usize, usize)>)
        ensures
            res matches Some((start, len)) ==> is_first_candidate(buffer@, start as int) && len
                == packet_len_at(buffer@, start as int) && start + len <= buffer@.len(),
            res is None ==> forall|i: int| !is_candidate(buffer@, i),
            res matches Some((start, len)) ==> first_packet(buffer@) == Some(
                (start as int, len as int),
            ),
            res is None ==> first_packet(buffer@) is None,
    {
        let mut index: usize = 0;
        while index < buffer.len()
            invariant
                index <= buffer@.len(),
                forall|j: int| 0 <= j < index ==> !is_candidate(buffer@, j),
            decreases buffer@.len() - index,
        {
            if buffer[index] == HEADER_BYTE {
                let length = Ssm2::check_packet(slice_subrange(buffer, index, buffer.len()));
                proof {
                    lemma_valid_response_shift(buffer@, index as int);
                }
                if length != 0 {
                    proof {
                        lemma_first_packet_found(buffer@, index as int);
                    }
                    return Some((index, length));
                }
            }
            index += 1;
        }
        proof {
            lemma_first_packet_absent(buffer@);
        }
        None
    }
}

/// Appending a byte adds it to the checksum, modulo 256.
pub proof fn lemma_checksum_push(bytes: Seq<u8>, byte: u8)
    ensures
        byte_sum(bytes.push(byte)) == byte_sum(bytes) + byte,
        checksum(bytes.push(byte)) == (checksum(bytes) + byte) % 256,
{
    assert(bytes.push(byte).drop_last() =~= bytes);
}

/// The layout of a packet: header, destination, source and the payload's
/// length, then the payload, then the checksum of all that comes before it.
/// The packet is longer than its payload by the framing.
pub proof fn lemma_frame_layout(dst: u8, src: u8, payload: Seq<u8>)
    requires
        payload.len() <= MAX_PAYLOAD,
    ensures
        frame(dst, src, payload).len() == payload.len() + FRAMING_LEN,
        frame(dst, src, payload)[0] == HEADER_BYTE,
        frame(dst, src, payload)[DST_I as int] == dst,
        frame(dst, src, payload)[SRC_I as int] == src,
        frame(dst, src, payload)[NUM_I as int] == payload.len(),
        frame(dst, src, payload).subrange(4, 4 + payload.len() as int) == payload,
        frame(dst, src, payload).last() == checksum(frame(dst, src, payload).drop_last()),
{
    let head = seq![HEADER_BYTE, dst, src, payload.len() as u8] + payload;
    assert(frame(dst, src, payload).drop_last() =~= head);
    assert(frame(dst, src, payload).subrange(4, 4 + payload.len() as int) =~= payload);
}

/// Whether a response begins at index `i` depends only on the bytes from `i`
/// on.
pub proof fn lemma_valid_response_shift(buf: Seq<u8>, i: int)
    requires
        0 <= i <= buf.len(),
    ensures
        valid_response_at(buf.subrange(i, buf.len() as int), 0) == valid_response_at(buf, i),
        i + FRAMING_LEN <= buf.len() ==> packet_len_at(buf.subrange(i, buf.len() as int), 0)
            == packet_len_at(buf, i),
{
    let rest = buf.subrange(i, buf.len() as int);
    if i + FRAMING_LEN <= buf.len() {
        let len = packet_len_at(buf, i);
        assert(packet_len_at(rest, 0) == len);
        if i + len <= buf.len() {
            assert(rest.subrange(0, len - 1) =~= buf.subrange(i, i + len - 1));
        }
    }
}

/// The first response packet is the one that starts where `is_first_candidate`
/// holds: there is at most one such index.
pub proof fn lemma_first_packet_found(buf: Seq<u8>, start: int)
    requires
        is_first_candidate(buf, start),
    ensures
        first_packet(buf) == Some((start, packet_len_at(buf, start))),
{
    let chosen = choose|i: int| is_first_candidate(buf, i);
    assert(is_first_candidate(buf, chosen));
    if chosen < start {
        assert(!is_candidate(buf, chosen));
    }
    if start < chosen {
        assert(!is_candidate(buf, start));
    }
}

/// A buffer in which no response packet starts has no first one.
pub proof fn lemma_first_packet_absent(buf: Seq<u8>)
    requires
        forall|j: int| 0 <= j < buf.len() ==> !is_candidate(buf, j),
    ensures
        first_packet(buf) is None,
        forall|i: int| !is_candidate(buf, i),
{
}

/// A buffer has at most one first response packet.
pub proof fn lemma_first_candidate_unique(buf: Seq<u8>, i: int, j: int)
    requires
        is_first_candidate(buf, i),
        is_first_candidate(buf, j),
    ensures
        i == j,
{
    if i < j {
        assert(!is_candidate(buf, i));
    }
    if j < i {
        assert(!is_candidate(buf, j));
    }
}

/// Whatever stands before a response packet, the search finds a packet: the
/// first one of the buffer, which starts no later.
pub proof fn lemma_first_packet_exists(buf: Seq<u8>, i: int)
    requires
        is_candidate(buf, i),
    ensures
        first_packet(buf) matches Some((start, len)) && start <= i && is_first_candidate(
            buf,
            start,
        ) && len == packet_len_at(buf, start),
    decreases i,
{
    if exists|j: int| 0 <= j < i && is_candidate(buf, j) {
        let j = choose|j: int| 0 <= j < i && is_candidate(buf, j);
        lemma_first_packet_exists(buf, j);
    } else {
        assert(is_first_candidate(buf, i));
        lemma_first_packet_found(buf, i);
    }
}

/// A well-formed response packet is accepted whole: it is a valid response of
/// its full length, and the first packet of the buffer that holds just it.
pub proof fn lemma_response_accepted(payload: Seq<u8>)
    requires
        payload.len() <= MAX_PAYLOAD,
    ensures
        valid_response_at(response_packet(payload), 0),
        packet_len_at(response_packet(payload), 0) == response_packet(payload).len(),
        first_packet(response_packet(payload)) == Some((0int, payload.len() + FRAMING_LEN)),
{
    let packet = response_packet(payload);
    lemma_frame_layout(TOOL_BYTE, ECU_BYTE, payload);
    assert(packet.subrange(0, packet.len() - 1) =~= packet.drop_last());
    assert(is_first_candidate(packet, 0));
    lemma_first_packet_found(packet, 0);
}

/// A request packet is never taken for a response: its destination and source
/// are the other way round.
pub proof fn lemma_request_refused(payload: Seq<u8>)
    ensures
        !valid_response_at(request_packet(payload), 0),
{
}

/// Noise before a response packet does not hide it, nor does anything after
/// it: unless a header byte of the noise happens to begin a valid response
/// itself, the search returns the packet, at the index at which it starts and
/// with its full length. Noise without a header byte is always such noise.
pub proof fn lemma_noise_tolerated(noise: Seq<u8>, payload: Seq<u8>, tail: Seq<u8>)
    requires
        payload.len() <= MAX_PAYLOAD,
        forall|j: int|
            0 <= j < noise.len() && noise[j] == HEADER_BYTE ==> !valid_response_at(
                noise + response_packet(payload) + tail,
                j,
            ),
    ensures
        first_packet(noise + response_packet(payload) + tail) == Some(
            (noise.len() as int, payload.len() + FRAMING_LEN),
        ),
{
    let packet = response_packet(payload);
    let buf = noise + packet + tail;
    let at = noise.len() as int;
    lemma_frame_layout(TOOL_BYTE, ECU_BYTE, payload);
    lemma_response_accepted(payload);
    assert(buf.subrange(at, at + packet.len() - 1) =~= packet.subrange(0, packet.len() - 1));
    assert(buf[at + 1] == packet[1] && buf[at + 2] == packet[2] && buf[at + 3] == packet[3]);
    assert(buf[at + packet.len() - 1] == packet[packet.len() - 1]);
    assert(valid_response_at(buf, at));
    assert(buf[at] == packet[0]);
    assert forall|j: int| 0 <= j < at implies !is_candidate(buf, j) by {
        assert(buf[j] == noise[j]);
    }
    lemma_first_packet_found(buf, at);
}

} // verus!
