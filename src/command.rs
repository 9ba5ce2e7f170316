use vstd::prelude::*;

verus! {

/// One fixed-size report sent to the device.
pub type Packet = [u8; 64];

/// Largest payload one outgoing profile packet carries.
pub const OUT_PACKET_DATA_LENGTH: usize = 58;

/// Length of the profile kind other than the light profile.
pub const PACKET_DATA_LENGTH: usize = 680;

/// Profile kind byte of the light profile.
pub const LIGHT_PROFILE_NUMBER: u8 = 32;

/// Command class byte that starts every outgoing command.
pub const COMMAND_CLASS: u8 = 15;

/// Sub-command: read a profile chunk.
pub const READ_PROFILE: u8 = 4;

/// Sub-command: write a profile chunk.
pub const WRITE_PROFILE: u8 = 3;

/// Number of packets that carry `len` bytes, 58 at a time.
pub open spec fn chunk_count(len: int) -> int {
    len / 58 + if len % 58 == 0 {
        0int
    } else {
        1int
    }
}

/// Offset, within the transfer, of chunk `i`.
pub open spec fn chunk_offset(i: int) -> int {
    58 * i
}

/// Length of chunk `i` of a transfer of `len` bytes.
pub open spec fn chunk_len(len: int, i: int) -> int {
    if len - chunk_offset(i) < 58 {
        len - chunk_offset(i)
    } else {
        58
    }
}

/// Sum of the lengths of the first `k` chunks of a transfer of `len` bytes.
pub open spec fn chunks_total(len: int, k: nat) -> int
    decreases k,
{
    if k == 0 {
        0
    } else {
        chunks_total(len, (k - 1) as nat) + chunk_len(len, k - 1)
    }
}

/// The six header bytes of a profile chunk packet: command class, sub-command,
/// light profile kind, two-byte offset (high byte first) and chunk length.
pub open spec fn chunk_header(p: Seq<u8>, sub: u8, offset: int, n: int) -> bool {
    &&& p.len() == 64
    &&& p[0] == COMMAND_CLASS
    &&& p[1] == sub
    &&& p[2] == LIGHT_PROFILE_NUMBER
    &&& p[3] == offset / 256
    &&& p[4] == offset % 256
    &&& p[5] == n
}

/// Packet `i` of a read of a profile of `len` bytes.
pub open spec fn read_chunk_packet(p: Seq<u8>, len: int, i: int) -> bool {
    &&& chunk_header(p, READ_PROFILE, chunk_offset(i), chunk_len(len, i))
    &&& forall|j: int| 6 <= j < 64 ==> p[j] == 0
}

/// Packet `i` of a write of `data` starting at profile offset `start`.
pub open spec fn write_chunk_packet(p: Seq<u8>, data: Seq<u8>, start: int, i: int) -> bool {
    let n = chunk_len(data.len() as int, i);
    &&& chunk_header(p, WRITE_PROFILE, start + chunk_offset(i), n)
    &&& p.subrange(6, 6 + n) == data.subrange(chunk_offset(i), chunk_offset(i) + n)
    &&& forall|j: int| 6 + n <= j < 64 ==> p[j] == 0
}

proof fn lemma_chunks_total(len: nat, k: nat)
    requires
        k <= chunk_count(len as int),
    ensures
        chunks_total(len as int, k) == if 58 * k <= len {
            58 * (k as int)
        } else {
            len as int
        },
    decreases k,
{
    if k > 0 {
        lemma_chunks_total(len, (k - 1) as nat);
        assert(58 * (len as int / 58) <= len);
    }
}

/// Chunking a transfer of `len` bytes: offsets start at 0 and strictly
/// increase, each chunk holds 1 to 58 bytes, each starts where the previous
/// one ended, and the lengths add up to `len` exactly.
pub proof fn lemma_chunks_cover(len: nat)
    ensures
        chunk_offset(0) == 0,
        forall|i: int, j: int|
            0 <= i < j < chunk_count(len as int) ==> chunk_offset(i) < chunk_offset(j),
        forall|i: int|
            0 <= i < chunk_count(len as int) ==> 0 < #[trigger] chunk_len(len as int, i) <= 58,
        forall|i: int|
            0 <= i < chunk_count(len as int) - 1 ==> chunk_offset(i) + chunk_len(len as int, i)
                == chunk_offset(i + 1),
        chunks_total(len as int, chunk_count(len as int) as nat) == len,
{
    let n = chunk_count(len as int);
    assert(58 * (len as int / 58) <= len);
    assert(58 * n >= len);
    lemma_chunks_total(len, n as nat);
}

/// Chunk packets that read a profile of `total` bytes.
pub fn read_profile_packets(total: usize) -> (r: Vec<Packet>)
    requires
        total <= 65535,
    ensures
        r@.len() == chunk_count(total as int),
        forall|i: int| 0 <= i < r@.len() ==> read_chunk_packet(#[trigger] r@[i]@, total as int, i),
{
    let n: usize = total / OUT_PACKET_DATA_LENGTH + if total % OUT_PACKET_DATA_LENGTH == 0 {
        0
    } else {
        1
    };
    let mut packets: Vec<Packet> = Vec::new();
    let mut remaining: usize = total;
    let mut offset: usize = 0;
    let mut i: usize = 0;
    while i < n
        invariant
            n == chunk_count(total as int),
            total <= 65535,
            i <= n,
            packets@.len() == i,
            offset == 58 * i,
            i < n ==> remaining == total - offset,
            forall|k: int|
                0 <= k < i ==> read_chunk_packet(#[trigger] packets@[k]@, total as int, k),
        decreases n - i,
    {
        assert(offset < total) by {
            assert(58 * (total as int / 58) <= total);
        }
        let size: usize = if remaining < OUT_PACKET_DATA_LENGTH {
            remaining
        } else {
            OUT_PACKET_DATA_LENGTH
        };
        let mut packet: Packet = [0u8; 64];
        packet[0] = COMMAND_CLASS;
        packet[1] = READ_PROFILE;
        packet[2] = LIGHT_PROFILE_NUMBER;
        packet[3] = (offset / 256) as u8;
        packet[4] = (offset % 256) as u8;
        packet[5] = size as u8;
        assert(read_chunk_packet(packet@, total as int, i as int));
        packets.push(packet);
        remaining = if remaining < OUT_PACKET_DATA_LENGTH {
            0
        } else {
            remaining - OUT_PACKET_DATA_LENGTH
        };
        offset = offset + OUT_PACKET_DATA_LENGTH;
        i = i + 1;
    }
    packets
}

/// Chunk packets that read a whole profile: the light profile when
/// `is_light_profile` holds, the 680-byte kind otherwise.
pub fn get_read_profile_command(is_light_profile: bool) -> (r: Vec<Packet>)
    ensures
        ({
            let len: int = if is_light_profile {
                635
            } else {
                680
            };
            &&& r@.len() == chunk_count(len)
            &&& forall|i: int| 0 <= i < r@.len() ==> read_chunk_packet(#[trigger] r@[i]@, len, i)
        }),
{
    let total: usize = if is_light_profile {
        635
    } else {
        PACKET_DATA_LENGTH
    };
    read_profile_packets(total)
}


/// Chunk packets that write `data` into the light profile from offset
/// `start_index` on. Every packet offset must fit in two bytes.
pub fn build_write_profile_command(data: &[u8], start_index: usize) -> (r: Vec<Packet>)
    requires
        data@.len() == 0 || start_index + chunk_offset(chunk_count(data@.len() as int) - 1)
            <= 65535,
    ensures
        r@.len() == chunk_count(data@.len() as int),
        forall|i: int|
            0 <= i < r@.len() ==> write_chunk_packet(
                #[trigger] r@[i]@,
                data@,
                start_index as int,
                i,
            ),
{
    let n: usize = data.len() / OUT_PACKET_DATA_LENGTH + if data.len() % OUT_PACKET_DATA_LENGTH
        == 0 {
        0
    } else {
        1
    };
    let mut packets: Vec<Packet> = Vec::new();
    let mut remaining_bytes: usize = data.len();
    let mut i: usize = 0;
    while i < n
        invariant
            n == chunk_count(data@.len() as int),
            data@.len() == 0 || start_index + chunk_offset(n - 1) <= 65535,
            i <= n,
            packets@.len() == i,
            i < n ==> remaining_bytes == data@.len() - 58 * i,
            forall|k: int|
                0 <= k < i ==> write_chunk_packet(
                    #[trigger] packets@[k]@,
                    data@,
                    start_index as int,
                    k,
                ),
        decreases n - i,
    {
        assert(58 * i < data@.len()) by {
            assert(58 * (data@.len() as int / 58) <= data@.len());
        }
        let from: usize = data.len() - remaining_bytes;
        let offset: usize = start_index + from;
        let size: usize = if remaining_bytes < OUT_PACKET_DATA_LENGTH {
            remaining_bytes
        } else {
            OUT_PACKET_DATA_LENGTH
        };
        let mut packet: Packet = [0u8; 64];
        packet[0] = COMMAND_CLASS;
        packet[1] = WRITE_PROFILE;
        packet[2] = LIGHT_PROFILE_NUMBER;
        packet[3] = (offset / 256) as u8;
        packet[4] = (offset % 256) as u8;
        packet[5] = size as u8;
        let end: usize = from + size;
        let mut j: usize = 0;
        while j < size
            invariant
                size <= 58,
                end == from + size,
                from + size <= data@.len(),
                j <= size,
                chunk_header(packet@, WRITE_PROFILE, offset as int, size as int),
                forall|m: int| 6 <= m < 6 + j ==> #[trigger] packet@[m] == data@[from + m - 6],
                forall|m: int| 6 + j <= m < 64 ==> packet@[m] == 0,
            decreases size - j,
        {
            packet[6 + j] = data[from + j];
            j = j + 1;
        }
        assert(packet@.subrange(6, 6 + size as int) =~= data@.subrange(
            from as int,
            from + size,
        ));
        assert(write_chunk_packet(packet@, data@, start_index as int, i as int));
        packets.push(packet);
        remaining_bytes = remaining_bytes - size;
        i = i + 1;
    }
    packets
}

} // verus!
