//! Framing of the checkpoint engine's local streamer messages: each request
//! arrives as a four-byte little-endian length followed by one
//! length-delimited protocol-buffer entry whose single field names the next
//! image file.

use vstd::prelude::*;

verus! {

pub const KB: usize = 1024;

pub const MB: usize = 1024 * 1024;

/// The value of four little-endian bytes.
pub open spec fn spec_le32(b0: u8, b1: u8, b2: u8, b3: u8) -> u32 {
    (b0 + b1 * 0x100 + b2 * 0x10000 + b3 * 0x1000000) as u32
}

/// Reads a four-byte little-endian length prefix.
pub fn le32_of(b0: u8, b1: u8, b2: u8, b3: u8) -> (r: u32)
    ensures
        r == spec_le32(b0, b1, b2, b3),
{
    (b0 as u32) + (b1 as u32) * 0x100 + (b2 as u32) * 0x10000 + (b3 as u32) * 0x1000000
}

/// A framed message longer than ten kibibytes is corrupted framing: the
/// streamer requests are tiny.
pub fn frame_size_ok(size: u32) -> (r: bool)
    ensures
        r == (size < 10240),
{
    size < 10240
}

/// A base-128 variable-length integer at `i`: its value (unbounded) and the
/// index just past it.
pub open spec fn spec_parse_varint(b: Seq<u8>, i: int) -> Option<(int, int)>
    decreases b.len() - i,
{
    if i < 0 || i >= b.len() {
        None
    } else if b[i] < 128 {
        Some((b[i] as int, i + 1))
    } else {
        match spec_parse_varint(b, i + 1) {
            None => None,
            Some((v, j)) => Some(((b[i] - 128) + 128 * v, j)),
        }
    }
}

pub proof fn lemma_parse_varint_progress(b: Seq<u8>, i: int)
    requires
        spec_parse_varint(b, i) is Some,
    ensures
        i < spec_parse_varint(b, i).unwrap().1 <= b.len(),
    decreases b.len() - i,
{
    if 0 <= i < b.len() && b[i] >= 128 {
        lemma_parse_varint_progress(b, i + 1);
    }
}

/// Reads one variable-length integer, failing on values beyond 64 bits.
fn parse_varint(b: &Vec<u8>, i: usize) -> (r: Option<(u64, usize)>)
    requires
        i <= b@.len(),
    ensures
        match r {
            Some((v, j)) => spec_parse_varint(b@, i as int) == Some((v as int, j as int)) && i < j
                <= b@.len(),
            None => match spec_parse_varint(b@, i as int) {
                None => true,
                Some((v, _)) => v > u64::MAX,
            },
        },
    decreases b@.len() - i,
{
    if i >= b.len() {
        return None;
    }
    let x = b[i];
    if x < 128 {
        return Some((x as u64, i + 1));
    }
    match parse_varint(b, i + 1) {
        None => None,
        Some((v, j)) => {
            if v > (u64::MAX - (x - 128) as u64) / 128 {
                proof {
                    let tail = spec_parse_varint(b@, i + 1).unwrap().0;
                    assert((x - 128) + 128 * tail > u64::MAX) by (nonlinear_arith)
                        requires
                            tail == v as int,
                            v as int > ((u64::MAX - (x - 128)) as int) / 128,
                            0 <= (x - 128) < 128,
                    ;
                }
                None
            } else {
                Some(((x - 128) as u64 + 128 * v, j))
            }
        },
    }
}

/// The file name carried by one streamer request entry: one
/// length-delimited field with tag 1, filling the whole message.
pub open spec fn spec_streamer_request_filename(b: Seq<u8>) -> Option<Seq<u8>> {
    if b.len() > 0 && b[0] == 10 {
        match spec_parse_varint(b, 1) {
            None => None,
            Some((len, j)) => {
                if j + len == b.len() {
                    Some(b.subrange(j, b.len() as int))
                } else {
                    None
                }
            },
        }
    } else {
        None
    }
}

/// Decodes one streamer request entry: the bytes of the image file name it
/// carries, or nothing if the message is not such an entry.
pub fn streamer_request_filename(b: &Vec<u8>) -> (r: Option<Vec<u8>>)
    ensures
        match r {
            Some(name) => spec_streamer_request_filename(b@) == Some(name@),
            None => spec_streamer_request_filename(b@) is None,
        },
{
    let n: usize = b.len();
    if n == 0 || b[0] != 10 {
        return None;
    }
    let (len, j) = match parse_varint(b, 1) {
        None => {
            proof {
                if spec_parse_varint(b@, 1) is Some {
                    lemma_parse_varint_progress(b@, 1);
                }
            }
            return None;
        },
        Some(p) => p,
    };
    if j > n {
        return None;
    }
    if len != (n - j) as u64 {
        return None;
    }
    let mut name: Vec<u8> = Vec::new();
    let mut k: usize = j;
    proof {
        assert(name@ =~= b@.subrange(j as int, j as int));
    }
    while k < n
        invariant
            j <= k <= n,
            n == b@.len(),
            name@ == b@.subrange(j as int, k as int),
        decreases n - k,
    {
        name.push(b[k]);
        proof {
            assert(name@ =~= b@.subrange(j as int, k + 1));
        }
        k = k + 1;
    }
    Some(name)
}

} // verus!
