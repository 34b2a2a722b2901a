use vstd::prelude::*;

verus! {

/// Number of bytes in the length prefix of a frame.
pub const HEADER_LEN: usize = 4;

/// The big-endian number held in four bytes.
pub open spec fn be_u32(b0: u8, b1: u8, b2: u8, b3: u8) -> nat {
    (b0 as nat) * 0x100_0000 + (b1 as nat) * 0x1_0000 + (b2 as nat) * 0x100 + (b3 as nat)
}

/// Length of the body announced by a frame header.
pub fn frame_len(header: &[u8; 4]) -> (r: u32)
    ensures
        r as nat == be_u32(header@[0], header@[1], header@[2], header@[3]),
{
    let b0 = header[0] as u32;
    let b1 = header[1] as u32;
    let b2 = header[2] as u32;
    let b3 = header[3] as u32;
    b0 * 0x100_0000 + b1 * 0x1_0000 + b2 * 0x100 + b3
}

/// `body` preceded by its length as four big-endian bytes.
pub fn encode_frame(body: &Vec<u8>) -> (r: Vec<u8>)
    requires
        body.len() <= u32::MAX,
    ensures
        r@.len() == body@.len() + 4,
        be_u32(r@[0], r@[1], r@[2], r@[3]) == body@.len(),
        r@.subrange(4, r@.len() as int) == body@,
{
    let n = body.len() as u32;
    let b0 = (n / 0x100_0000) as u8;
    let b1 = ((n / 0x1_0000) % 0x100) as u8;
    let b2 = ((n / 0x100) % 0x100) as u8;
    let b3 = (n % 0x100) as u8;
    let mut r: Vec<u8> = Vec::new();
    r.push(b0);
    r.push(b1);
    r.push(b2);
    r.push(b3);
    for i in 0..body.len()
        invariant
            r@.len() == 4 + i,
            r@[0] == b0 && r@[1] == b1 && r@[2] == b2 && r@[3] == b3,
            r@.subrange(4, r@.len() as int) == body@.take(i as int),
    {
        r.push(body[i]);
        assert(r@.subrange(4, r@.len() as int) =~= body@.take(i + 1));
    }
    assert(body@.take(body@.len() as int) =~= body@);
    r
}

} // verus!
