use vstd::prelude::*;

verus! {

/// `2^n`.
pub open spec fn pow2(n: nat) -> nat
    decreases n,
{
    if n == 0 {
        1
    } else {
        2 * pow2((n - 1) as nat)
    }
}

/// `side` is a power of two (1, 2, 4, ...).
pub open spec fn is_pow2(side: nat) -> bool
    decreases side,
{
    if side <= 1 {
        side == 1
    } else {
        side % 2 == 0 && is_pow2(side / 2)
    }
}

/// The base-two logarithm of a power of two.
pub open spec fn log2(side: nat) -> nat
    decreases side,
{
    if side <= 1 {
        0
    } else {
        1 + log2(side / 2)
    }
}

/// Z-order index of `(x, y, z)` over `bits` bits per axis: bit `i` of `x`,
/// `y` and `z` lands on bit `3i`, `3i + 1` and `3i + 2` of the index.
pub open spec fn morton(x: nat, y: nat, z: nat, bits: nat) -> nat
    decreases bits,
{
    if bits == 0 {
        0
    } else {
        (x % 2) + 2 * (y % 2) + 4 * (z % 2) + 8 * morton(x / 2, y / 2, z / 2, (bits - 1) as nat)
    }
}

/// The coordinate whose bits sit at offset `axis` (0, 1 or 2) of each
/// group of three bits of a Z-order index.
pub open spec fn unmorton(index: nat, axis: nat, bits: nat) -> nat
    decreases bits,
{
    if bits == 0 {
        0
    } else {
        (index / pow2(axis)) % 2 + 2 * unmorton(index / 8, axis, (bits - 1) as nat)
    }
}

/// Identifier of the chunk at chunk coordinate `(x, y, z)`:
/// `x + 32 y + 1024 z`, kept to 32 bits.
pub open spec fn chunk_id_spec(x: u32, y: u32, z: u32) -> u32 {
    ((x as nat + 32 * (y as nat) + 1024 * (z as nat)) % 0x1_0000_0000) as u32
}

pub proof fn lemma_log2_pow2(side: nat)
    requires
        is_pow2(side),
    ensures
        pow2(log2(side)) == side,
    decreases side,
{
    if side > 1 {
        lemma_log2_pow2(side / 2);
    }
}

/// A Z-order index over `bits` bits per axis stays below `8^bits`, that
/// is `pow2(bits)` cubed.
pub proof fn lemma_morton_bound(x: nat, y: nat, z: nat, bits: nat)
    requires
        x < pow2(bits),
        y < pow2(bits),
        z < pow2(bits),
    ensures
        morton(x, y, z, bits) < pow2(bits) * pow2(bits) * pow2(bits),
    decreases bits,
{
    if bits > 0 {
        let b = (bits - 1) as nat;
        lemma_morton_bound(x / 2, y / 2, z / 2, b);
        let p = pow2(b);
        let m = morton(x / 2, y / 2, z / 2, b);
        assert(m + 1 <= p * p * p);
        assert(8 * m + 8 <= 8 * (p * p * p)) by (nonlinear_arith)
            requires m + 1 <= p * p * p;
        assert((2 * p) * (2 * p) * (2 * p) == 8 * (p * p * p)) by (nonlinear_arith);
        assert(pow2(bits) == 2 * p);
        assert(morton(x, y, z, bits) == (x % 2) + 2 * (y % 2) + 4 * (z % 2) + 8 * m);
        let q = pow2(bits);
        let r = morton(x, y, z, bits);
        assert(r < q * q * q) by (nonlinear_arith)
            requires
                r < 8 * m + 8,
                8 * m + 8 <= 8 * (p * p * p),
                q == 2 * p,
        ;
    } else {
        assert(pow2(bits) == 1);
        assert(morton(x, y, z, bits) == 0);
        assert(pow2(bits) * pow2(bits) * pow2(bits) == 1);
    }
}

/// Decoding a Z-order index recovers each coordinate that fits in `bits`.
proof fn lemma_unmorton_morton(x: nat, y: nat, z: nat, bits: nat)
    requires
        x < pow2(bits),
        y < pow2(bits),
        z < pow2(bits),
    ensures
        unmorton(morton(x, y, z, bits), 0, bits) == x,
        unmorton(morton(x, y, z, bits), 1, bits) == y,
        unmorton(morton(x, y, z, bits), 2, bits) == z,
    decreases bits,
{
    reveal_with_fuel(pow2, 3);
    if bits == 0 {
    } else {
        let b = (bits - 1) as nat;
        lemma_unmorton_morton(x / 2, y / 2, z / 2, b);
        let m = morton(x / 2, y / 2, z / 2, b);
        let i = morton(x, y, z, bits);
        let low = (x % 2) + 2 * (y % 2) + 4 * (z % 2);
        assert(i == low + 8 * m);
        assert(i / 8 == m && i % 2 == x % 2 && (i / 2) % 2 == y % 2 && (i / 4) % 2 == z % 2)
            by (nonlinear_arith)
            requires
                i == low + 8 * m,
                low == (x % 2) + 2 * (y % 2) + 4 * (z % 2),
        ;
    }
}

/// Moving the Z-order index to its cell and back gives the same cell: for a
/// chunk side that is a power of two and a cell inside the chunk, decoding
/// the index that `encode_cell` gives returns `(x, y, z)`.
pub proof fn lemma_cell_round_trip(x: nat, y: nat, z: nat, side: nat)
    requires
        is_pow2(side),
        x < side,
        y < side,
        z < side,
    ensures
        unmorton(morton(x, y, z, log2(side)), 0, log2(side)) == x,
        unmorton(morton(x, y, z, log2(side)), 1, log2(side)) == y,
        unmorton(morton(x, y, z, log2(side)), 2, log2(side)) == z,
{
    lemma_log2_pow2(side);
    lemma_unmorton_morton(x, y, z, log2(side));
}

/// Within the grid, distinct chunk coordinates have distinct identifiers.
pub proof fn lemma_chunk_id_injective(x1: u32, y1: u32, z1: u32, x2: u32, y2: u32, z2: u32)
    requires
        x1 < 32,
        y1 < 32,
        z1 < 32,
        x2 < 32,
        y2 < 32,
        z2 < 32,
        (x1, y1, z1) != (x2, y2, z2),
    ensures
        chunk_id_spec(x1, y1, z1) != chunk_id_spec(x2, y2, z2),
{
    lemma_chunk_id_digits(x1, y1, z1);
    lemma_chunk_id_digits(x2, y2, z2);
}

/// Inside the grid the identifier keeps each coordinate as a base-32 digit.
proof fn lemma_chunk_id_digits(x: u32, y: u32, z: u32)
    requires
        x < 32,
        y < 32,
        z < 32,
    ensures
        chunk_id_spec(x, y, z) % 32 == x,
        (chunk_id_spec(x, y, z) / 32) % 32 == y,
        chunk_id_spec(x, y, z) / 1024 == z,
{
    let a: int = x as int + 32 * (y as int) + 1024 * (z as int);
    assert(0 <= a < 0x1_0000_0000);
    assert(a % 0x1_0000_0000 == a);
    assert(a % 32 == x as int && (a / 32) % 32 == y as int && a / 1024 == z as int)
        by (nonlinear_arith)
        requires
            a == x as int + 32 * (y as int) + 1024 * (z as int),
            0 <= x < 32,
            0 <= y < 32,
            0 <= z < 32,
    ;
}

/// Identifier of the chunk at chunk coordinate `(x, y, z)`. Callers check
/// grid bounds; outside them the value wraps to 32 bits and the call still
/// succeeds.
pub fn chunk_id(x: u32, y: u32, z: u32) -> (r: u32)
    ensures
        r == chunk_id_spec(x, y, z),
{
    let wide: u64 = x as u64 + 32 * (y as u64) + 1024 * (z as u64);
    (wide % 0x1_0000_0000) as u32
}

/// Z-order index of cell `(x, y, z)` inside a cube of `side` cells a side.
pub fn morton_encode(x: u32, y: u32, z: u32, side: u32) -> (r: u32)
    requires
        is_pow2(side as nat),
        side <= 1024,
        x < side,
        y < side,
        z < side,
    ensures
        r as nat == morton(x as nat, y as nat, z as nat, log2(side as nat)),
        (r as nat) < (side as nat) * (side as nat) * (side as nat),
{
    proof {
        lemma_log2_pow2(side as nat);
        lemma_morton_bound(x as nat, y as nat, z as nat, log2(side as nat));
        assert((side as nat) * (side as nat) * (side as nat) <= 1024 * 1024 * 1024)
            by (nonlinear_arith)
            requires side <= 1024;
    }
    let ghost cube: nat = (side as nat) * (side as nat) * (side as nat);
    let ghost target: nat = morton(x as nat, y as nat, z as nat, log2(side as nat));
    let mut acc: u32 = 0;
    let mut mult: u32 = 1;
    let mut xs: u32 = x;
    let mut ys: u32 = y;
    let mut zs: u32 = z;
    let mut s: u32 = side;
    while s > 1
        invariant
            is_pow2(s as nat),
            s >= 1,
            xs < s,
            ys < s,
            zs < s,
            cube <= 1024 * 1024 * 1024,
            (mult as nat) * ((s as nat) * (s as nat) * (s as nat)) == cube,
            acc < mult,
            acc + (mult as nat) * morton(xs as nat, ys as nat, zs as nat, log2(s as nat))
                == target,
        decreases s,
    {
        let low: u32 = (xs % 2) + 2 * (ys % 2) + 4 * (zs % 2);
        let ghost half: nat = (s / 2) as nat;
        let ghost inner: nat = morton((xs / 2) as nat, (ys / 2) as nat, (zs / 2) as nat, log2(half));
        proof {
            assert(log2(s as nat) == 1 + log2(half));
            assert(morton(xs as nat, ys as nat, zs as nat, log2(s as nat)) == low + 8 * inner);
            assert(s as nat == 2 * half);
            let m = mult as nat;
            assert(m * 8 * (half * half * half) == cube && 8 * m <= cube) by (nonlinear_arith)
                requires
                    m * ((2 * half) * (2 * half) * (2 * half)) == cube,
                    half >= 1,
            ;
            assert(acc + m * low < 8 * m && acc + m * (low + 8 * inner) == (acc + m * low) + (8 * m) * inner)
                by (nonlinear_arith)
                requires
                    acc < m,
                    low <= 7,
            ;
        }
        acc = acc + mult * low;
        mult = mult * 8;
        xs = xs / 2;
        ys = ys / 2;
        zs = zs / 2;
        s = s / 2;
    }
    assert(log2(s as nat) == 0);
    assert(morton(xs as nat, ys as nat, zs as nat, 0) == 0);
    assert((mult as nat) * 0 == 0);
    acc
}

/// Cell coordinates `(x, y, z)` inside a cube of `side` cells a side whose
/// Z-order index is `index` (bits above the cube are ignored).
pub fn morton_decode(index: u32, side: u32) -> (r: (u32, u32, u32))
    requires
        is_pow2(side as nat),
        side <= 1024,
    ensures
        r.0 as nat == unmorton(index as nat, 0, log2(side as nat)),
        r.1 as nat == unmorton(index as nat, 1, log2(side as nat)),
        r.2 as nat == unmorton(index as nat, 2, log2(side as nat)),
{
    reveal_with_fuel(pow2, 3);
    let ghost bits: nat = log2(side as nat);
    let mut rx: u32 = 0;
    let mut ry: u32 = 0;
    let mut rz: u32 = 0;
    let mut mult: u32 = 1;
    let mut rest: u32 = index;
    let mut s: u32 = side;
    while s > 1
        invariant
            is_pow2(s as nat),
            s >= 1,
            side <= 1024,
            bits == log2(side as nat),
            (mult as nat) * (s as nat) == side as nat,
            rx < mult,
            ry < mult,
            rz < mult,
            rx + (mult as nat) * unmorton(rest as nat, 0, log2(s as nat)) == unmorton(index as nat, 0, bits),
            ry + (mult as nat) * unmorton(rest as nat, 1, log2(s as nat)) == unmorton(index as nat, 1, bits),
            rz + (mult as nat) * unmorton(rest as nat, 2, log2(s as nat)) == unmorton(index as nat, 2, bits),
        decreases s,
    {
        let ghost half: nat = (s / 2) as nat;
        let ghost r8: nat = (rest / 8) as nat;
        let bx: u32 = rest % 2;
        let by: u32 = (rest / 2) % 2;
        let bz: u32 = (rest / 4) % 2;
        proof {
            assert(pow2(0) == 1 && pow2(1) == 2 && pow2(2) == 4);
            assert((rest as nat) / 1 == rest as nat);
            assert(log2(s as nat) == 1 + log2(half));
            assert(unmorton(rest as nat, 0, log2(s as nat)) == bx + 2 * unmorton(r8, 0, log2(half)));
            assert(unmorton(rest as nat, 1, log2(s as nat)) == by + 2 * unmorton(r8, 1, log2(half)));
            assert(unmorton(rest as nat, 2, log2(s as nat)) == bz + 2 * unmorton(r8, 2, log2(half)));
            assert(s as nat == 2 * half);
            let m = mult as nat;
            assert(2 * m * half == side as nat && 2 * m <= 1024) by (nonlinear_arith)
                requires
                    m * (2 * half) == side as nat,
                    half >= 1,
                    side <= 1024,
            ;
            assert(forall|a: nat, b: nat, u: nat| a < m && b <= 1 ==> #[trigger] (a + m * (b + 2 * u))
                == (a + m * b) + (2 * m) * u && a + m * b < 2 * m) by {
                assert forall|a: nat, b: nat, u: nat| a < m && b <= 1 implies #[trigger] (a + m * (b + 2 * u))
                    == (a + m * b) + (2 * m) * u && a + m * b < 2 * m by {
                    assert((a + m * (b + 2 * u)) == (a + m * b) + (2 * m) * u && a + m * b < 2 * m)
                        by (nonlinear_arith)
                        requires
                            a < m,
                            b <= 1,
                    ;
                }
            }
        }
        rx = rx + mult * bx;
        ry = ry + mult * by;
        rz = rz + mult * bz;
        mult = mult * 2;
        rest = rest / 8;
        s = s / 2;
    }
    assert(log2(s as nat) == 0);
    assert(unmorton(rest as nat, 0, 0) == 0 && unmorton(rest as nat, 1, 0) == 0
        && unmorton(rest as nat, 2, 0) == 0);
    assert((mult as nat) * 0 == 0);
    (rx, ry, rz)
}

} // verus!
