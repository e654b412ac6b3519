use vstd::prelude::*;

verus! {

/// The AES S-box, used by SubBytes and by the key schedule.
pub const S_BOX: [u8; 256] = [
    0x63, 0x7c, 0x77, 0x7b, 0xf2, 0x6b, 0x6f, 0xc5, 0x30, 0x01, 0x67, 0x2b, 0xfe, 0xd7, 0xab, 0x76,
    0xca, 0x82, 0xc9, 0x7d, 0xfa, 0x59, 0x47, 0xf0, 0xad, 0xd4, 0xa2, 0xaf, 0x9c, 0xa4, 0x72, 0xc0,
    0xb7, 0xfd, 0x93, 0x26, 0x36, 0x3f, 0xf7, 0xcc, 0x34, 0xa5, 0xe5, 0xf1, 0x71, 0xd8, 0x31, 0x15,
    0x04, 0xc7, 0x23, 0xc3, 0x18, 0x96, 0x05, 0x9a, 0x07, 0x12, 0x80, 0xe2, 0xeb, 0x27, 0xb2, 0x75,
    0x09, 0x83, 0x2c, 0x1a, 0x1b, 0x6e, 0x5a, 0xa0, 0x52, 0x3b, 0xd6, 0xb3, 0x29, 0xe3, 0x2f, 0x84,
    0x53, 0xd1, 0x00, 0xed, 0x20, 0xfc, 0xb1, 0x5b, 0x6a, 0xcb, 0xbe, 0x39, 0x4a, 0x4c, 0x58, 0xcf,
    0xd0, 0xef, 0xaa, 0xfb, 0x43, 0x4d, 0x33, 0x85, 0x45, 0xf9, 0x02, 0x7f, 0x50, 0x3c, 0x9f, 0xa8,
    0x51, 0xa3, 0x40, 0x8f, 0x92, 0x9d, 0x38, 0xf5, 0xbc, 0xb6, 0xda, 0x21, 0x10, 0xff, 0xf3, 0xd2,
    0xcd, 0x0c, 0x13, 0xec, 0x5f, 0x97, 0x44, 0x17, 0xc4, 0xa7, 0x7e, 0x3d, 0x64, 0x5d, 0x19, 0x73,
    0x60, 0x81, 0x4f, 0xdc, 0x22, 0x2a, 0x90, 0x88, 0x46, 0xee, 0xb8, 0x14, 0xde, 0x5e, 0x0b, 0xdb,
    0xe0, 0x32, 0x3a, 0x0a, 0x49, 0x06, 0x24, 0x5c, 0xc2, 0xd3, 0xac, 0x62, 0x91, 0x95, 0xe4, 0x79,
    0xe7, 0xc8, 0x37, 0x6d, 0x8d, 0xd5, 0x4e, 0xa9, 0x6c, 0x56, 0xf4, 0xea, 0x65, 0x7a, 0xae, 0x08,
    0xba, 0x78, 0x25, 0x2e, 0x1c, 0xa6, 0xb4, 0xc6, 0xe8, 0xdd, 0x74, 0x1f, 0x4b, 0xbd, 0x8b, 0x8a,
    0x70, 0x3e, 0xb5, 0x66, 0x48, 0x03, 0xf6, 0x0e, 0x61, 0x35, 0x57, 0xb9, 0x86, 0xc1, 0x1d, 0x9e,
    0xe1, 0xf8, 0x98, 0x11, 0x69, 0xd9, 0x8e, 0x94, 0x9b, 0x1e, 0x87, 0xe9, 0xce, 0x55, 0x28, 0xdf,
    0x8c, 0xa1, 0x89, 0x0d, 0xbf, 0xe6, 0x42, 0x68, 0x41, 0x99, 0x2d, 0x0f, 0xb0, 0x54, 0xbb, 0x16,
];

/// The inverse of the AES S-box, used by InvSubBytes.
pub const INV_S_BOX: [u8; 256] = [
    0x52, 0x09, 0x6a, 0xd5, 0x30, 0x36, 0xa5, 0x38, 0xbf, 0x40, 0xa3, 0x9e, 0x81, 0xf3, 0xd7, 0xfb,
    0x7c, 0xe3, 0x39, 0x82, 0x9b, 0x2f, 0xff, 0x87, 0x34, 0x8e, 0x43, 0x44, 0xc4, 0xde, 0xe9, 0xcb,
    0x54, 0x7b, 0x94, 0x32, 0xa6, 0xc2, 0x23, 0x3d, 0xee, 0x4c, 0x95, 0x0b, 0x42, 0xfa, 0xc3, 0x4e,
    0x08, 0x2e, 0xa1, 0x66, 0x28, 0xd9, 0x24, 0xb2, 0x76, 0x5b, 0xa2, 0x49, 0x6d, 0x8b, 0xd1, 0x25,
    0x72, 0xf8, 0xf6, 0x64, 0x86, 0x68, 0x98, 0x16, 0xd4, 0xa4, 0x5c, 0xcc, 0x5d, 0x65, 0xb6, 0x92,
    0x6c, 0x70, 0x48, 0x50, 0xfd, 0xed, 0xb9, 0xda, 0x5e, 0x15, 0x46, 0x57, 0xa7, 0x8d, 0x9d, 0x84,
    0x90, 0xd8, 0xab, 0x00, 0x8c, 0xbc, 0xd3, 0x0a, 0xf7, 0xe4, 0x58, 0x05, 0xb8, 0xb3, 0x45, 0x06,
    0xd0, 0x2c, 0x1e, 0x8f, 0xca, 0x3f, 0x0f, 0x02, 0xc1, 0xaf, 0xbd, 0x03, 0x01, 0x13, 0x8a, 0x6b,
    0x3a, 0x91, 0x11, 0x41, 0x4f, 0x67, 0xdc, 0xea, 0x97, 0xf2, 0xcf, 0xce, 0xf0, 0xb4, 0xe6, 0x73,
    0x96, 0xac, 0x74, 0x22, 0xe7, 0xad, 0x35, 0x85, 0xe2, 0xf9, 0x37, 0xe8, 0x1c, 0x75, 0xdf, 0x6e,
    0x47, 0xf1, 0x1a, 0x71, 0x1d, 0x29, 0xc5, 0x89, 0x6f, 0xb7, 0x62, 0x0e, 0xaa, 0x18, 0xbe, 0x1b,
    0xfc, 0x56, 0x3e, 0x4b, 0xc6, 0xd2, 0x79, 0x20, 0x9a, 0xdb, 0xc0, 0xfe, 0x78, 0xcd, 0x5a, 0xf4,
    0x1f, 0xdd, 0xa8, 0x33, 0x88, 0x07, 0xc7, 0x31, 0xb1, 0x12, 0x10, 0x59, 0x27, 0x80, 0xec, 0x5f,
    0x60, 0x51, 0x7f, 0xa9, 0x19, 0xb5, 0x4a, 0x0d, 0x2d, 0xe5, 0x7a, 0x9f, 0x93, 0xc9, 0x9c, 0xef,
    0xa0, 0xe0, 0x3b, 0x4d, 0xae, 0x2a, 0xf5, 0xb0, 0xc8, 0xeb, 0xbb, 0x3c, 0x83, 0x53, 0x99, 0x61,
    0x17, 0x2b, 0x04, 0x7e, 0xba, 0x77, 0xd6, 0x26, 0xe1, 0x69, 0x14, 0x63, 0x55, 0x21, 0x0c, 0x7d,
];

/// The round constants of the key schedule (index 0 is not used).
pub const RCON: [u8; 11] = [0x00, 0x01, 0x02, 0x04, 0x08, 0x10, 0x20, 0x40, 0x80, 0x1B, 0x36];

/// Bytes in a block.
pub const BLOCK_SIZE: usize = 16;

/// Rounds of AES-128.
pub const NUM_ROUNDS: usize = 10;

/// Bytes in the expanded key: one round key per round and one more.
pub const SCHEDULE_SIZE: usize = 176;

/// SubBytes: every byte replaced by its S-box image.
pub open spec fn sub_bytes_spec(s: Seq<u8>) -> Seq<u8> {
    Seq::new(16, |i: int| S_BOX@[s[i] as int])
}

/// InvSubBytes: every byte replaced by its inverse S-box image.
pub open spec fn inv_sub_bytes_spec(s: Seq<u8>) -> Seq<u8> {
    Seq::new(16, |i: int| INV_S_BOX@[s[i] as int])
}

/// Where ShiftRows takes byte `i` from. The state is column-major (byte
/// `r + 4c` is row r, column c) and row r turns left by r places.
pub open spec fn shift_source(i: int) -> int {
    i % 4 + 4 * ((i / 4 + i % 4) % 4)
}

/// Where InvShiftRows takes byte `i` from: row r turns right by r places.
pub open spec fn inv_shift_source(i: int) -> int {
    i % 4 + 4 * ((i / 4 + 4 - i % 4) % 4)
}

/// ShiftRows.
pub open spec fn shift_rows_spec(s: Seq<u8>) -> Seq<u8> {
    Seq::new(16, |i: int| s[shift_source(i)])
}

/// InvShiftRows.
pub open spec fn inv_shift_rows_spec(s: Seq<u8>) -> Seq<u8> {
    Seq::new(16, |i: int| s[inv_shift_source(i)])
}

/// AddRoundKey with the 16 bytes of the schedule that start at `offset`.
pub open spec fn add_round_key_spec(s: Seq<u8>, schedule: Seq<u8>, offset: int) -> Seq<u8> {
    Seq::new(16, |i: int| s[i] ^ schedule[offset + i])
}

/// Multiplication by x in GF(2^8), modulo x^8 + x^4 + x^3 + x + 1.
pub open spec fn xtime(a: u8) -> u8 {
    if a & 0x80 != 0 {
        (a << 1u8) ^ 0x1b
    } else {
        a << 1u8
    }
}

/// The GF(2^8) product of `a` with the `n` low bits of `b`: the sum (xor)
/// of `x^k a` over the set bits k of `b`.
pub open spec fn gf_mul_bits(a: u8, b: u8, n: nat) -> u8
    decreases n,
{
    if n == 0 {
        0
    } else {
        (if b & 1 == 1 {
            a
        } else {
            0
        }) ^ gf_mul_bits(xtime(a), b >> 1u8, (n - 1) as nat)
    }
}

/// The product of `a` and `b` in GF(2^8).
pub open spec fn gf_mul(a: u8, b: u8) -> u8 {
    gf_mul_bits(a, b, 8)
}

fn inv_sub_bytes(state: &mut Vec<u8>)
    requires
        old(state)@.len() == 16,
    ensures
        final(state)@ == inv_sub_bytes_spec(old(state)@),
{
    let ghost s0 = state@;
    let mut i: usize = 0;
    while i < BLOCK_SIZE
        invariant
            i <= 16,
            state@.len() == 16,
            s0.len() == 16,
            forall|k: int| 0 <= k < i ==> #[trigger] state@[k] == INV_S_BOX@[s0[k] as int],
            forall|k: int| i <= k < 16 ==> #[trigger] state@[k] == s0[k],
        decreases 16 - i,
    {
        let b = state[i];
        state.set(i, INV_S_BOX[b as usize]);
        i = i + 1;
    }
    assert(state@ =~= inv_sub_bytes_spec(s0));
}

fn sub_bytes(state: &mut Vec<u8>)
    requires
        old(state)@.len() == 16,
    ensures
        final(state)@ == sub_bytes_spec(old(state)@),
{
    let ghost s0 = state@;
    let mut i: usize = 0;
    while i < BLOCK_SIZE
        invariant
            i <= 16,
            state@.len() == 16,
            s0.len() == 16,
            forall|k: int| 0 <= k < i ==> #[trigger] state@[k] == S_BOX@[s0[k] as int],
            forall|k: int| i <= k < 16 ==> #[trigger] state@[k] == s0[k],
        decreases 16 - i,
    {
        let b = state[i];
        state.set(i, S_BOX[b as usize]);
        i = i + 1;
    }
    assert(state@ =~= sub_bytes_spec(s0));
}

fn gmul(a: u8, b: u8) -> (r: u8)
    ensures
        r == gf_mul(a, b),
{
    let mut p: u8 = 0;
    let mut a = a;
    let mut b = b;
    let ghost a0 = a;
    let ghost b0 = b;
    let mut i: usize = 0;
    assert(0u8 ^ gf_mul_bits(a, b, 8) == gf_mul_bits(a, b, 8)) by (bit_vector);
    while i < 8
        invariant
            i <= 8,
            p ^ gf_mul_bits(a, b, (8 - i) as nat) == gf_mul_bits(a0, b0, 8),
        decreases 8 - i,
    {
        let ghost rest = gf_mul_bits(xtime(a), b >> 1u8, (8 - i - 1) as nat);
        let ghost p0 = p;
        let ghost pa = a;
        let ghost bit: u8 = if b & 1 == 1 {
            a
        } else {
            0
        };
        if b & 1 != 0 {
            p = p ^ a;
        }
        assert(b & 1 != 0 <==> b & 1 == 1) by (bit_vector);
        assert(p0 ^ 0u8 == p0) by (bit_vector);
        assert(p == p0 ^ bit);
        let high_bit = a & 0x80;
        a = a << 1u8;
        if high_bit != 0 {
            a = a ^ 0x1B;
        }
        assert(a == xtime(pa));
        b = b >> 1u8;
        assert((p0 ^ bit) ^ rest == p0 ^ (bit ^ rest)) by (bit_vector);
        i = i + 1;
    }
    assert(p ^ 0u8 == p) by (bit_vector);
    p
}

fn inv_shift_rows(state: &mut Vec<u8>)
    requires
        old(state)@.len() == 16,
    ensures
        final(state)@ == inv_shift_rows_spec(old(state)@),
{
    let temp = state.clone();
    let mut i: usize = 0;
    while i < BLOCK_SIZE
        invariant
            i <= 16,
            state@.len() == 16,
            temp@.len() == 16,
            temp@ == old(state)@,
            forall|k: int| 0 <= k < i ==> #[trigger] state@[k] == temp@[inv_shift_source(k)],
        decreases 16 - i,
    {
        state.set(i, temp[i % 4 + 4 * ((i / 4 + 4 - i % 4) % 4)]);
        i = i + 1;
    }
    assert(state@ =~= inv_shift_rows_spec(temp@));
}

fn shift_rows(state: &mut Vec<u8>)
    requires
        old(state)@.len() == 16,
    ensures
        final(state)@ == shift_rows_spec(old(state)@),
{
    let temp = state.clone();
    let mut i: usize = 0;
    while i < BLOCK_SIZE
        invariant
            i <= 16,
            state@.len() == 16,
            temp@.len() == 16,
            temp@ == old(state)@,
            forall|k: int| 0 <= k < i ==> #[trigger] state@[k] == temp@[shift_source(k)],
        decreases 16 - i,
    {
        state.set(i, temp[i % 4 + 4 * ((i / 4 + i % 4) % 4)]);
        i = i + 1;
    }
    assert(state@ =~= shift_rows_spec(temp@));
}

fn add_round_key(state: &mut Vec<u8>, schedule: &Vec<u8>, offset: usize)
    requires
        old(state)@.len() == 16,
        offset + 16 <= schedule@.len(),
    ensures
        final(state)@ == add_round_key_spec(old(state)@, schedule@, offset as int),
{
    let ghost s0 = state@;
    let n = schedule.len();
    let mut i: usize = 0;
    while i < BLOCK_SIZE
        invariant
            i <= 16,
            state@.len() == 16,
            s0.len() == 16,
            n == schedule@.len(),
            offset + 16 <= n,
            forall|k: int| 0 <= k < i ==> #[trigger] state@[k] == s0[k] ^ schedule@[offset + k],
            forall|k: int| i <= k < 16 ==> #[trigger] state@[k] == s0[k],
        decreases 16 - i,
    {
        let b = state[i] ^ schedule[offset + i];
        state.set(i, b);
        i = i + 1;
    }
    assert(state@ =~= add_round_key_spec(s0, schedule@, offset as int));
}

/// MixColumns on byte `i` (row r, column c): the product of column c with
/// the circulant matrix whose first row is (2, 3, 1, 1).
pub open spec fn mix_byte(s: Seq<u8>, i: int) -> u8 {
    let c = 4 * (i / 4);
    let a0 = s[c];
    let a1 = s[c + 1];
    let a2 = s[c + 2];
    let a3 = s[c + 3];
    if i % 4 == 0 {
        gf_mul(a0, 2) ^ gf_mul(a1, 3) ^ a2 ^ a3
    } else if i % 4 == 1 {
        a0 ^ gf_mul(a1, 2) ^ gf_mul(a2, 3) ^ a3
    } else if i % 4 == 2 {
        a0 ^ a1 ^ gf_mul(a2, 2) ^ gf_mul(a3, 3)
    } else {
        gf_mul(a0, 3) ^ a1 ^ a2 ^ gf_mul(a3, 2)
    }
}

/// InvMixColumns on byte `i`: the product with the circulant matrix whose
/// first row is (14, 11, 13, 9).
pub open spec fn inv_mix_byte(s: Seq<u8>, i: int) -> u8 {
    let c = 4 * (i / 4);
    let a0 = s[c];
    let a1 = s[c + 1];
    let a2 = s[c + 2];
    let a3 = s[c + 3];
    if i % 4 == 0 {
        gf_mul(a0, 14) ^ gf_mul(a1, 11) ^ gf_mul(a2, 13) ^ gf_mul(a3, 9)
    } else if i % 4 == 1 {
        gf_mul(a0, 9) ^ gf_mul(a1, 14) ^ gf_mul(a2, 11) ^ gf_mul(a3, 13)
    } else if i % 4 == 2 {
        gf_mul(a0, 13) ^ gf_mul(a1, 9) ^ gf_mul(a2, 14) ^ gf_mul(a3, 11)
    } else {
        gf_mul(a0, 11) ^ gf_mul(a1, 13) ^ gf_mul(a2, 9) ^ gf_mul(a3, 14)
    }
}

/// MixColumns.
pub open spec fn mix_columns_spec(s: Seq<u8>) -> Seq<u8> {
    Seq::new(16, |i: int| mix_byte(s, i))
}

/// InvMixColumns.
pub open spec fn inv_mix_columns_spec(s: Seq<u8>) -> Seq<u8> {
    Seq::new(16, |i: int| inv_mix_byte(s, i))
}

fn mix_columns(state: &mut Vec<u8>)
    requires
        old(state)@.len() == 16,
    ensures
        final(state)@ == mix_columns_spec(old(state)@),
{
    let ghost s0 = state@;
    let mut i: usize = 0;
    while i < 4
        invariant
            i <= 4,
            state@.len() == 16,
            s0.len() == 16,
            forall|k: int| 0 <= k < 4 * i ==> #[trigger] state@[k] == mix_byte(s0, k),
            forall|k: int| 4 * i <= k < 16 ==> #[trigger] state@[k] == s0[k],
        decreases 4 - i,
    {
        let t0 = state[4 * i];
        let t1 = state[4 * i + 1];
        let t2 = state[4 * i + 2];
        let t3 = state[4 * i + 3];
        state.set(4 * i, gmul(t0, 2) ^ gmul(t1, 3) ^ t2 ^ t3);
        state.set(4 * i + 1, t0 ^ gmul(t1, 2) ^ gmul(t2, 3) ^ t3);
        state.set(4 * i + 2, t0 ^ t1 ^ gmul(t2, 2) ^ gmul(t3, 3));
        state.set(4 * i + 3, gmul(t0, 3) ^ t1 ^ t2 ^ gmul(t3, 2));
        i = i + 1;
    }
    assert(state@ =~= mix_columns_spec(s0));
}

fn inv_mix_columns(state: &mut Vec<u8>)
    requires
        old(state)@.len() == 16,
    ensures
        final(state)@ == inv_mix_columns_spec(old(state)@),
{
    let ghost s0 = state@;
    let mut i: usize = 0;
    while i < 4
        invariant
            i <= 4,
            state@.len() == 16,
            s0.len() == 16,
            forall|k: int| 0 <= k < 4 * i ==> #[trigger] state@[k] == inv_mix_byte(s0, k),
            forall|k: int| 4 * i <= k < 16 ==> #[trigger] state@[k] == s0[k],
        decreases 4 - i,
    {
        let t0 = state[4 * i];
        let t1 = state[4 * i + 1];
        let t2 = state[4 * i + 2];
        let t3 = state[4 * i + 3];
        state.set(4 * i, gmul(t0, 14) ^ gmul(t1, 11) ^ gmul(t2, 13) ^ gmul(t3, 9));
        state.set(4 * i + 1, gmul(t0, 9) ^ gmul(t1, 14) ^ gmul(t2, 11) ^ gmul(t3, 13));
        state.set(4 * i + 2, gmul(t0, 13) ^ gmul(t1, 9) ^ gmul(t2, 14) ^ gmul(t3, 11));
        state.set(4 * i + 3, gmul(t0, 11) ^ gmul(t1, 13) ^ gmul(t2, 9) ^ gmul(t3, 14));
        i = i + 1;
    }
    assert(state@ =~= inv_mix_columns_spec(s0));
}

/// Byte `j` of the AES-128 key schedule (FIPS-197, KeyExpansion): word
/// `i = j / 4` is word `i - 4` xor `temp`, where `temp` is word `i - 1`,
/// rotated, substituted and xored with the round constant when `i` is a
/// multiple of 4.
pub open spec fn key_byte(key: Seq<u8>, j: int) -> u8
    decreases j,
{
    if j < 16 {
        key[j]
    } else {
        let i = j / 4;
        let t = j % 4;
        let temp = if i % 4 == 0 {
            let sub = S_BOX@[key_byte(key, (i - 1) * 4 + (t + 1) % 4) as int];
            if t == 0 {
                sub ^ RCON@[i / 4]
            } else {
                sub
            }
        } else {
            key_byte(key, (i - 1) * 4 + t)
        };
        key_byte(key, j - 16) ^ temp
    }
}

/// The 176-byte key schedule of a 16-byte key.
pub open spec fn key_schedule_spec(key: Seq<u8>) -> Seq<u8> {
    Seq::new(176, |j: int| key_byte(key, j))
}

#[verifier::rlimit(40)]
fn key_expansion(key: &[u8; 16]) -> (w: Vec<u8>)
    ensures
        w@ == key_schedule_spec(key@),
{
    let mut w: Vec<u8> = Vec::new();
    let mut j: usize = 0;
    while j < 16
        invariant
            j <= 16,
            w@.len() == j,
            forall|k: int| 0 <= k < j ==> #[trigger] w@[k] == key_byte(key@, k),
        decreases 16 - j,
    {
        w.push(key[j]);
        j = j + 1;
    }
    let mut i: usize = 4;
    while i < 44
        invariant
            4 <= i <= 44,
            w@.len() == 4 * i,
            forall|k: int| 0 <= k < 4 * i ==> #[trigger] w@[k] == key_byte(key@, k),
        decreases 44 - i,
    {
        let mut temp0 = w[(i - 1) * 4];
        let mut temp1 = w[(i - 1) * 4 + 1];
        let mut temp2 = w[(i - 1) * 4 + 2];
        let mut temp3 = w[(i - 1) * 4 + 3];
        if i % 4 == 0 {
            let r0 = S_BOX[temp1 as usize] ^ RCON[i / 4];
            let r1 = S_BOX[temp2 as usize];
            let r2 = S_BOX[temp3 as usize];
            let r3 = S_BOX[temp0 as usize];
            temp0 = r0;
            temp1 = r1;
            temp2 = r2;
            temp3 = r3;
        }
        let ghost base = 4 * i as int;
        w.push(w[(i - 4) * 4] ^ temp0);
        assert(w@[base] == key_byte(key@, base));
        w.push(w[(i - 4) * 4 + 1] ^ temp1);
        assert(w@[base + 1] == key_byte(key@, base + 1));
        w.push(w[(i - 4) * 4 + 2] ^ temp2);
        assert(w@[base + 2] == key_byte(key@, base + 2));
        w.push(w[(i - 4) * 4 + 3] ^ temp3);
        assert(w@[base + 3] == key_byte(key@, base + 3));
        i = i + 1;
    }
    assert(w@ =~= key_schedule_spec(key@));
    w
}

/// One full encryption round with round key `round`.
pub open spec fn round_spec(s: Seq<u8>, schedule: Seq<u8>, round: int) -> Seq<u8> {
    add_round_key_spec(mix_columns_spec(shift_rows_spec(sub_bytes_spec(s))), schedule, 16 * round)
}

/// One full decryption round with round key `round`.
pub open spec fn inv_round_spec(s: Seq<u8>, schedule: Seq<u8>, round: int) -> Seq<u8> {
    inv_mix_columns_spec(
        add_round_key_spec(inv_shift_rows_spec(inv_sub_bytes_spec(s)), schedule, 16 * round),
    )
}

/// The encryption state after the initial key addition and `n` full rounds.
pub open spec fn encrypt_rounds(s: Seq<u8>, schedule: Seq<u8>, n: nat) -> Seq<u8>
    decreases n,
{
    if n == 0 {
        add_round_key_spec(s, schedule, 0)
    } else {
        round_spec(encrypt_rounds(s, schedule, (n - 1) as nat), schedule, n as int)
    }
}

/// AES-128 encryption of one block under an expanded key.
pub open spec fn encrypt_block_spec(block: Seq<u8>, schedule: Seq<u8>) -> Seq<u8> {
    add_round_key_spec(
        shift_rows_spec(sub_bytes_spec(encrypt_rounds(block, schedule, 9))),
        schedule,
        160,
    )
}

/// The decryption state after the last round key's addition and `n` full
/// inverse rounds, taken from round 9 down.
pub open spec fn decrypt_rounds(s: Seq<u8>, schedule: Seq<u8>, n: nat) -> Seq<u8>
    decreases n,
{
    if n == 0 {
        add_round_key_spec(s, schedule, 160)
    } else {
        inv_round_spec(decrypt_rounds(s, schedule, (n - 1) as nat), schedule, 10 - n)
    }
}

/// AES-128 decryption of one block under an expanded key.
pub open spec fn decrypt_block_spec(block: Seq<u8>, schedule: Seq<u8>) -> Seq<u8> {
    add_round_key_spec(
        inv_sub_bytes_spec(inv_shift_rows_spec(decrypt_rounds(block, schedule, 9))),
        schedule,
        0,
    )
}

fn aes_inv_round(state: &mut Vec<u8>, schedule: &Vec<u8>, round: usize)
    requires
        old(state)@.len() == 16,
        schedule@.len() == 176,
        1 <= round <= 9,
    ensures
        final(state)@ == inv_round_spec(old(state)@, schedule@, round as int),
{
    inv_sub_bytes(state);
    inv_shift_rows(state);
    add_round_key(state, schedule, round * BLOCK_SIZE);
    inv_mix_columns(state);
}

fn aes_round(state: &mut Vec<u8>, schedule: &Vec<u8>, round: usize)
    requires
        old(state)@.len() == 16,
        schedule@.len() == 176,
        1 <= round <= 9,
    ensures
        final(state)@ == round_spec(old(state)@, schedule@, round as int),
{
    sub_bytes(state);
    shift_rows(state);
    mix_columns(state);
    add_round_key(state, schedule, round * BLOCK_SIZE);
}

fn encrypt_block(block: &Vec<u8>, schedule: &Vec<u8>) -> (r: Vec<u8>)
    requires
        block@.len() == 16,
        schedule@.len() == 176,
    ensures
        r@ == encrypt_block_spec(block@, schedule@),
{
    let mut state = block.clone();
    add_round_key(&mut state, schedule, 0);
    let mut round: usize = 1;
    while round < NUM_ROUNDS
        invariant
            1 <= round <= 10,
            schedule@.len() == 176,
            state@ == encrypt_rounds(block@, schedule@, (round - 1) as nat),
        decreases 10 - round,
    {
        aes_round(&mut state, schedule, round);
        round = round + 1;
    }
    sub_bytes(&mut state);
    shift_rows(&mut state);
    add_round_key(&mut state, schedule, NUM_ROUNDS * BLOCK_SIZE);
    state
}

fn decrypt_block(block: &Vec<u8>, schedule: &Vec<u8>) -> (r: Vec<u8>)
    requires
        block@.len() == 16,
        schedule@.len() == 176,
    ensures
        r@ == decrypt_block_spec(block@, schedule@),
{
    let mut state = block.clone();
    add_round_key(&mut state, schedule, NUM_ROUNDS * BLOCK_SIZE);
    let mut round: usize = NUM_ROUNDS - 1;
    while round >= 1
        invariant
            0 <= round <= 9,
            schedule@.len() == 176,
            state@ == decrypt_rounds(block@, schedule@, (9 - round) as nat),
        decreases round,
    {
        aes_inv_round(&mut state, schedule, round);
        round = round - 1;
    }
    inv_shift_rows(&mut state);
    inv_sub_bytes(&mut state);
    add_round_key(&mut state, schedule, 0);
    state
}

/// An AES-128 key together with its expanded key schedule.
pub struct AES {
    pub key: [u8; 16],
    expanded_key: Vec<u8>,
}

impl AES {
    /// The expanded key schedule held.
    pub closed spec fn schedule(&self) -> Seq<u8> {
        self.expanded_key@
    }

    /// The key.
    pub closed spec fn key_spec(&self) -> [u8; 16] {
        self.key
    }

    /// The schedule held is the expansion of the key.
    pub closed spec fn wf(&self) -> bool {
        self.schedule() == key_schedule_spec(self.key@)
    }

    /// The cipher for `key`, with its key schedule expanded.
    pub fn new(key: [u8; 16]) -> (r: AES)
        ensures
            r.key_spec() == key,
            r.wf(),
    {
        let expanded_key = key_expansion(&key);
        AES { key, expanded_key }
    }

    /// Encryption of one 16-byte block.
    pub fn encrypt_block(&self, block: &Vec<u8>) -> (r: Vec<u8>)
        requires
            self.wf(),
            block@.len() == 16,
        ensures
            r@ == encrypt_block_spec(block@, key_schedule_spec(self.key_spec()@)),
    {
        encrypt_block(block, &self.expanded_key)
    }

    /// Decryption of one 16-byte block.
    pub fn decrypt_block(&self, block: &Vec<u8>) -> (r: Vec<u8>)
        requires
            self.wf(),
            block@.len() == 16,
        ensures
            r@ == decrypt_block_spec(block@, key_schedule_spec(self.key_spec()@)),
    {
        decrypt_block(block, &self.expanded_key)
    }
}

/// Byte `k` (0 to 7) of the big-endian encoding of a block counter.
pub open spec fn counter_byte(c: u64, k: int) -> u8 {
    ((c >> ((56 - 8 * k) as u64)) & 0xff) as u8
}

/// The CTR input block: the 8-byte nonce, then the counter in big-endian.
pub open spec fn counter_block_spec(nonce: Seq<u8>, c: u64) -> Seq<u8> {
    nonce + Seq::new(8, |k: int| counter_byte(c, k))
}

/// Byte `i` of the CTR keystream: byte `i % 16` of the encryption of
/// counter block `i / 16`.
pub open spec fn keystream_byte(schedule: Seq<u8>, nonce: Seq<u8>, i: int) -> u8 {
    encrypt_block_spec(counter_block_spec(nonce, (i / 16) as u64), schedule)[i % 16]
}

/// `data` xored with the CTR keystream.
pub open spec fn ctr_xor(schedule: Seq<u8>, nonce: Seq<u8>, data: Seq<u8>) -> Seq<u8> {
    Seq::new(data.len(), |i: int| data[i] ^ keystream_byte(schedule, nonce, i))
}

fn counter_block(nonce: &Vec<u8>, counter: u64) -> (r: Vec<u8>)
    requires
        nonce@.len() == 8,
    ensures
        r@ == counter_block_spec(nonce@, counter),
{
    let mut block = nonce.clone();
    let mut k: u64 = 0;
    while k < 8
        invariant
            k <= 8,
            block@.len() == 8 + k,
            forall|j: int| 0 <= j < 8 ==> #[trigger] block@[j] == nonce@[j],
            forall|j: int| 0 <= j < k ==> #[trigger] block@[8 + j] == counter_byte(counter, j),
        decreases 8 - k,
    {
        block.push(((counter >> (56 - 8 * k)) & 0xff) as u8);
        k = k + 1;
    }
    assert forall|j: int| 0 <= j < 16 implies #[trigger] block@[j] == counter_block_spec(
        nonce@,
        counter,
    )[j] by {
        if j >= 8 {
            assert(block@[8 + (j - 8)] == counter_byte(counter, j - 8));
        }
    }
    assert(block@ =~= counter_block_spec(nonce@, counter));
    block
}

/// Position `i` of block `c` is byte `16 c + i`.
proof fn lemma_block_index(c: int, i: int)
    requires
        0 <= c,
        0 <= i < 16,
    ensures
        (16 * c + i) / 16 == c,
        (16 * c + i) % 16 == i,
{
    vstd::arithmetic::div_mod::lemma_fundamental_div_mod_converse(16 * c + i, 16, c, i);
}

/// Appends `data[from..]` xored with the CTR keystream of `nonce` to `out`.
fn ctr_xor_into(out: &mut Vec<u8>, schedule: &Vec<u8>, nonce: &Vec<u8>, data: &[u8], from: usize)
    requires
        schedule@.len() == 176,
        nonce@.len() == 8,
        from <= data@.len(),
    ensures
        final(out)@ == old(out)@ + ctr_xor(
            schedule@,
            nonce@,
            data@.subrange(from as int, data@.len() as int),
        ),
{
    let n = data.len();
    let ghost body = data@.subrange(from as int, n as int);
    let ghost o0 = out@;
    let mut start = from;
    let mut counter: u64 = 0;
    while start < n
        invariant
            from <= start <= n,
            n == data@.len(),
            body == data@.subrange(from as int, n as int),
            schedule@.len() == 176,
            nonce@.len() == 8,
            start < n ==> start - from == 16 * counter,
            out@.len() == o0.len() + (start - from),
            forall|j: int| 0 <= j < o0.len() ==> #[trigger] out@[j] == o0[j],
            forall|j: int|
                0 <= j < start - from ==> #[trigger] out@[o0.len() + j] == body[j]
                    ^ keystream_byte(schedule@, nonce@, j),
        decreases n - start,
    {
        let block = counter_block(nonce, counter);
        let keystream = encrypt_block(&block, schedule);
        let mut i: usize = 0;
        while i < BLOCK_SIZE && start + i < n
            invariant
                i <= 16,
                from <= start,
                start + i <= n,
                n == data@.len(),
                body == data@.subrange(from as int, n as int),
                start - from == 16 * counter,
                keystream@ == encrypt_block_spec(counter_block_spec(nonce@, counter), schedule@),
                out@.len() == o0.len() + (start - from) + i,
                forall|j: int| 0 <= j < o0.len() ==> #[trigger] out@[j] == o0[j],
                forall|j: int|
                    0 <= j < start - from + i ==> #[trigger] out@[o0.len() + j] == body[j]
                        ^ keystream_byte(schedule@, nonce@, j),
            decreases 16 - i,
        {
            proof {
                lemma_block_index(counter as int, i as int);
            }
            out.push(data[start + i] ^ keystream[i]);
            i = i + 1;
        }
        start = start + i;
        counter = counter + 1;
    }
    let ghost expected = o0 + ctr_xor(schedule@, nonce@, body);
    assert forall|j: int| 0 <= j < out@.len() implies #[trigger] out@[j] == expected[j] by {
        if j >= o0.len() {
            let k = j - o0.len();
            assert(out@[o0.len() + k] == body[k] ^ keystream_byte(schedule@, nonce@, k));
        }
    }
    assert(out@ =~= expected);
}

/// Relies on `rand::random` for a fresh 8-byte nonce, about which nothing
/// else is known.
#[verifier::external_body]
fn random_nonce() -> (r: [u8; 8]) {
    rand::random::<[u8; 8]>()
}

/// A symmetric cipher over byte strings.
pub trait Encryptable {
    /// Whether the cipher's state is consistent.
    spec fn ready(&self) -> bool;

    /// What `encrypt` returns for a plaintext.
    spec fn encrypt_spec(&self, plaintext: Seq<u8>) -> Seq<u8>;

    /// What `decrypt` returns for a ciphertext.
    spec fn decrypt_spec(&self, ciphertext: Seq<u8>) -> Seq<u8>;

    fn encrypt(&self, plaintext: &[u8]) -> (r: Vec<u8>)
        requires
            self.ready(),
        ensures
            r@ == self.encrypt_spec(plaintext@),
    ;

    fn decrypt(&self, ciphertext: &[u8]) -> (r: Vec<u8>)
        requires
            self.ready(),
        ensures
            r@ == self.decrypt_spec(ciphertext@),
    ;
}

/// AES-128 in counter mode with an 8-byte nonce and a 64-bit block counter.
/// The ciphertext is the nonce followed by the plaintext xored with the
/// keystream.
#[allow(non_camel_case_types)]
pub struct AES_CTR {
    aes: AES,
    nonce: [u8; 8],
}

impl AES_CTR {
    /// The nonce used for encryption.
    pub closed spec fn nonce_spec(&self) -> [u8; 8] {
        self.nonce
    }

    /// The key.
    pub closed spec fn key_spec(&self) -> [u8; 16] {
        self.aes.key_spec()
    }

    /// The cipher for `key` with a fresh random nonce.
    pub fn new(key: [u8; 16]) -> (r: AES_CTR)
        ensures
            r.ready(),
            r.key_spec() == key,
    {
        AES_CTR::with_nonce(key, random_nonce())
    }

    /// The cipher for `key` with the given nonce.
    pub fn with_nonce(key: [u8; 16], nonce: [u8; 8]) -> (r: AES_CTR)
        ensures
            r.ready(),
            r.key_spec() == key,
            r.nonce_spec() == nonce,
    {
        let aes = AES::new(key);
        AES_CTR { aes, nonce }
    }

    fn nonce_vec(&self) -> (r: Vec<u8>)
        ensures
            r@ == self.nonce@,
    {
        let mut v: Vec<u8> = Vec::new();
        let mut k: usize = 0;
        while k < 8
            invariant
                k <= 8,
                v@ == self.nonce@.subrange(0, k as int),
            decreases 8 - k,
        {
            v.push(self.nonce[k]);
            k = k + 1;
            assert(v@ =~= self.nonce@.subrange(0, k as int));
        }
        assert(self.nonce@.subrange(0, 8) =~= self.nonce@);
        v
    }
}

impl Encryptable for AES_CTR {
    closed spec fn ready(&self) -> bool {
        self.aes.wf()
    }

    closed spec fn encrypt_spec(&self, plaintext: Seq<u8>) -> Seq<u8> {
        self.nonce@ + ctr_xor(key_schedule_spec(self.aes.key_spec()@), self.nonce@, plaintext)
    }

    closed spec fn decrypt_spec(&self, ciphertext: Seq<u8>) -> Seq<u8> {
        if ciphertext.len() <= 8 {
            Seq::empty()
        } else {
            ctr_xor(
                key_schedule_spec(self.aes.key_spec()@),
                ciphertext.subrange(0, 8),
                ciphertext.subrange(8, ciphertext.len() as int),
            )
        }
    }

    fn encrypt(&self, plaintext: &[u8]) -> (r: Vec<u8>) {
        let nonce = self.nonce_vec();
        let mut result = nonce.clone();
        ctr_xor_into(&mut result, &self.aes.expanded_key, &nonce, plaintext, 0);
        assert(plaintext@.subrange(0, plaintext@.len() as int) =~= plaintext@);
        result
    }

    fn decrypt(&self, ciphertext: &[u8]) -> (r: Vec<u8>) {
        if ciphertext.len() <= 8 {
            return Vec::new();
        }
        let mut nonce: Vec<u8> = Vec::new();
        let mut k: usize = 0;
        while k < 8
            invariant
                k <= 8,
                8 < ciphertext@.len(),
                nonce@ == ciphertext@.subrange(0, k as int),
            decreases 8 - k,
        {
            nonce.push(ciphertext[k]);
            k = k + 1;
            assert(nonce@ =~= ciphertext@.subrange(0, k as int));
        }
        let mut plaintext: Vec<u8> = Vec::new();
        ctr_xor_into(&mut plaintext, &self.aes.expanded_key, &nonce, ciphertext, 8);
        assert(plaintext@ =~= self.decrypt_spec(ciphertext@));
        plaintext
    }
}

/// Decryption undoes encryption: for every plaintext, decrypting what
/// `encrypt` returns gives the plaintext back.
pub proof fn lemma_ctr_round_trip(cipher: &AES_CTR, plaintext: Seq<u8>)
    ensures
        cipher.decrypt_spec(cipher.encrypt_spec(plaintext)) == plaintext,
{
    let schedule = key_schedule_spec(cipher.aes.key_spec()@);
    let nonce = cipher.nonce@;
    let body = ctr_xor(schedule, nonce, plaintext);
    let c = nonce + body;
    if plaintext.len() > 0 {
        assert(c.subrange(0, 8) =~= nonce);
        assert(c.subrange(8, c.len() as int) =~= body);
        assert forall|i: int| 0 <= i < plaintext.len() implies #[trigger] ctr_xor(
            schedule,
            nonce,
            body,
        )[i] == plaintext[i] by {
            let a = plaintext[i];
            let k = keystream_byte(schedule, nonce, i);
            assert((a ^ k) ^ k == a) by (bit_vector);
        }
        assert(ctr_xor(schedule, nonce, body) =~= plaintext);
    } else {
        assert(plaintext =~= Seq::<u8>::empty());
    }
}

} // verus!
