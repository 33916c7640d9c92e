//! The ledger's binary layout: fixed-width little-endian integers and the
//! compact (variable-width) integer form used for lengths and balances.

use vstd::prelude::*;

verus! {

/// The `width` low-order base-256 digits of `v`, least significant first.
pub open spec fn le_bytes(v: nat, width: nat) -> Seq<u8>
    decreases width,
{
    if width == 0 {
        Seq::empty()
    } else {
        seq![(v % 256) as u8] + le_bytes(v / 256, (width - 1) as nat)
    }
}

/// The number that a little-endian digit string denotes.
pub open spec fn le_value(bytes: Seq<u8>) -> nat
    decreases bytes.len(),
{
    if bytes.len() == 0 {
        0
    } else {
        bytes[0] as nat + 256 * le_value(bytes.skip(1))
    }
}

/// 256 to the power `width`: the first number that needs more than `width` digits.
pub open spec fn limit(width: nat) -> nat
    decreases width,
{
    if width == 0 {
        1
    } else {
        256 * limit((width - 1) as nat)
    }
}

pub proof fn lemma_limit_values()
    ensures
        limit(0) == 1,
        limit(1) == 0x100,
        limit(2) == 0x1_0000,
        limit(3) == 0x100_0000,
        limit(4) == 0x1_0000_0000,
        limit(8) == 0x1_0000_0000_0000_0000,
        limit(16) == 0x1_0000_0000_0000_0000_0000_0000_0000_0000,
{
    reveal_with_fuel(limit, 17);
}

pub proof fn lemma_limit_monotonic(a: nat, b: nat)
    requires
        a <= b,
    ensures
        1 <= limit(a) <= limit(b),
    decreases b,
{
    if b == 0 {
    } else if a == b {
        lemma_limit_monotonic((a - 1) as nat, (b - 1) as nat);
    } else {
        lemma_limit_monotonic(a, (b - 1) as nat);
    }
}

pub proof fn lemma_le_bytes_len(v: nat, width: nat)
    ensures
        le_bytes(v, width).len() == width,
    decreases width,
{
    if width > 0 {
        lemma_le_bytes_len(v / 256, (width - 1) as nat);
    }
}

pub proof fn lemma_le_value_bound(bytes: Seq<u8>)
    ensures
        le_value(bytes) < limit(bytes.len()),
    decreases bytes.len(),
{
    if bytes.len() > 0 {
        lemma_le_value_bound(bytes.skip(1));
    }
}

/// Reading back what was written gives the number, if it fits the width.
pub proof fn lemma_le_value_of_bytes(v: nat, width: nat)
    requires
        v < limit(width),
    ensures
        le_value(le_bytes(v, width)) == v,
    decreases width,
{
    if width > 0 {
        let rest = le_bytes(v / 256, (width - 1) as nat);
        let all = le_bytes(v, width);
        assert(all.skip(1) =~= rest);
        lemma_le_bytes_len(v, width);
        lemma_le_value_of_bytes(v / 256, (width - 1) as nat);
    }
}

/// Writing the number that a digit string denotes gives the string back.
pub proof fn lemma_le_bytes_of_value(bytes: Seq<u8>)
    ensures
        le_bytes(le_value(bytes), bytes.len()) == bytes,
    decreases bytes.len(),
{
    if bytes.len() > 0 {
        let tail = bytes.skip(1);
        lemma_le_bytes_of_value(tail);
        let v = le_value(bytes);
        assert(v % 256 == bytes[0] as nat);
        assert(v / 256 == le_value(tail));
        assert(le_bytes(v, bytes.len()) =~= bytes);
    }
}

/// Two numbers that fit the width and are written alike are the same number.
pub proof fn lemma_le_bytes_injective(a: nat, b: nat, width: nat)
    requires
        a < limit(width),
        b < limit(width),
        le_bytes(a, width) == le_bytes(b, width),
    ensures
        a == b,
{
    lemma_le_value_of_bytes(a, width);
    lemma_le_value_of_bytes(b, width);
}

/// Appends the `width` low-order bytes of `v`, least significant first.
pub fn put_le(out: &mut Vec<u8>, v: u128, width: usize)
    ensures
        final(out)@ == old(out)@ + le_bytes(v as nat, width as nat),
{
    let mut rest: u128 = v;
    let mut done: usize = 0;
    while done < width
        invariant
            done <= width,
            out@ + le_bytes(rest as nat, (width - done) as nat) == old(out)@ + le_bytes(
                v as nat,
                width as nat,
            ),
        decreases width - done,
    {
        let ghost before = out@;
        out.push((rest % 256) as u8);
        proof {
            let tail = le_bytes((rest / 256) as nat, (width - done - 1) as nat);
            assert(before + le_bytes(rest as nat, (width - done) as nat) =~= before.push(
                (rest % 256) as u8,
            ) + tail);
        }
        rest = rest / 256;
        done = done + 1;
    }
}

/// Reads `width` bytes at `pos` as a little-endian number.
pub fn read_le(input: &[u8], pos: usize, width: usize) -> (v: u128)
    requires
        width <= 16,
        pos + width <= input@.len(),
    ensures
        v as nat == le_value(input@.subrange(pos as int, pos + width)),
        v < limit(width as nat),
        le_bytes(v as nat, width as nat) == input@.subrange(pos as int, pos + width),
{
    proof {
        lemma_le_value_bound(input@.subrange(pos as int, pos + width));
        lemma_le_bytes_of_value(input@.subrange(pos as int, pos + width));
    }
    let total: usize = input.len();
    let mut acc: u128 = 0;
    let mut left: usize = width;
    while left > 0
        invariant
            left <= width <= 16,
            pos + width <= total == input@.len(),
            acc as nat == le_value(input@.subrange(pos + left, pos + width)),
        decreases left,
    {
        let ghost hi = input@.subrange(pos + left, pos + width);
        let ghost all = input@.subrange(pos + left - 1, pos + width);
        proof {
            lemma_le_value_bound(hi);
            lemma_limit_monotonic(hi.len(), 15);
            lemma_limit_values();
            reveal_with_fuel(limit, 2);
            assert(limit(16) == 256 * limit(15));
            assert(all.skip(1) =~= hi);
        }
        left = left - 1;
        acc = acc * 256 + input[pos + left] as u128;
    }
    acc
}

/// The least number of base-256 digits that hold `v` (one digit for zero).
pub open spec fn byte_len(v: nat) -> nat
    decreases v,
{
    if v < 256 {
        1
    } else {
        1 + byte_len(v / 256)
    }
}

/// The compact form of `v`. The two low bits of the first byte select the
/// width: one, two or four bytes holding `4 * v` plus the selector, or, for
/// 2^30 and above, a first byte that counts the digits, then the digits.
pub open spec fn compact(v: nat) -> Seq<u8> {
    if v < 0x40 {
        le_bytes(4 * v, 1)
    } else if v < 0x4000 {
        le_bytes(4 * v + 1, 2)
    } else if v < 0x4000_0000 {
        le_bytes(4 * v + 2, 4)
    } else {
        seq![(4 * (byte_len(v) - 4) + 3) as u8] + le_bytes(v, byte_len(v))
    }
}

/// `byte_len(v)` is the width whose limit first exceeds `v`.
pub proof fn lemma_byte_len_bounds(v: nat)
    ensures
        1 <= byte_len(v),
        v < limit(byte_len(v)),
        v > 0 ==> limit((byte_len(v) - 1) as nat) <= v,
    decreases v,
{
    reveal_with_fuel(limit, 2);
    if v >= 256 {
        lemma_byte_len_bounds(v / 256);
    }
}

/// A number between two neighbouring limits has exactly that many digits.
pub proof fn lemma_byte_len_unique(v: nat, n: nat)
    requires
        n >= 1,
        v < limit(n),
        limit((n - 1) as nat) <= v,
    ensures
        byte_len(v) == n,
{
    lemma_byte_len_bounds(v);
    let k = byte_len(v);
    if k < n {
        lemma_limit_monotonic(k, (n - 1) as nat);
    } else if k > n {
        lemma_limit_monotonic(n, (k - 1) as nat);
    }
}

/// What a byte string that begins with the compact form of `v` must look like.
pub proof fn lemma_compact_prefix(s: Seq<u8>, v: nat)
    requires
        v < limit(16),
        compact(v).is_prefix_of(s),
    ensures
        s.len() >= 1,
        s[0] % 4 == 0 ==> v == s[0] / 4 && compact(v).len() == 1,
        s[0] % 4 == 1 ==> s.len() >= 2 && le_value(s.subrange(0, 2)) == 4 * v + 1 && 0x40 <= v
            && compact(v).len() == 2,
        s[0] % 4 == 2 ==> s.len() >= 4 && le_value(s.subrange(0, 4)) == 4 * v + 2 && 0x4000 <= v
            && compact(v).len() == 4,
        s[0] % 4 == 3 ==> {
            let n = (s[0] / 4 + 4) as nat;
            &&& n == byte_len(v)
            &&& n <= 16
            &&& s.len() >= 1 + n
            &&& le_value(s.subrange(1, 1 + n as int)) == v
            &&& 0x4000_0000 <= v
            &&& limit((n - 1) as nat) <= v
            &&& compact(v).len() == 1 + n
        },
{
    let c = compact(v);
    lemma_limit_values();
    if v < 0x40 {
        reveal_with_fuel(le_bytes, 2);
        lemma_le_bytes_len(4 * v, 1);
        assert(c[0] == ((4 * v) % 256) as u8);
        assert(s[0] == c[0]);
    } else if v < 0x4000 {
        reveal_with_fuel(le_bytes, 3);
        lemma_le_bytes_len(4 * v + 1, 2);
        assert(c[0] == ((4 * v + 1) % 256) as u8);
        assert(s[0] == c[0]);
        assert(s.subrange(0, 2) =~= c);
        lemma_le_value_of_bytes(4 * v + 1, 2);
    } else if v < 0x4000_0000 {
        reveal_with_fuel(le_bytes, 2);
        lemma_le_bytes_len(4 * v + 2, 4);
        assert(c[0] == ((4 * v + 2) % 256) as u8);
        assert(s[0] == c[0]);
        assert(s.subrange(0, 4) =~= c);
        lemma_le_value_of_bytes(4 * v + 2, 4);
    } else {
        let n = byte_len(v);
        lemma_byte_len_bounds(v);
        lemma_le_bytes_len(v, n);
        if n > 16 {
            lemma_limit_monotonic(16, (n - 1) as nat);
        }
        if n < 4 {
            lemma_limit_monotonic(n, 3);
        }
        assert(c[0] == (4 * (n - 4) + 3) as u8);
        assert(s[0] == c[0]);
        assert(s.subrange(0, 1 + n as int) =~= c);
        assert(c.subrange(1, 1 + n as int) =~= le_bytes(v, n));
        assert(s.subrange(1, 1 + n as int) =~= s.subrange(0, 1 + n as int).subrange(
            1,
            1 + n as int,
        ));
        lemma_le_value_of_bytes(v, n);
    }
}

/// No number's compact form begins another's: a byte string begins with at most one.
pub proof fn lemma_compact_prefix_unique(s: Seq<u8>, a: nat, b: nat)
    requires
        a < limit(16),
        b < limit(16),
        compact(a).is_prefix_of(s),
        compact(b).is_prefix_of(s),
    ensures
        a == b,
{
    lemma_compact_prefix(s, a);
    lemma_compact_prefix(s, b);
}

/// The number of base-256 digits of `v`.
pub fn significant_bytes(v: u128) -> (n: usize)
    ensures
        n == byte_len(v as nat),
        1 <= n <= 16,
    decreases v,
{
    proof {
        lemma_byte_len_bounds(v as nat);
        lemma_limit_values();
        if byte_len(v as nat) > 16 {
            lemma_limit_monotonic(16, (byte_len(v as nat) - 1) as nat);
        }
    }
    if v < 256 {
        1
    } else {
        1 + significant_bytes(v / 256)
    }
}

/// Appends the compact form of `v`.
pub fn put_compact(out: &mut Vec<u8>, v: u128)
    ensures
        final(out)@ == old(out)@ + compact(v as nat),
{
    if v < 0x40 {
        put_le(out, 4 * v, 1);
    } else if v < 0x4000 {
        put_le(out, 4 * v + 1, 2);
    } else if v < 0x4000_0000 {
        put_le(out, 4 * v + 2, 4);
    } else {
        let n = significant_bytes(v);
        let ghost before = out@;
        proof {
            lemma_byte_len_bounds(v as nat);
            lemma_limit_values();
            if n < 4 {
                lemma_limit_monotonic(n as nat, 3);
            }
        }
        out.push((4 * (n - 4) + 3) as u8);
        put_le(out, v, n);
        proof {
            let head = seq![(4 * (byte_len(v as nat) - 4) + 3) as u8];
            assert(before.push((4 * (n - 4) + 3) as u8) + le_bytes(v as nat, n as nat) =~= before
                + (head + le_bytes(v as nat, n as nat)));
        }
    }
}

/// Reads a compact number at `pos`; gives the number and the position after it.
/// `None` when the bytes at `pos` are the compact form of no number below 2^128.
pub fn take_compact(input: &[u8], pos: usize) -> (r: Option<(u128, usize)>)
    requires
        pos <= input@.len(),
    ensures
        match r {
            Some((v, next)) => pos < next <= input@.len() && input@.subrange(
                pos as int,
                next as int,
            ) == compact(v as nat),
            None => forall|v: u128| !(#[trigger] compact(v as nat)).is_prefix_of(input@.skip(pos as int)),
        },
{
    let total = input.len();
    let ghost tail = input@.skip(pos as int);
    proof {
        lemma_limit_values();
    }
    if pos >= total {
        assert forall|v: u128| !(#[trigger] compact(v as nat)).is_prefix_of(tail) by {
            if compact(v as nat).is_prefix_of(tail) {
                lemma_compact_prefix(tail, v as nat);
            }
        }
        return None;
    }
    let first = input[pos];
    assert(tail[0] == first);
    let mode = first % 4;
    if mode == 0 {
        let v: u128 = (first / 4) as u128;
        proof {
            reveal_with_fuel(le_bytes, 2);
            assert(input@.subrange(pos as int, pos + 1) =~= compact(v as nat));
        }
        Some((v, pos + 1))
    } else if mode == 1 || mode == 2 {
        let width: usize = if mode == 1 { 2 } else { 4 };
        let floor: u128 = if mode == 1 { 0x40 } else { 0x4000 };
        if total - pos < width {
            assert forall|v: u128| !(#[trigger] compact(v as nat)).is_prefix_of(tail) by {
                if compact(v as nat).is_prefix_of(tail) {
                    lemma_compact_prefix(tail, v as nat);
                }
            }
            return None;
        }
        let raw = read_le(input, pos, width);
        let v = raw / 4;
        let ghost piece = input@.subrange(pos as int, pos + width);
        proof {
            assert(tail.subrange(0, width as int) =~= piece);
            lemma_le_value_bound(piece);
            assert(piece[0] == first);
            assert(raw as nat == first as nat + 256 * le_value(piece.skip(1)));
        }
        if v < floor {
            assert forall|w: u128| !(#[trigger] compact(w as nat)).is_prefix_of(tail) by {
                if compact(w as nat).is_prefix_of(tail) {
                    lemma_compact_prefix(tail, w as nat);
                }
            }
            return None;
        }
        proof {
            lemma_le_bytes_of_value(piece);
            assert(raw == 4 * v + mode);
        }
        Some((v, pos + width))
    } else {
        let n: usize = (first / 4) as usize + 4;
        if n > 16 || total - pos - 1 < n {
            assert forall|v: u128| !(#[trigger] compact(v as nat)).is_prefix_of(tail) by {
                if compact(v as nat).is_prefix_of(tail) {
                    lemma_compact_prefix(tail, v as nat);
                }
            }
            return None;
        }
        let v = read_le(input, pos + 1, n);
        let ghost piece = input@.subrange(pos + 1, pos + 1 + n);
        proof {
            assert(tail.subrange(1, 1 + n) =~= piece);
            lemma_le_value_bound(piece);
        }
        if input[pos + n] == 0 || v < 0x4000_0000 {
            assert forall|w: u128| !(#[trigger] compact(w as nat)).is_prefix_of(tail) by {
                if compact(w as nat).is_prefix_of(tail) {
                    lemma_compact_prefix(tail, w as nat);
                    lemma_le_bytes_of_value(piece);
                    lemma_top_digit(w as nat, n as nat);
                    assert(piece[n - 1] == input@[pos + n]);
                }
            }
            return None;
        }
        proof {
            lemma_le_bytes_of_value(piece);
            lemma_top_digit(v as nat, n as nat);
            assert(piece[n - 1] == input@[pos + n]);
            lemma_byte_len_unique(v as nat, n as nat);
            assert(input@.subrange(pos as int, pos + 1 + n) =~= seq![first] + piece);
        }
        Some((v, pos + 1 + n))
    }
}

/// The last of `n` digits is zero exactly when the number fits in `n - 1` digits.
pub proof fn lemma_top_digit(v: nat, n: nat)
    requires
        n >= 1,
        v < limit(n),
    ensures
        le_bytes(v, n)[n - 1] == 0 <==> v < limit((n - 1) as nat),
    decreases n,
{
    reveal_with_fuel(limit, 2);
    lemma_le_bytes_len(v, n);
    if n == 1 {
        reveal_with_fuel(le_bytes, 2);
    } else {
        lemma_top_digit(v / 256, (n - 1) as nat);
        lemma_le_bytes_len(v / 256, (n - 1) as nat);
        assert(le_bytes(v, n)[n - 1] == le_bytes(v / 256, (n - 1) as nat)[n - 2]);
    }
}

/// A copy of the bytes of `input` from `from` up to `to`.
pub fn copy_range(input: &[u8], from: usize, to: usize) -> (out: Vec<u8>)
    requires
        from <= to <= input@.len(),
    ensures
        out@ == input@.subrange(from as int, to as int),
{
    let mut out: Vec<u8> = Vec::new();
    let mut i: usize = from;
    while i < to
        invariant
            from <= i <= to <= input@.len(),
            out@ == input@.subrange(from as int, i as int),
        decreases to - i,
    {
        out.push(input[i]);
        assert(out@ =~= input@.subrange(from as int, i + 1));
        i = i + 1;
    }
    out
}

/// The compact form is never empty and never longer than seventeen bytes.
pub proof fn lemma_compact_len(v: nat)
    requires
        v < limit(16),
    ensures
        1 <= compact(v).len() <= 17,
{
    let c = compact(v);
    assert(c.is_prefix_of(c)) by {
        assert(c.subrange(0, c.len() as int) =~= c);
    }
    lemma_compact_prefix(c, v);
}

/// Numbers with the same compact form are the same number.
pub proof fn lemma_compact_injective(a: nat, b: nat)
    requires
        a < limit(16),
        b < limit(16),
        compact(a) == compact(b),
    ensures
        a == b,
{
    let c = compact(a);
    assert(c.is_prefix_of(c)) by {
        assert(c.subrange(0, c.len() as int) =~= c);
    }
    lemma_compact_prefix_unique(c, a, b);
}

} // verus!
