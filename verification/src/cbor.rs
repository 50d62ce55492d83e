//! The CBOR (RFC 8949) item heads and item skipping that the EAT wire
//! format is built from: minimal-width heads on output, any width on input.
use vstd::prelude::*;
use vstd::utf8::valid_utf8;

verus! {

/// `256^n`.
pub open spec fn pow256(n: nat) -> nat
    decreases n,
{
    if n == 0 {
        1
    } else {
        256 * pow256((n - 1) as nat)
    }
}

/// The `n` low-order bytes of `x`, most significant first.
pub open spec fn be_bytes(x: nat, n: nat) -> Seq<u8>
    decreases n,
{
    if n == 0 {
        seq![]
    } else {
        be_bytes(x / 256, (n - 1) as nat).push((x % 256) as u8)
    }
}

/// The number that a big-endian byte string denotes.
pub open spec fn be_value(s: Seq<u8>) -> nat
    decreases s.len(),
{
    if s.len() == 0 {
        0
    } else {
        be_value(s.drop_last()) * 256 + s.last() as nat
    }
}

/// How many bytes follow the initial byte of a minimal head for `a`.
pub open spec fn arg_width(a: u64) -> nat {
    if a < 24 {
        0
    } else if a < 0x100 {
        1
    } else if a < 0x10000 {
        2
    } else if a < 0x1_0000_0000 {
        4
    } else {
        8
    }
}

/// The "additional information" field of a minimal head for `a`.
pub open spec fn arg_info(a: u64) -> nat {
    if a < 24 {
        a as nat
    } else if a < 0x100 {
        24
    } else if a < 0x10000 {
        25
    } else if a < 0x1_0000_0000 {
        26
    } else {
        27
    }
}

/// The shortest head of major type `major` with argument `a`.
pub open spec fn head(major: u8, a: u64) -> Seq<u8> {
    seq![(major as nat * 32 + arg_info(a)) as u8] + be_bytes(a as nat, arg_width(a))
}

/// Width of the argument that an additional-information value announces.
pub open spec fn info_width(ai: u8) -> int {
    if ai < 24 {
        0
    } else if ai == 24 {
        1
    } else if ai == 25 {
        2
    } else if ai == 26 {
        4
    } else {
        8
    }
}

/// Reads one head: its major type, its argument and its length in bytes.
/// Heads of any argument width are read; indefinite lengths (additional
/// information 28..31) are not.
pub open spec fn parse_head(s: Seq<u8>) -> Option<(u8, u64, int)> {
    if s.len() == 0 {
        None
    } else {
        let major = s[0] / 32;
        let ai = s[0] % 32;
        if ai < 24 {
            Some((major, ai as u64, 1))
        } else if ai <= 27 && s.len() >= 1 + info_width(ai) {
            Some((major, be_value(s.subrange(1, 1 + info_width(ai))) as u64, 1 + info_width(ai)))
        } else {
            None
        }
    }
}

/// Length of the run of tag heads (major type 6) at the start of `s`.
pub open spec fn tag_prefix_len(s: Seq<u8>) -> int
    decreases s.len(),
{
    match parse_head(s) {
        Some((major, _a, n)) => if major == 6 && 1 <= n <= s.len() {
            n + tag_prefix_len(s.skip(n))
        } else {
            0
        },
        None => 0,
    }
}

/// Length of the one well-formed item at the start of `s`, with at most
/// `depth` levels of arrays, maps and tags inside it.
pub open spec fn skip_item(s: Seq<u8>, depth: nat) -> Option<int>
    decreases depth, 0nat,
{
    match parse_head(s) {
        None => None,
        Some((major, a, n)) => if major <= 1 {
            Some(n)
        } else if major <= 3 {
            if n + a <= s.len() && (major == 2 || valid_utf8(s.subrange(n, n + a))) {
                Some(n + a)
            } else {
                None
            }
        } else if major == 7 {
            if (20 <= s[0] % 32 <= 23) || (25 <= s[0] % 32 <= 27) {
                Some(n)
            } else {
                None
            }
        } else if depth == 0 {
            None
        } else if major == 4 {
            match skip_items(s.skip(n), a as nat, (depth - 1) as nat) {
                Some(m) => Some(n + m),
                None => None,
            }
        } else if major == 5 {
            match skip_items(s.skip(n), 2 * a as nat, (depth - 1) as nat) {
                Some(m) => Some(n + m),
                None => None,
            }
        } else {
            match skip_item(s.skip(n), (depth - 1) as nat) {
                Some(m) => Some(n + m),
                None => None,
            }
        },
    }
}

/// Length of `count` consecutive well-formed items at the start of `s`.
pub open spec fn skip_items(s: Seq<u8>, count: nat, depth: nat) -> Option<int>
    decreases depth, count + 1,
{
    if count == 0 {
        Some(0)
    } else {
        match skip_item(s, depth) {
            None => None,
            Some(m) => if 0 <= m <= s.len() {
                match skip_items(s.skip(m), (count - 1) as nat, depth) {
                    Some(k) => Some(m + k),
                    None => None,
                }
            } else {
                None
            },
        }
    }
}

// ---------------------------------------------------------------- lemmas

pub proof fn lemma_be_bytes_len(x: nat, n: nat)
    ensures
        be_bytes(x, n).len() == n,
    decreases n,
{
    if n > 0 {
        lemma_be_bytes_len(x / 256, (n - 1) as nat);
    }
}

pub proof fn lemma_pow256_pos(n: nat)
    ensures
        pow256(n) >= 1,
    decreases n,
{
    if n > 0 {
        lemma_pow256_pos((n - 1) as nat);
    }
}

pub proof fn lemma_be_roundtrip(x: nat, n: nat)
    requires
        x < pow256(n),
    ensures
        be_value(be_bytes(x, n)) == x,
    decreases n,
{
    if n > 0 {
        let p = pow256((n - 1) as nat);
        assert(x / 256 < p) by (nonlinear_arith)
            requires
                x < 256 * p,
        ;
        lemma_be_roundtrip(x / 256, (n - 1) as nat);
        let b = be_bytes(x, n);
        assert(b.drop_last() == be_bytes(x / 256, (n - 1) as nat));
        assert(b.last() == (x % 256) as u8);
        assert((x / 256) * 256 + x % 256 == x) by (nonlinear_arith);
    }
}

pub proof fn lemma_be_value_bound(s: Seq<u8>)
    ensures
        be_value(s) < pow256(s.len()),
    decreases s.len(),
{
    if s.len() > 0 {
        lemma_be_value_bound(s.drop_last());
        let v = be_value(s.drop_last());
        let p = pow256((s.len() - 1) as nat);
        let l = s.last() as nat;
        assert(v * 256 + l < 256 * p) by (nonlinear_arith)
            requires
                v < p,
                l < 256,
        ;
    }
}

pub proof fn lemma_pow256_values()
    ensures
        pow256(1) == 0x100,
        pow256(2) == 0x10000,
        pow256(4) == 0x1_0000_0000,
        pow256(8) == 0x1_0000_0000_0000_0000,
{
    reveal_with_fuel(pow256, 9);
}

/// Reading a head that [`head`] wrote gives back its major type and
/// argument, whatever follows it.
pub proof fn lemma_parse_head(major: u8, a: u64, rest: Seq<u8>)
    requires
        major < 8,
    ensures
        parse_head(head(major, a) + rest) == Some((major, a, head(major, a).len() as int)),
        head(major, a).len() == 1 + arg_width(a),
{
    lemma_pow256_values();
    let w = arg_width(a);
    let h = head(major, a);
    let s = h + rest;
    lemma_be_bytes_len(a as nat, w);
    let b0 = (major as nat * 32 + arg_info(a)) as u8;
    assert(s[0] == b0);
    assert(arg_info(a) < 32);
    assert(b0 / 32 == major && b0 % 32 == arg_info(a)) by (nonlinear_arith)
        requires
            b0 == major as nat * 32 + arg_info(a),
            arg_info(a) < 32,
            major < 8,
    ;
    if w > 0 {
        assert(info_width(b0 % 32) == w);
        assert(s.subrange(1, 1 + w as int) == be_bytes(a as nat, w));
        lemma_be_roundtrip(a as nat, w);
    }
}

/// A byte string is one well-formed item whatever its bytes: skipping it
/// passes over its head and all of its bytes, at any depth and whatever
/// follows it.
pub proof fn lemma_skip_byte_string(b: Seq<u8>, depth: nat, rest: Seq<u8>)
    requires
        b.len() <= u64::MAX,
    ensures
        skip_item(head(2, b.len() as u64) + b + rest, depth) == Some(
            (head(2, b.len() as u64).len() + b.len()) as int,
        ),
{
    let h = head(2, b.len() as u64);
    lemma_parse_head(2, b.len() as u64, b + rest);
    assert(h + b + rest == h + (b + rest));
}

pub proof fn lemma_parse_head_len(s: Seq<u8>)
    ensures
        parse_head(s) matches Some((m, a, n)) ==> 1 <= n <= s.len() && n <= 9 && m < 8,
{
}

// ---------------------------------------------------------------- exec

/// Appends the `n` low-order bytes of `x`, most significant first.
pub fn push_be(out: &mut Vec<u8>, x: u64, n: u64)
    ensures
        final(out)@ == old(out)@ + be_bytes(x as nat, n as nat),
    decreases n,
{
    if n > 0 {
        push_be(out, x / 256, n - 1);
        out.push((x % 256) as u8);
    }
}

/// Appends the shortest head of major type `major` with argument `a`.
pub fn push_head(out: &mut Vec<u8>, major: u8, a: u64)
    requires
        major < 8,
    ensures
        final(out)@ == old(out)@ + head(major, a),
{
    let (info, width): (u8, u64) = if a < 24 {
        (a as u8, 0)
    } else if a < 0x100 {
        (24, 1)
    } else if a < 0x10000 {
        (25, 2)
    } else if a < 0x1_0000_0000 {
        (26, 4)
    } else {
        (27, 8)
    };
    out.push(major * 32 + info);
    push_be(out, a, width);
}

/// Reads the head at `pos`.
pub fn read_head(bytes: &[u8], pos: usize) -> (r: Option<(u8, u64, usize)>)
    requires
        pos <= bytes@.len(),
    ensures
        match r {
            Some((m, a, n)) => parse_head(bytes@.skip(pos as int)) == Some((m, a, n as int)),
            None => parse_head(bytes@.skip(pos as int)) is None,
        },
{
    let ghost s = bytes@.skip(pos as int);
    if pos >= bytes.len() {
        return None;
    }
    let b0 = bytes[pos];
    let major = b0 / 32;
    let ai = b0 % 32;
    if ai < 24 {
        return Some((major, ai as u64, 1));
    }
    if ai > 27 {
        return None;
    }
    let width: usize = if ai == 24 {
        1
    } else if ai == 25 {
        2
    } else if ai == 26 {
        4
    } else {
        8
    };
    if bytes.len() - pos < 1 + width {
        return None;
    }
    let ghost arg = s.subrange(1, 1 + width as int);
    let mut acc: u64 = 0;
    let mut i: usize = 0;
    proof {
        lemma_pow256_values();
    }
    while i < width
        invariant
            i <= width <= 8,
            pos + 1 + width <= bytes@.len() <= usize::MAX,
            s == bytes@.skip(pos as int),
            arg == s.subrange(1, 1 + width as int),
            acc == be_value(arg.take(i as int)),
            pow256(8) == 0x1_0000_0000_0000_0000,
        decreases width - i,
    {
        proof {
            lemma_be_value_bound(arg.take(i as int));
            lemma_pow_mono(i as nat, 7);
            assert(arg.take(i + 1).drop_last() == arg.take(i as int));
        }
        let b = bytes[pos + 1 + i];
        assert(b == arg[i as int]);
        assert(acc * 256 + b < 0x1_0000_0000_0000_0000) by (nonlinear_arith)
            requires
                acc < pow256(i as nat),
                pow256(i as nat) <= pow256(7),
                pow256(8) == 256 * pow256(7),
                pow256(8) == 0x1_0000_0000_0000_0000,
                b < 256,
        ;
        acc = acc * 256 + b as u64;
        i = i + 1;
    }
    assert(arg.take(width as int) == arg);
    Some((major, acc, 1 + width))
}

pub proof fn lemma_pow_mono(i: nat, j: nat)
    requires
        i <= j,
    ensures
        pow256(i) <= pow256(j),
    decreases j,
{
    if i < j {
        lemma_pow_mono(i, (j - 1) as nat);
        lemma_pow256_pos((j - 1) as nat);
    }
}


/// Skips the run of tag heads at `pos`; returns the position after it.
pub fn skip_tags(bytes: &[u8], pos: usize) -> (r: usize)
    requires
        pos <= bytes@.len(),
    ensures
        r == pos + tag_prefix_len(bytes@.skip(pos as int)),
        pos <= r <= bytes@.len(),
{
    assert(bytes@.len() == bytes.len());
    let mut p = pos;
    loop
        invariant
            pos <= p <= bytes@.len() <= usize::MAX,
            tag_prefix_len(bytes@.skip(pos as int)) == (p - pos) + tag_prefix_len(
                bytes@.skip(p as int),
            ),
        decreases bytes@.len() - p,
    {
        proof {
            lemma_parse_head_len(bytes@.skip(p as int));
        }
        match read_head(bytes, p) {
            Some((major, _a, n)) => {
                if major == 6 {
                    assert(bytes@.skip(p as int).skip(n as int) == bytes@.skip(p + n));
                    p = p + n;
                } else {
                    return p;
                }
            },
            None => {
                return p;
            },
        }
    }
}

/// Checks that `bytes[start..end]` is well-formed UTF-8.
pub fn is_utf8(bytes: &[u8], start: usize, end: usize) -> (b: bool)
    requires
        start <= end <= bytes@.len(),
    ensures
        b == valid_utf8(bytes@.subrange(start as int, end as int)),
{
    core::str::from_utf8(&bytes[start..end]).is_ok()
}

/// Skips one well-formed item at `pos` (see [`skip_item`]); returns the
/// position after it.
pub fn skip_one(bytes: &[u8], pos: usize, depth: u64) -> (r: Option<usize>)
    requires
        pos <= bytes@.len(),
    ensures
        match r {
            Some(q) => pos < q <= bytes@.len() && skip_item(bytes@.skip(pos as int), depth as nat)
                == Some(q - pos),
            None => skip_item(bytes@.skip(pos as int), depth as nat) is None,
        },
    decreases depth,
{
    let ghost s = bytes@.skip(pos as int);
    assert(bytes@.len() == bytes.len());
    proof {
        lemma_parse_head_len(s);
    }
    let (major, a, n) = match read_head(bytes, pos) {
        Some(h) => h,
        None => return None,
    };
    assert(n <= bytes@.len() - pos);
    let body = pos + n;
    if major <= 1 {
        return Some(body);
    }
    if major <= 3 {
        if a > (bytes.len() - body) as u64 {
            return None;
        }
        let end = body + a as usize;
        assert(s.subrange(n as int, n + a) == bytes@.subrange(body as int, end as int));
        if major == 3 && !is_utf8(bytes, body, end) {
            return None;
        }
        return Some(end);
    }
    if major == 7 {
        let ai = bytes[pos] % 32;
        if (20 <= ai && ai <= 23) || (25 <= ai && ai <= 27) {
            return Some(body);
        }
        return None;
    }
    if depth == 0 {
        return None;
    }
    if major == 6 {
        assert(s.skip(n as int) == bytes@.skip(body as int));
        return match skip_one(bytes, body, depth - 1) {
            Some(q) => Some(q),
            None => None,
        };
    }
    let count: u128 = if major == 4 {
        a as u128
    } else {
        2 * (a as u128)
    };
    let mut remaining: u128 = count;
    let mut p: usize = body;
    assert(s.skip(n as int) == bytes@.skip(body as int));
    assert(skip_item(bytes@.skip(pos as int), depth as nat) == (match skip_items(
        bytes@.skip(body as int),
        count as nat,
        (depth - 1) as nat,
    ) {
        Some(m) => Some(m + (body - pos)),
        None => None,
    }));
    while remaining > 0
        invariant
            pos < body <= p <= bytes@.len(),
            skip_item(bytes@.skip(pos as int), depth as nat) == (match skip_items(
                bytes@.skip(body as int),
                count as nat,
                (depth - 1) as nat,
            ) {
                Some(m) => Some(m + (body - pos)),
                None => None,
            }),
            skip_items(bytes@.skip(body as int), count as nat, (depth - 1) as nat) == (match skip_items(
                bytes@.skip(p as int),
                remaining as nat,
                (depth - 1) as nat,
            ) {
                Some(k) => Some(k + (p - body)),
                None => None,
            }),
            depth > 0,
        decreases remaining,
    {
        match skip_one(bytes, p, depth - 1) {
            Some(q) => {
                assert(bytes@.skip(p as int).skip(q - p) == bytes@.skip(q as int));
                p = q;
                remaining = remaining - 1;
            },
            None => {
                assert(skip_items(bytes@.skip(p as int), remaining as nat, (depth - 1) as nat) is None);
                return None;
            },
        }
    }
    Some(p)
}

} // verus!
