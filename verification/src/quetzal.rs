//! Quetzal save files: an IFF container holding the header identity fields,
//! the dynamic-memory delta against the boot snapshot (XOR with a zero-run
//! encoding), and the frame stack, innermost frame last.

use crate::buffer::{word_hi, word_lo};
use crate::frame::Frame;
use crate::ZmachineError;
use vstd::prelude::*;

verus! {

/// The byte-wise XOR of two equally long regions.
pub open spec fn spec_xor(a: Seq<u8>, b: Seq<u8>) -> Seq<u8> {
    Seq::new(a.len(), |i: int| a[i] ^ b[i])
}

/// How many zero bytes lead the sequence.
pub open spec fn spec_zrun(d: Seq<u8>) -> int
    decreases d.len(),
{
    if d.len() == 0 || d[0] != 0 {
        0
    } else {
        1 + spec_zrun(d.skip(1))
    }
}

pub proof fn lemma_zrun_bound(d: Seq<u8>)
    ensures
        0 <= spec_zrun(d) <= d.len(),
        forall|i: int| 0 <= i < spec_zrun(d) ==> d[i] == 0,
        spec_zrun(d) < d.len() ==> d[spec_zrun(d)] != 0,
    decreases d.len(),
{
    if d.len() > 0 && d[0] == 0 {
        lemma_zrun_bound(d.skip(1));
        assert forall|i: int| 0 <= i < spec_zrun(d) implies d[i] == 0 by {
            if i > 0 {
                assert(d.skip(1)[i - 1] == 0);
            }
        }
        if spec_zrun(d) < d.len() {
            assert(d[spec_zrun(d)] == d.skip(1)[spec_zrun(d.skip(1))]);
        }
    }
}

/// The zero-run encoding: a zero byte is followed by one count byte, `00 n`
/// standing for `n + 1` zeros; other bytes stand for themselves.
pub open spec fn spec_rle(d: Seq<u8>) -> Seq<u8>
    decreases d.len(),
    via spec_rle_decreases
{
    if d.len() == 0 {
        Seq::empty()
    } else if d[0] != 0 {
        seq![d[0]] + spec_rle(d.skip(1))
    } else {
        let run = if spec_zrun(d) > 256 {
            256
        } else if spec_zrun(d) < 1 {
            1
        } else {
            spec_zrun(d)
        };
        seq![0u8, (run - 1) as u8] + spec_rle(d.skip(run))
    }
}

#[via_fn]
proof fn spec_rle_decreases(d: Seq<u8>) {
    if d.len() > 0 && d[0] == 0 {
        lemma_zrun_bound(d);
    }
}

/// The inverse reading of the zero-run encoding; `None` when a zero byte has
/// no count byte after it.
pub open spec fn spec_unrle(e: Seq<u8>) -> Option<Seq<u8>>
    decreases e.len(),
{
    if e.len() == 0 {
        Some(Seq::empty())
    } else if e[0] != 0 {
        match spec_unrle(e.skip(1)) {
            None => None,
            Some(rest) => Some(seq![e[0]] + rest),
        }
    } else if e.len() < 2 {
        None
    } else {
        match spec_unrle(e.skip(2)) {
            None => None,
            Some(rest) => Some(Seq::new((e[1] + 1) as nat, |i: int| 0u8) + rest),
        }
    }
}

/// Decoding an encoding gives back the original bytes.
pub proof fn lemma_rle_round_trip(d: Seq<u8>)
    ensures
        spec_unrle(spec_rle(d)) == Some(d),
    decreases d.len(),
{
    if d.len() == 0 {
        assert(spec_unrle(spec_rle(d))->Some_0 =~= d);
    } else if d[0] != 0 {
        lemma_rle_round_trip(d.skip(1));
        let e = spec_rle(d);
        assert(e =~= seq![d[0]] + spec_rle(d.skip(1)));
        assert(e.skip(1) =~= spec_rle(d.skip(1)));
        assert(spec_unrle(e)->Some_0 =~= d);
    } else {
        lemma_zrun_bound(d);
        let run = if spec_zrun(d) > 256 {
            256int
        } else if spec_zrun(d) < 1 {
            1int
        } else {
            spec_zrun(d)
        };
        assert(1 <= run <= d.len());
        lemma_rle_round_trip(d.skip(run));
        let e = spec_rle(d);
        assert(e =~= seq![0u8, (run - 1) as u8] + spec_rle(d.skip(run)));
        assert(e.skip(2) =~= spec_rle(d.skip(run)));
        assert(e[1] == (run - 1) as u8);
        assert((e[1] + 1) as nat == run as nat);
        assert(spec_unrle(e)->Some_0 =~= d);
    }
}

/// Compress the current dynamic memory as an XOR delta against the boot
/// snapshot, zero runs shortened.
pub fn compress(curr: &[u8], orig: &[u8]) -> (r: Vec<u8>)
    requires
        curr@.len() == orig@.len(),
    ensures
        r@ == spec_rle(spec_xor(curr@, orig@)),
{
    let ghost delta = spec_xor(curr@, orig@);
    let n = curr.len();
    let mut out: Vec<u8> = Vec::new();
    let mut i: usize = 0;
    proof {
        assert(delta.skip(0) =~= delta);
        assert(out@ + spec_rle(delta) =~= spec_rle(delta));
    }
    while i < n
        invariant
            n == curr@.len(),
            n == orig@.len(),
            delta == spec_xor(curr@, orig@),
            i <= n,
            spec_rle(delta) == out@ + spec_rle(delta.skip(i as int)),
        decreases n - i,
    {
        let ghost pre = out@;
        let b = curr[i] ^ orig[i];
        if b != 0 {
            out.push(b);
            proof {
                assert(delta.skip(i as int)[0] == b);
                assert(delta.skip(i as int).skip(1) =~= delta.skip(i + 1));
                let tail = spec_rle(delta.skip(i + 1));
                assert(out@ =~= pre + seq![b]);
                assert((pre + seq![b]) + tail =~= pre + (seq![b] + tail));
            }
            i = i + 1;
        } else {
            // Count the zero run, up to the 256 a count byte can carry.
            let start = i;
            let mut run: usize = 0;
            while i < n && run < 256 && curr[i] == orig[i]
                invariant
                    n == curr@.len(),
                    n == orig@.len(),
                    delta == spec_xor(curr@, orig@),
                    start <= i <= n,
                    run == i - start,
                    run <= 256,
                    forall|j: int| start <= j < i ==> delta[j] == 0,
                decreases n - i,
            {
                proof {
                    let x = curr@[i as int];
                    let y = orig@[i as int];
                    assert(x == y ==> (x ^ y) == 0) by (bit_vector);
                }
                run = run + 1;
                i = i + 1;
            }
            proof {
                lemma_zrun_bound(delta.skip(start as int));
                assert forall|j: int| 0 <= j < run implies delta.skip(start as int)[j] == 0 by {
                    assert(delta[start + j] == 0);
                }
                if run == 256 {
                    assert(spec_zrun(delta.skip(start as int)) >= 256) by {
                        if spec_zrun(delta.skip(start as int)) < 256 {
                            let z = spec_zrun(delta.skip(start as int));
                            assert(delta.skip(start as int)[z] == 0);
                        }
                    }
                } else {
                    // The run stopped on a nonzero byte or the end.
                    if i < n {
                        let x = curr@[i as int];
                        let y = orig@[i as int];
                        assert(x != y ==> (x ^ y) != 0) by (bit_vector);
                        assert(delta.skip(start as int)[run as int] != 0);
                    }
                    assert(spec_zrun(delta.skip(start as int)) == run) by {
                        lemma_zrun_exact(delta.skip(start as int), run as int);
                    }
                }
                let zr = spec_zrun(delta.skip(start as int));
                let capped = if zr > 256 {
                    256int
                } else if zr < 1 {
                    1int
                } else {
                    zr
                };
                assert(capped == run);
                assert(delta.skip(start as int).skip(run as int) =~= delta.skip(i as int));
                let tail = spec_rle(delta.skip(i as int));
                assert(spec_rle(delta.skip(start as int)) == seq![0u8, (run - 1) as u8] + tail);
                assert((pre + seq![0u8, (run - 1) as u8]) + tail =~= pre + (seq![
                    0u8,
                    (run - 1) as u8,
                ] + tail));
            }
            out.push(0);
            out.push((run - 1) as u8);
            proof {
                assert(out@ =~= pre + seq![0u8, (run - 1) as u8]);
            }
        }
    }
    proof {
        assert(delta.skip(n as int) =~= Seq::<u8>::empty());
        assert(out@ + spec_rle(delta.skip(n as int)) =~= out@);
    }
    out
}

/// A sequence whose first `k` bytes are zero and whose byte at `k`, if any,
/// is not has a zero run of exactly `k`.
proof fn lemma_zrun_exact(d: Seq<u8>, k: int)
    requires
        0 <= k <= d.len(),
        forall|j: int| 0 <= j < k ==> d[j] == 0,
        k < d.len() ==> d[k] != 0,
        k == d.len() || d[k] != 0,
    ensures
        spec_zrun(d) == k,
    decreases k,
{
    if k > 0 {
        lemma_zrun_exact(d.skip(1), k - 1);
    }
}

/// Read the zero-run encoding back into the raw delta bytes.
fn unrle(data: &[u8]) -> (r: Result<Vec<u8>, ZmachineError>)
    ensures
        match spec_unrle(data@) {
            None => r is Err,
            Some(d) => r is Ok && r->Ok_0@ == d,
        },
{
    let n = data.len();
    let mut out: Vec<u8> = Vec::new();
    let mut i: usize = 0;
    proof {
        assert(data@.skip(0) =~= data@);
    }
    while i < n
        invariant
            n == data@.len(),
            i <= n,
            match spec_unrle(data@) {
                None => spec_unrle(data@.skip(i as int)) is None,
                Some(d) => match spec_unrle(data@.skip(i as int)) {
                    None => false,
                    Some(rest) => d == out@ + rest,
                },
            },
        decreases n - i,
    {
        let ghost pre = out@;
        let b = data[i];
        proof {
            assert(data@.skip(i as int)[0] == b);
        }
        if b != 0 {
            out.push(b);
            proof {
                assert(data@.skip(i as int).skip(1) =~= data@.skip(i + 1));
                if spec_unrle(data@) is Some {
                    let rest1 = spec_unrle(data@.skip(i + 1))->Some_0;
                    assert(out@ =~= pre + seq![b]);
                    assert((pre + seq![b]) + rest1 =~= pre + (seq![b] + rest1));
                }
            }
            i = i + 1;
        } else {
            if i + 1 >= n {
                proof {
                    assert(data@.skip(i as int).len() < 2);
                }
                return Err(ZmachineError::SaveMismatch);
            }
            let count = data[i + 1] as usize + 1;
            proof {
                assert(data@.skip(i as int)[1] == data@[i + 1]);
                assert(data@.skip(i as int).skip(2) =~= data@.skip(i + 2));
            }
            let mut c: usize = 0;
            while c < count
                invariant
                    c <= count,
                    out@ == pre + Seq::new(c as nat, |k: int| 0u8),
                decreases count - c,
            {
                out.push(0);
                c = c + 1;
                proof {
                    assert(out@ =~= pre + Seq::new(c as nat, |k: int| 0u8));
                }
            }
            proof {
                if spec_unrle(data@) is Some {
                    let zeros = Seq::new((data@[i + 1] + 1) as nat, |k: int| 0u8);
                    let rest2 = spec_unrle(data@.skip(i + 2))->Some_0;
                    assert(out@ =~= pre + zeros);
                    assert((pre + zeros) + rest2 =~= pre + (zeros + rest2));
                }
            }
            i = i + 2;
        }
    }
    proof {
        assert(data@.skip(n as int) =~= Seq::<u8>::empty());
        if spec_unrle(data@) is Some {
            assert(spec_unrle(data@)->Some_0 =~= out@);
        }
    }
    Ok(out)
}

/// Expand a decompressed delta against the boot snapshot: bytes beyond the
/// stored delta are unchanged.
pub open spec fn spec_expand(d: Seq<u8>, orig: Seq<u8>) -> Seq<u8> {
    Seq::new(
        orig.len(),
        |i: int|
            if i < d.len() {
                d[i] ^ orig[i]
            } else {
                orig[i]
            },
    )
}

/// Decompress a stored delta; fails when the encoding is cut short or the
/// delta is longer than the region it applies to.
pub fn decompress(data: &[u8], orig: &[u8]) -> (r: Result<Vec<u8>, ZmachineError>)
    ensures
        match spec_unrle(data@) {
            None => r is Err,
            Some(d) => {
                &&& (d.len() > orig@.len() ==> r is Err)
                &&& (d.len() <= orig@.len() ==> r is Ok && r->Ok_0@ == spec_expand(d, orig@))
            },
        },
{
    let delta = unrle(data)?;
    let dlen = delta.len();
    let olen = orig.len();
    if dlen > olen {
        return Err(ZmachineError::SaveMismatch);
    }
    let mut out: Vec<u8> = Vec::new();
    let mut i: usize = 0;
    while i < olen
        invariant
            dlen == delta@.len(),
            olen == orig@.len(),
            dlen <= olen,
            i <= olen,
            out@.len() == i,
            forall|k: int| 0 <= k < i && k < dlen ==> out@[k] == (delta@[k] ^ orig@[k]),
            forall|k: int| dlen <= k < i ==> out@[k] == orig@[k],
        decreases olen - i,
    {
        if i < dlen {
            out.push(delta[i] ^ orig[i]);
        } else {
            out.push(orig[i]);
        }
        i = i + 1;
    }
    proof {
        if spec_unrle(data@) is Some {
            assert(out@ =~= spec_expand(spec_unrle(data@)->Some_0, orig@));
        }
    }
    Ok(out)
}

/// Restoring the compression of a region against a snapshot gives back the
/// region.
pub proof fn lemma_quetzal_memory_round_trip(curr: Seq<u8>, orig: Seq<u8>)
    requires
        curr.len() == orig.len(),
    ensures
        spec_unrle(spec_rle(spec_xor(curr, orig))) == Some(spec_xor(curr, orig)),
        spec_expand(spec_xor(curr, orig), orig) == curr,
{
    lemma_rle_round_trip(spec_xor(curr, orig));
    assert forall|i: int| 0 <= i < curr.len() implies spec_expand(spec_xor(curr, orig), orig)[i]
        == curr[i] by {
        let x = curr[i];
        let y = orig[i];
        assert((x ^ y) ^ y == x) by (bit_vector);
    }
    assert(spec_expand(spec_xor(curr, orig), orig) =~= curr);
}

/// Sixteen-bit words flattened big-endian.
pub open spec fn spec_words16(s: Seq<u16>) -> Seq<u8>
    decreases s.len(),
{
    if s.len() == 0 {
        Seq::empty()
    } else {
        seq![word_hi(s[0]), word_lo(s[0])] + spec_words16(s.skip(1))
    }
}

/// The first `n` big-endian words of a byte sequence.
pub open spec fn spec_parse_words(b: Seq<u8>, n: int) -> Seq<u16>
    decreases n,
{
    if n <= 0 {
        Seq::empty()
    } else {
        seq![(((b[0] as int) * 256 + (b[1] as int)) as u16)] + spec_parse_words(b.skip(2), n - 1)
    }
}

pub proof fn lemma_words16_round_trip(s: Seq<u16>, rest: Seq<u8>)
    ensures
        spec_parse_words(spec_words16(s) + rest, s.len() as int) == s,
        spec_words16(s).len() == 2 * s.len(),
        (spec_words16(s) + rest).skip(2 * s.len() as int) == rest,
    decreases s.len(),
{
    let b = spec_words16(s) + rest;
    if s.len() == 0 {
        assert(b =~= rest);
        assert(spec_parse_words(b, 0) =~= s);
        assert(b.skip(0) =~= rest);
    } else {
        let w = s[0];
        lemma_words16_round_trip(s.skip(1), rest);
        assert(b[0] == word_hi(w));
        assert(b[1] == word_lo(w));
        assert((word_hi(w) as u16) * 256 + (word_lo(w) as u16) == w) by {
            assert((w / 256) * 256 + w % 256 == w);
        }
        assert(b.skip(2) =~= spec_words16(s.skip(1)) + rest);
        assert(spec_parse_words(b, s.len() as int) =~= s);
        assert(b.skip(2 * s.len() as int) =~= (spec_words16(s.skip(1)) + rest).skip(
            2 * s.skip(1).len() as int,
        ));
    }
}

/// The argument mask byte for a call with `c` arguments.
pub open spec fn spec_argmask(c: u8) -> u8 {
    if c == 0 {
        0
    } else if c == 1 {
        1
    } else if c == 2 {
        3
    } else if c == 3 {
        7
    } else if c == 4 {
        15
    } else if c == 5 {
        31
    } else if c == 6 {
        63
    } else if c == 7 {
        127
    } else {
        255
    }
}

/// The argument count a mask byte stands for; `None` for a byte that is not
/// a mask.
pub open spec fn spec_argcount(m: u8) -> Option<u8> {
    if m == 0 {
        Some(0u8)
    } else if m == 1 {
        Some(1u8)
    } else if m == 3 {
        Some(2u8)
    } else if m == 7 {
        Some(3u8)
    } else if m == 15 {
        Some(4u8)
    } else if m == 31 {
        Some(5u8)
    } else if m == 63 {
        Some(6u8)
    } else if m == 127 {
        Some(7u8)
    } else if m == 255 {
        Some(8u8)
    } else {
        None
    }
}

/// A frame serialises well when its fields fit the encoding.
pub open spec fn spec_frame_fits(f: Frame) -> bool {
    &&& f.locals@.len() <= 15
    &&& f.arg_count <= 8
    &&& f.stack@.len() <= 0xFFFF
    &&& f.resume < 0x1000000
}

/// One frame's bytes: the resume address (three bytes), a flags byte with
/// the local count and a no-store bit, the store target, the argument mask,
/// the evaluation-stack depth, then locals and stack as words.
pub open spec fn spec_frame_bytes(f: Frame) -> Seq<u8> {
    let flags = (f.locals@.len() as u8) | (if f.store is None {
        0x10u8
    } else {
        0u8
    });
    let storeval = match f.store {
        Some(v) => v,
        None => 0u8,
    };
    seq![
        (f.resume / 0x10000) as u8,
        ((f.resume / 0x100) % 0x100) as u8,
        (f.resume % 0x100) as u8,
        flags,
        storeval,
        spec_argmask(f.arg_count),
        (f.stack@.len() / 0x100) as u8,
        (f.stack@.len() % 0x100) as u8,
    ] + spec_words16(f.locals@) + spec_words16(f.stack@)
}

/// The frame stack's bytes, outermost first.
pub open spec fn spec_frames_bytes(fs: Seq<Frame>) -> Seq<u8>
    decreases fs.len(),
{
    if fs.len() == 0 {
        Seq::empty()
    } else {
        spec_frame_bytes(fs[0]) + spec_frames_bytes(fs.skip(1))
    }
}

/// What one frame parses back to: its fields and the bytes consumed.
pub open spec fn spec_parse_frame(b: Seq<u8>) -> Option<
    (int, Option<u8>, Seq<u16>, Seq<u16>, u8, int),
> {
    if b.len() < 8 {
        None
    } else {
        let resume = (b[0] as int) * 0x10000 + (b[1] as int) * 0x100 + (b[2] as int);
        let nloc = (b[3] & 0x0F) as int;
        let store = if b[3] & 0x10 != 0 {
            None
        } else {
            Some(b[4])
        };
        let nstack = (b[6] as int) * 0x100 + (b[7] as int);
        match spec_argcount(b[5]) {
            None => None,
            Some(argc) => {
                let used = 8 + 2 * nloc + 2 * nstack;
                if b.len() < used {
                    None
                } else {
                    let locals = spec_parse_words(b.skip(8), nloc);
                    let stack = spec_parse_words(b.skip(8 + 2 * nloc), nstack);
                    Some((resume, store, locals, stack, argc, used))
                }
            },
        }
    }
}

/// Parsing the bytes of a serialised frame gives back its fields.
pub proof fn lemma_frame_round_trip(f: Frame, rest: Seq<u8>)
    requires
        spec_frame_fits(f),
    ensures
        spec_frame_bytes(f).len() == 8 + 2 * f.locals@.len() + 2 * f.stack@.len(),
        spec_parse_frame(spec_frame_bytes(f) + rest) == Some(
            (
                f.resume as int,
                f.store,
                f.locals@,
                f.stack@,
                f.arg_count,
                spec_frame_bytes(f).len() as int,
            ),
        ),
{
    let b = spec_frame_bytes(f) + rest;
    let r = f.resume as int;
    assert(b[0] == (r / 0x10000) as u8);
    assert(b[1] == ((r / 0x100) % 0x100) as u8);
    assert(b[2] == (r % 0x100) as u8);
    assert((r / 0x10000) * 0x10000 + ((r / 0x100) % 0x100) * 0x100 + r % 0x100 == r) by {
        assert(r / 0x10000 == (r / 0x100) / 0x100) by (nonlinear_arith)
            requires
                0 <= r < 0x1000000,
        ;
        assert((r / 0x100) == ((r / 0x100) / 0x100) * 0x100 + (r / 0x100) % 0x100);
        assert(r == (r / 0x100) * 0x100 + r % 0x100);
        assert(((r / 0x100) / 0x100) * 0x100 * 0x100 + ((r / 0x100) % 0x100) * 0x100 + r % 0x100
            == r) by (nonlinear_arith)
            requires
                0 <= r < 0x1000000,
        ;
    }
    let flags = (f.locals@.len() as u8) | (if f.store is None {
        0x10u8
    } else {
        0u8
    });
    assert(b[3] == flags);
    assert((flags & 0x0F) as int == f.locals@.len() && (flags & 0x10 != 0) == (f.store
        is None)) by {
        let n = f.locals@.len() as u8;
        if f.store is None {
            assert(n <= 15 ==> (((n | 0x10) & 0x0F) == n && ((n | 0x10) & 0x10 != 0)))
                by (bit_vector);
        } else {
            assert(n <= 15 ==> ((n | 0u8) & 0x0F) == n && ((n | 0u8) & 0x10 == 0))
                by (bit_vector);
        }
    }
    let sl = f.stack@.len() as int;
    assert(b[6] == (sl / 0x100) as u8 && b[7] == (sl % 0x100) as u8);
    assert((sl / 0x100) * 0x100 + sl % 0x100 == sl);
    let nloc = f.locals@.len() as int;
    lemma_words16_round_trip(f.locals@, spec_words16(f.stack@) + rest);
    lemma_words16_round_trip(f.stack@, rest);
    assert(b.skip(8) =~= spec_words16(f.locals@) + (spec_words16(f.stack@) + rest));
    assert(b.skip(8 + 2 * nloc) =~= spec_words16(f.stack@) + rest);
}

/// Parse a whole frame stack.
pub open spec fn spec_parse_frames(b: Seq<u8>) -> Option<
    Seq<(int, Option<u8>, Seq<u16>, Seq<u16>, u8)>,
>
    decreases b.len(),
    via spec_parse_frames_decreases
{
    if b.len() == 0 {
        Some(Seq::empty())
    } else {
        match spec_parse_frame(b) {
            None => None,
            Some((resume, store, locals, stack, argc, used)) => {
                match spec_parse_frames(b.skip(used)) {
                    None => None,
                    Some(rest) => Some(seq![(resume, store, locals, stack, argc)] + rest),
                }
            },
        }
    }
}

#[via_fn]
proof fn spec_parse_frames_decreases(b: Seq<u8>) {
    if b.len() > 0 {
        match spec_parse_frame(b) {
            None => {},
            Some(p) => {
                assert(8 <= p.5 <= b.len());
            },
        }
    }
}

/// The field tuples of a frame stack.
pub open spec fn spec_frame_tuples(fs: Seq<Frame>) -> Seq<
    (int, Option<u8>, Seq<u16>, Seq<u16>, u8),
>
    decreases fs.len(),
{
    if fs.len() == 0 {
        Seq::empty()
    } else {
        seq![
            (
                fs[0].resume as int,
                fs[0].store,
                fs[0].locals@,
                fs[0].stack@,
                fs[0].arg_count,
            ),
        ] + spec_frame_tuples(fs.skip(1))
    }
}

/// The field tuples grow one frame at a time from the left.
pub proof fn lemma_frame_tuples_snoc(fs: Seq<Frame>, i: int)
    requires
        0 <= i < fs.len(),
    ensures
        spec_frame_tuples(fs.take(i + 1)) == spec_frame_tuples(fs.take(i)) + seq![
            (
                fs[i].resume as int,
                fs[i].store,
                fs[i].locals@,
                fs[i].stack@,
                fs[i].arg_count,
            ),
        ],
    decreases i,
{
    let a = fs.take(i + 1);
    let b = fs.take(i);
    if i == 0 {
        assert(a.skip(1) =~= Seq::<Frame>::empty());
        assert(a[0] == fs[0]);
        assert(b =~= Seq::<Frame>::empty());
        assert(spec_frame_tuples(a) =~= spec_frame_tuples(b) + seq![
            (
                fs[i].resume as int,
                fs[i].store,
                fs[i].locals@,
                fs[i].stack@,
                fs[i].arg_count,
            ),
        ]);
    } else {
        lemma_frame_tuples_snoc(fs.skip(1), i - 1);
        assert(a[0] == fs[0]);
        assert(a.skip(1) =~= fs.skip(1).take(i));
        assert(b[0] == fs[0]);
        assert(b.skip(1) =~= fs.skip(1).take(i - 1));
        assert(fs.skip(1)[i - 1] == fs[i]);
        let t = seq![
            (
                fs[i].resume as int,
                fs[i].store,
                fs[i].locals@,
                fs[i].stack@,
                fs[i].arg_count,
            ),
        ];
        assert((seq![
            (
                fs[0].resume as int,
                fs[0].store,
                fs[0].locals@,
                fs[0].stack@,
                fs[0].arg_count,
            ),
        ] + spec_frame_tuples(fs.skip(1).take(i - 1))) + t =~= seq![
            (
                fs[0].resume as int,
                fs[0].store,
                fs[0].locals@,
                fs[0].stack@,
                fs[0].arg_count,
            ),
        ] + (spec_frame_tuples(fs.skip(1).take(i - 1)) + t));
        assert(spec_frame_tuples(a) =~= spec_frame_tuples(b) + t);
    }
}

/// Parsing a serialised frame stack gives back every frame's fields.
pub proof fn lemma_frames_round_trip(fs: Seq<Frame>)
    requires
        forall|i: int| 0 <= i < fs.len() ==> spec_frame_fits(#[trigger] fs[i]),
    ensures
        spec_parse_frames(spec_frames_bytes(fs)) == Some(spec_frame_tuples(fs)),
    decreases fs.len(),
{
    if fs.len() == 0 {
        assert(spec_parse_frames(spec_frames_bytes(fs))->Some_0 =~= spec_frame_tuples(fs));
    } else {
        let f = fs[0];
        let restb = spec_frames_bytes(fs.skip(1));
        let b = spec_frame_bytes(f) + restb;
        assert(spec_frames_bytes(fs) == b);
        lemma_frame_round_trip(f, restb);
        assert(forall|i: int|
            0 <= i < fs.skip(1).len() ==> spec_frame_fits(#[trigger] fs.skip(1)[i]));
        lemma_frames_round_trip(fs.skip(1));
        assert(b.len() > 0);
        let used = spec_frame_bytes(f).len() as int;
        assert(b.skip(used) =~= restb);
        assert(spec_parse_frames(b)->Some_0 =~= spec_frame_tuples(fs));
    }
}

/// A 32-bit big-endian length.
pub open spec fn spec_len32(n: int) -> Seq<u8> {
    seq![
        (n / 0x1000000 % 0x100) as u8,
        (n / 0x10000 % 0x100) as u8,
        (n / 0x100 % 0x100) as u8,
        (n % 0x100) as u8,
    ]
}

/// The 32-bit big-endian value at `p`.
pub open spec fn spec_u32_at(b: Seq<u8>, p: int) -> int {
    (b[p] as int) * 0x1000000 + (b[p + 1] as int) * 0x10000 + (b[p + 2] as int) * 0x100 + (b[p
        + 3] as int)
}

/// The four length bytes recombine to the length.
pub proof fn lemma_len32_value(n: int)
    requires
        0 <= n < 0x100000000,
    ensures
        (n / 0x1000000 % 0x100) * 0x1000000 + (n / 0x10000 % 0x100) * 0x10000 + (n / 0x100
            % 0x100) * 0x100 + n % 0x100 == n,
{
    assert(n / 0x1000000 % 0x100 == n / 0x1000000) by (nonlinear_arith)
        requires
            0 <= n < 0x100000000,
    ;
    assert(n / 0x10000 == (n / 0x1000000) * 0x100 + (n / 0x10000) % 0x100) by (nonlinear_arith)
        requires
            0 <= n < 0x100000000,
    ;
    assert(n / 0x100 == (n / 0x10000) * 0x100 + (n / 0x100) % 0x100) by (nonlinear_arith)
        requires
            0 <= n < 0x100000000,
    ;
    assert(n == (n / 0x100) * 0x100 + n % 0x100);
    assert(((n / 0x1000000) * 0x100 + (n / 0x10000) % 0x100) * 0x10000 == (n / 0x1000000)
        * 0x1000000 + ((n / 0x10000) % 0x100) * 0x10000) by (nonlinear_arith);
    assert(((n / 0x10000) * 0x100 + (n / 0x100) % 0x100) * 0x100 == (n / 0x10000) * 0x10000 + ((
    n / 0x100) % 0x100) * 0x100) by (nonlinear_arith);
}

/// A chunk payload padded to even length.
pub open spec fn spec_pad_even(s: Seq<u8>) -> Seq<u8> {
    if s.len() % 2 == 1 {
        s + seq![0u8]
    } else {
        s
    }
}

/// The canonical bytes of a save: a `FORM IFZS` container holding `IFhd`
/// (release, serial, checksum, program counter), `CMem` (the compressed
/// memory delta) and `Stks` (the frame stack), each padded to even length.
pub open spec fn spec_save_bytes(
    pc: int,
    dynamic: Seq<u8>,
    orig: Seq<u8>,
    frames: Seq<Frame>,
    chksum: u16,
    release: u16,
    serial: Seq<u8>,
) -> Seq<u8> {
    let cmem = spec_rle(spec_xor(dynamic, orig));
    let stks = spec_frames_bytes(frames);
    let ifhd = seq![(release / 0x100) as u8, (release % 0x100) as u8] + serial + seq![
        (chksum / 0x100) as u8,
        (chksum % 0x100) as u8,
        (pc / 0x10000) as u8,
        ((pc / 0x100) % 0x100) as u8,
        (pc % 0x100) as u8,
        0u8,
    ];
    let body = 4 + (8 + 13 + 1) + (8 + cmem.len() + cmem.len() % 2) + (8 + stks.len()
        + stks.len() % 2);
    seq![70u8, 79u8, 82u8, 77u8] + spec_len32(body as int) + seq![73u8, 70u8, 90u8, 83u8]
        + seq![73u8, 70u8, 104u8, 100u8] + spec_len32(13) + ifhd + seq![67u8, 77u8, 101u8, 109u8]
        + spec_len32(cmem.len() as int) + spec_pad_even(cmem) + seq![83u8, 116u8, 107u8, 115u8]
        + spec_len32(stks.len() as int) + spec_pad_even(stks)
}

/// The frame-stack bytes split at any frame boundary.
pub proof fn lemma_frames_bytes_split(fs: Seq<Frame>, i: int)
    requires
        0 <= i <= fs.len(),
    ensures
        spec_frames_bytes(fs) == spec_frames_bytes(fs.take(i)) + spec_frames_bytes(fs.skip(i)),
    decreases i,
{
    if i == 0 {
        assert(fs.take(0) =~= Seq::<Frame>::empty());
        assert(fs.skip(0) =~= fs);
        assert(spec_frames_bytes(fs) =~= spec_frames_bytes(fs.take(0)) + spec_frames_bytes(
            fs.skip(0),
        ));
    } else {
        lemma_frames_bytes_split(fs, i - 1);
        lemma_frames_bytes_snoc(fs, i - 1);
        let mid = fs.skip(i - 1);
        assert(mid.len() > 0);
        assert(mid[0] == fs[i - 1]);
        assert(mid.skip(1) =~= fs.skip(i));
        assert(spec_frames_bytes(mid) == spec_frame_bytes(fs[i - 1]) + spec_frames_bytes(
            fs.skip(i),
        ));
        assert((spec_frames_bytes(fs.take(i - 1)) + spec_frame_bytes(fs[i - 1]))
            + spec_frames_bytes(fs.skip(i)) =~= spec_frames_bytes(fs.take(i - 1)) + (
        spec_frame_bytes(fs[i - 1]) + spec_frames_bytes(fs.skip(i))));
    }
}

/// The canonical reading of a save: the exact inverse of
/// `spec_save_bytes`, with `None` for anything that does not parse.
pub open spec fn spec_parse_save(bytes: Seq<u8>, orig: Seq<u8>) -> Option<
    (int, Seq<u8>, Seq<(int, Option<u8>, Seq<u16>, Seq<u16>, u8)>, u16, u16, Seq<u8>),
> {
    if bytes.len() < 42 {
        None
    } else if !(bytes[0] == 70 && bytes[1] == 79 && bytes[2] == 82 && bytes[3] == 77 && bytes[8]
        == 73 && bytes[9] == 70 && bytes[10] == 90 && bytes[11] == 83 && bytes[12] == 73
        && bytes[13] == 70 && bytes[14] == 104 && bytes[15] == 100 && spec_u32_at(bytes, 16)
        == 13 && bytes[34] == 67 && bytes[35] == 77 && bytes[36] == 101 && bytes[37] == 109) {
        None
    } else {
        let release = ((bytes[20] as int) * 0x100 + (bytes[21] as int)) as u16;
        let serial = bytes.subrange(22, 28);
        let chksum = ((bytes[28] as int) * 0x100 + (bytes[29] as int)) as u16;
        let pc = (bytes[30] as int) * 0x10000 + (bytes[31] as int) * 0x100 + (bytes[32] as int);
        let cl = spec_u32_at(bytes, 38);
        let soff = 42 + cl + cl % 2 + 8;
        if bytes.len() < soff {
            None
        } else if !(bytes[soff - 8] == 83 && bytes[soff - 7] == 116 && bytes[soff - 6] == 107
            && bytes[soff - 5] == 115) {
            None
        } else {
            let sl = spec_u32_at(bytes, soff - 4);
            if bytes.len() != soff + sl + sl % 2 {
                None
            } else {
                match spec_unrle(bytes.subrange(42, 42 + cl)) {
                    None => None,
                    Some(d) => if d.len() > orig.len() {
                        None
                    } else {
                        match spec_parse_frames(bytes.subrange(soff, soff + sl)) {
                            None => None,
                            Some(fr) => Some(
                                (pc, spec_expand(d, orig), fr, chksum, release, serial),
                            ),
                        }
                    },
                }
            }
        }
    }
}

/// The frame-stack bytes grow one frame at a time from the left.
pub proof fn lemma_frames_bytes_snoc(fs: Seq<Frame>, i: int)
    requires
        0 <= i < fs.len(),
    ensures
        spec_frames_bytes(fs.take(i + 1)) == spec_frames_bytes(fs.take(i)) + spec_frame_bytes(
            fs[i],
        ),
    decreases i,
{
    let a = fs.take(i + 1);
    let b = fs.take(i);
    if i == 0 {
        assert(a.skip(1) =~= Seq::<Frame>::empty());
        assert(a[0] == fs[0]);
        assert(spec_frames_bytes(a) == spec_frame_bytes(a[0]) + spec_frames_bytes(a.skip(1)));
        assert(b =~= Seq::<Frame>::empty());
        assert(spec_frames_bytes(a) =~= spec_frames_bytes(b) + spec_frame_bytes(fs[i]));
    } else {
        lemma_frames_bytes_snoc(fs.skip(1), i - 1);
        assert(a[0] == fs[0]);
        assert(a.skip(1) =~= fs.skip(1).take(i));
        assert(b[0] == fs[0]);
        assert(b.skip(1) =~= fs.skip(1).take(i - 1));
        assert(fs.skip(1)[i - 1] == fs[i]);
        assert((spec_frame_bytes(fs[0]) + spec_frames_bytes(fs.skip(1).take(i - 1)))
            + spec_frame_bytes(fs[i]) =~= spec_frame_bytes(fs[0]) + (spec_frames_bytes(
            fs.skip(1).take(i - 1),
        ) + spec_frame_bytes(fs[i])));
        assert(spec_frames_bytes(a) =~= spec_frames_bytes(b) + spec_frame_bytes(fs[i]));
    }
}

/// Loading a save restores the state it was made from: the canonical
/// reading of the canonical bytes gives back exactly the program counter,
/// the dynamic memory, every frame's fields, and the identity fields.
#[verifier::rlimit(100)]
#[verifier::spinoff_prover]
pub proof fn lemma_save_round_trip(
    pc: int,
    dynamic: Seq<u8>,
    orig: Seq<u8>,
    frames: Seq<Frame>,
    chksum: u16,
    release: u16,
    serial: Seq<u8>,
)
    requires
        dynamic.len() == orig.len(),
        0 <= pc < 0x1000000,
        serial.len() == 6,
        forall|i: int| 0 <= i < frames.len() ==> spec_frame_fits(#[trigger] frames[i]),
        spec_rle(spec_xor(dynamic, orig)).len() < 0xFFFFFF,
        spec_frames_bytes(frames).len() < 0xFFFFFF,
    ensures
        spec_parse_save(
            spec_save_bytes(pc, dynamic, orig, frames, chksum, release, serial),
            orig,
        ) == Some(
            (pc, dynamic, spec_frame_tuples(frames), chksum, release, serial),
        ),
{
    let bytes = spec_save_bytes(pc, dynamic, orig, frames, chksum, release, serial);
    let cmem = spec_rle(spec_xor(dynamic, orig));
    let stks = spec_frames_bytes(frames);
    let cl = cmem.len() as int;
    let sl = stks.len() as int;
    let soff = 42 + cl + cl % 2 + 8;
    lemma_len32_value(13);
    lemma_len32_value(cl);
    lemma_len32_value(sl);
    assert(spec_u32_at(bytes, 16) == 13);
    assert(spec_u32_at(bytes, 38) == cl);
    assert(bytes[soff - 8] == 83 && bytes[soff - 7] == 116 && bytes[soff - 6] == 107 && bytes[
        soff - 5] == 115);
    assert(spec_u32_at(bytes, soff - 4) == sl);
    assert(bytes.len() == soff + sl + sl % 2);
    assert((pc / 0x10000) * 0x10000 + ((pc / 0x100) % 0x100) * 0x100 + pc % 0x100 == pc) by {
        assert(pc / 0x10000 == (pc / 0x100) / 0x100) by (nonlinear_arith)
            requires
                0 <= pc < 0x1000000,
        ;
        assert((pc / 0x100) == ((pc / 0x100) / 0x100) * 0x100 + (pc / 0x100) % 0x100);
        assert(pc == (pc / 0x100) * 0x100 + pc % 0x100);
        assert(((pc / 0x100) / 0x100) * 0x100 * 0x100 + ((pc / 0x100) % 0x100) * 0x100 + pc
            % 0x100 == pc) by (nonlinear_arith)
            requires
                0 <= pc < 0x1000000,
        ;
    }
    assert(bytes[30] == (pc / 0x10000) as u8);
    assert(bytes[31] == ((pc / 0x100) % 0x100) as u8);
    assert(bytes[32] == (pc % 0x100) as u8);
    assert(bytes[20] == (release / 0x100) as u8);
    assert(bytes[21] == (release % 0x100) as u8);
    assert(bytes.subrange(22, 28) =~= serial);
    assert(bytes[28] == (chksum / 0x100) as u8);
    assert(bytes[29] == (chksum % 0x100) as u8);
    assert(bytes.subrange(42, 42 + cl) =~= cmem);
    lemma_quetzal_memory_round_trip(dynamic, orig);
    assert(bytes.subrange(soff, soff + sl) =~= stks);
    lemma_frames_round_trip(frames);
}

/// Append one serialised frame.
fn write_frame(out: &mut Vec<u8>, f: &Frame)
    requires
        spec_frame_fits(*f),
    ensures
        final(out)@ == old(out)@ + spec_frame_bytes(*f),
{
    let ghost pre = out@;
    let resume = f.resume;
    out.push((resume / 0x10000) as u8);
    out.push(((resume / 0x100) % 0x100) as u8);
    out.push((resume % 0x100) as u8);
    let nloc = f.locals.len() as u8;
    let flags: u8 = match f.store {
        Some(_) => nloc,
        None => nloc | 0x10,
    };
    proof {
        assert((nloc | 0u8) == nloc) by (bit_vector);
    }
    out.push(flags);
    let storeval: u8 = match f.store {
        Some(v) => v,
        None => 0,
    };
    out.push(storeval);
    let argmask: u8 = match f.arg_count {
        0 => 0,
        1 => 1,
        2 => 3,
        3 => 7,
        4 => 15,
        5 => 31,
        6 => 63,
        7 => 127,
        _ => 255,
    };
    out.push(argmask);
    let sl = f.stack.len();
    out.push((sl / 0x100) as u8);
    out.push((sl % 0x100) as u8);
    proof {
        assert(out@ =~= pre + spec_frame_bytes(*f).take(8));
    }
    let ghost mid = out@;
    let mut i: usize = 0;
    let n = f.locals.len();
    while i < n
        invariant
            n == f.locals@.len(),
            i <= n,
            out@ == mid + spec_words16(f.locals@.take(i as int)),
        decreases n - i,
    {
        let w = f.locals[i];
        out.push((w / 0x100) as u8);
        out.push((w % 0x100) as u8);
        i = i + 1;
        proof {
            lemma_words16_snoc(f.locals@.take(i as int));
            assert(f.locals@.take(i as int).drop_last() =~= f.locals@.take(i - 1));
            assert(out@ =~= mid + spec_words16(f.locals@.take(i as int)));
        }
    }
    proof {
        assert(f.locals@.take(n as int) =~= f.locals@);
    }
    let ghost mid2 = out@;
    let mut i: usize = 0;
    let n = f.stack.len();
    while i < n
        invariant
            n == f.stack@.len(),
            i <= n,
            out@ == mid2 + spec_words16(f.stack@.take(i as int)),
        decreases n - i,
    {
        let w = f.stack[i];
        out.push((w / 0x100) as u8);
        out.push((w % 0x100) as u8);
        i = i + 1;
        proof {
            lemma_words16_snoc(f.stack@.take(i as int));
            assert(f.stack@.take(i as int).drop_last() =~= f.stack@.take(i - 1));
            assert(out@ =~= mid2 + spec_words16(f.stack@.take(i as int)));
        }
    }
    proof {
        assert(f.stack@.take(n as int) =~= f.stack@);
        assert(out@ =~= pre + spec_frame_bytes(*f));
    }
}

/// Words flattened from the right: the flattening of a non-empty sequence is
/// that of its front followed by its last word's bytes.
pub proof fn lemma_words16_snoc(s: Seq<u16>)
    requires
        s.len() > 0,
    ensures
        spec_words16(s) == spec_words16(s.drop_last()) + seq![
            word_hi(s.last()),
            word_lo(s.last()),
        ],
    decreases s.len(),
{
    if s.len() == 1 {
        assert(s.skip(1) =~= Seq::<u16>::empty());
        assert(s.drop_last() =~= Seq::<u16>::empty());
        assert(spec_words16(s) =~= spec_words16(s.drop_last()) + seq![
            word_hi(s.last()),
            word_lo(s.last()),
        ]);
    } else {
        lemma_words16_snoc(s.skip(1));
        assert(s.skip(1).drop_last() =~= s.drop_last().skip(1));
        assert(s.skip(1).last() == s.last());
        assert(s.drop_last()[0] == s[0]);
        assert(s.drop_last().len() > 0);
        assert(spec_words16(s.drop_last()) == seq![word_hi(s[0]), word_lo(s[0])] + spec_words16(
            s.drop_last().skip(1),
        ));
        assert((seq![word_hi(s[0]), word_lo(s[0])] + spec_words16(s.drop_last().skip(1))) + seq![
            word_hi(s.last()),
            word_lo(s.last()),
        ] =~= seq![word_hi(s[0]), word_lo(s[0])] + (spec_words16(s.drop_last().skip(1)) + seq![
            word_hi(s.last()),
            word_lo(s.last()),
        ]));
        assert(spec_words16(s) =~= spec_words16(s.drop_last()) + seq![
            word_hi(s.last()),
            word_lo(s.last()),
        ]);
    }
}

/// Parse one frame at `pos`; on success, the frame and the position after
/// it.
fn read_frame(data: &[u8], pos: usize) -> (r: Result<(Frame, usize), ZmachineError>)
    ensures
        pos <= data@.len() ==> match spec_parse_frame(data@.skip(pos as int)) {
            None => r is Err,
            Some((resume, store, locals, stack, argc, used)) => match r {
                Err(_) => false,
                Ok((f, newpos)) => {
                    &&& f.resume == resume
                    &&& f.store == store
                    &&& f.locals@ == locals
                    &&& f.stack@ == stack
                    &&& f.arg_count == argc
                    &&& newpos == pos + used
                    &&& f.wf()
                },
            },
        },
        pos > data@.len() ==> r is Err,
{
    let n = data.len();
    if pos > n || n - pos < 8 {
        return Err(ZmachineError::SaveMismatch);
    }
    let ghost b = data@.skip(pos as int);
    let resume: usize = (data[pos] as usize) * 0x10000 + (data[pos + 1] as usize) * 0x100 + (
    data[pos + 2] as usize);
    let flags = data[pos + 3];
    let nloc = (flags & 0x0F) as usize;
    let store: Option<u8> = if flags & 0x10 != 0 {
        None
    } else {
        Some(data[pos + 4])
    };
    let argc: u8 = match data[pos + 5] {
        0 => 0,
        1 => 1,
        3 => 2,
        7 => 3,
        15 => 4,
        31 => 5,
        63 => 6,
        127 => 7,
        255 => 8,
        _ => {
            return Err(ZmachineError::SaveMismatch);
        },
    };
    let nstack = (data[pos + 6] as usize) * 0x100 + (data[pos + 7] as usize);
    proof {
        assert(b[0] == data@[pos as int]);
        assert(b[1] == data@[pos + 1]);
        assert(b[2] == data@[pos + 2]);
        assert(b[3] == data@[pos + 3]);
        assert(b[4] == data@[pos + 4]);
        assert(b[5] == data@[pos + 5]);
        assert(b[6] == data@[pos + 6]);
        assert(b[7] == data@[pos + 7]);
        assert((flags & 0x0F) <= 15) by (bit_vector);
    }
    if n - pos - 8 < 2 * nloc || n - pos - 8 - 2 * nloc < 2 * nstack {
        return Err(ZmachineError::SaveMismatch);
    }
    let mut locals: Vec<u16> = Vec::new();
    let base = pos + 8;
    let mut i: usize = 0;
    while i < nloc
        invariant
            i <= nloc,
            base == pos + 8,
            n == data@.len(),
            base + 2 * nloc + 2 * nstack <= n,
            locals@ == spec_parse_words(data@.skip(base as int), i as int),
            locals@.len() == i,
        decreases nloc - i,
    {
        let w: u16 = (data[base + 2 * i] as u16) * 0x100 + (data[base + 2 * i + 1] as u16);
        locals.push(w);
        i = i + 1;
        proof {
            lemma_parse_words_snoc(data@.skip(base as int), i as int);
        }
    }
    let base2 = base + 2 * nloc;
    let mut stack: Vec<u16> = Vec::new();
    let mut i: usize = 0;
    while i < nstack
        invariant
            i <= nstack,
            base2 == pos + 8 + 2 * nloc,
            n == data@.len(),
            base2 + 2 * nstack <= n,
            stack@ == spec_parse_words(data@.skip(base2 as int), i as int),
            stack@.len() == i,
        decreases nstack - i,
    {
        let w: u16 = (data[base2 + 2 * i] as u16) * 0x100 + (data[base2 + 2 * i + 1] as u16);
        stack.push(w);
        i = i + 1;
        proof {
            lemma_parse_words_snoc(data@.skip(base2 as int), i as int);
        }
    }
    let f = Frame { resume, store, locals, stack, arg_count: argc };
    proof {
        assert(data@.skip(base as int) =~= b.skip(8));
        assert(data@.skip(base2 as int) =~= b.skip(8 + 2 * nloc));
    }
    Ok((f, base2 + 2 * nstack))
}

/// The word parse extended by one more word.
pub proof fn lemma_parse_words_snoc(b: Seq<u8>, n: int)
    requires
        n >= 1,
        2 * n <= b.len(),
    ensures
        spec_parse_words(b, n) == spec_parse_words(b, n - 1).push(
            (((b[2 * (n - 1)] as int) * 256 + (b[2 * (n - 1) + 1] as int)) as u16),
        ),
    decreases n,
{
    if n == 1 {
        assert(spec_parse_words(b, 0) =~= Seq::<u16>::empty());
        assert(spec_parse_words(b.skip(2), 0) =~= Seq::<u16>::empty());
        assert(spec_parse_words(b, 1) =~= spec_parse_words(b, 0).push(
            (((b[0] as int) * 256 + (b[1] as int)) as u16),
        ));
    } else {
        lemma_parse_words_snoc(b.skip(2), n - 1);
        assert(b.skip(2)[2 * (n - 2)] == b[2 * (n - 1)]);
        assert(b.skip(2)[2 * (n - 2) + 1] == b[2 * (n - 1) + 1]);
        assert(spec_parse_words(b, n) =~= spec_parse_words(b, n - 1).push(
            (((b[2 * (n - 1)] as int) * 256 + (b[2 * (n - 1) + 1] as int)) as u16),
        ));
    }
}

/// A parsed save: the program counter at the save instruction, the restored
/// dynamic memory, the frame stack, and the identity fields checked against
/// the running story.
pub struct QuetzalSave {
    pub pc: usize,
    pub memory: Vec<u8>,
    pub frames: Vec<Frame>,
    pub chksum: u16,
    pub release: u16,
    pub serial: Vec<u8>,
}

/// Append a four-character chunk tag.
fn push_tag(out: &mut Vec<u8>, a: u8, b: u8, c: u8, d: u8)
    ensures
        final(out)@ == old(out)@ + seq![a, b, c, d],
{
    out.push(a);
    out.push(b);
    out.push(c);
    out.push(d);
    proof {
        assert(final(out)@ =~= old(out)@ + seq![a, b, c, d]);
    }
}

/// Append a 32-bit big-endian length.
fn push_len(out: &mut Vec<u8>, n: usize)
    requires
        n < 0x100000000,
    ensures
        final(out)@ == old(out)@ + spec_len32(n as int),
{
    out.push((n / 0x1000000) as u8);
    out.push(((n / 0x10000) % 0x100) as u8);
    out.push(((n / 0x100) % 0x100) as u8);
    out.push((n % 0x100) as u8);
    proof {
        assert(final(out)@ =~= old(out)@ + spec_len32(n as int));
    }
}

impl QuetzalSave {
    /// Serialise a save: an IFF `FORM IFZS` holding `IFhd` (release, serial,
    /// checksum, program counter), `CMem` (the compressed dynamic-memory
    /// delta) and `Stks` (the frame stack). The bytes are exactly the
    /// canonical `spec_save_bytes` layout.
    #[verifier::rlimit(100)]
    #[verifier::spinoff_prover]
    pub fn make(
        pc: usize,
        dynamic: &[u8],
        original: &[u8],
        frames: &Vec<Frame>,
        chksum: u16,
        release: u16,
        serial: &[u8],
    ) -> (r: Result<Vec<u8>, ZmachineError>)
        requires
            dynamic@.len() == original@.len(),
            pc < 0x1000000,
            serial@.len() == 6,
            forall|i: int| 0 <= i < frames@.len() ==> spec_frame_fits(#[trigger] frames@[i]),
        ensures
            r is Ok ==> r->Ok_0@ == spec_save_bytes(
                pc as int,
                dynamic@,
                original@,
                frames@,
                chksum,
                release,
                serial@,
            ),
            spec_rle(spec_xor(dynamic@, original@)).len() < 0xFFFFFF && spec_frames_bytes(
                frames@,
            ).len() < 0xFFFFFF ==> r is Ok,
    {
        let cmem = compress(dynamic, original);
        if cmem.len() >= 0xFFFFFF {
            return Err(ZmachineError::SaveMismatch);
        }
        let mut stks: Vec<u8> = Vec::new();
        let mut i: usize = 0;
        let nf = frames.len();
        proof {
            assert(frames@.take(0) =~= Seq::<Frame>::empty());
            assert(stks@ =~= spec_frames_bytes(frames@.take(0)));
        }
        while i < nf
            invariant
                nf == frames@.len(),
                i <= nf,
                forall|k: int| 0 <= k < frames@.len() ==> spec_frame_fits(#[trigger] frames@[k]),
                stks@ == spec_frames_bytes(frames@.take(i as int)),
            decreases nf - i,
        {
            if stks.len() >= 0xFFFFFF {
                proof {
                    lemma_frames_bytes_split(frames@, i as int);
                }
                return Err(ZmachineError::SaveMismatch);
            }
            write_frame(&mut stks, &frames[i]);
            i = i + 1;
            proof {
                lemma_frames_bytes_snoc(frames@, i - 1);
            }
        }
        proof {
            assert(frames@.take(nf as int) =~= frames@);
        }
        if stks.len() >= 0xFFFFFF {
            return Err(ZmachineError::SaveMismatch);
        }
        let ghost cmem0 = cmem@;
        let ghost stks0 = stks@;
        let mut out: Vec<u8> = Vec::new();
        // 'F' 'O' 'R' 'M', total length, 'I' 'F' 'Z' 'S'
        push_tag(&mut out, 70, 79, 82, 77);
        let ifhd_len: usize = 13;
        let body: usize = 4 + (8 + ifhd_len + 1) + (8 + cmem.len() + cmem.len() % 2) + (8
            + stks.len() + stks.len() % 2);
        push_len(&mut out, body);
        push_tag(&mut out, 73, 70, 90, 83);
        let ghost hdr = seq![70u8, 79u8, 82u8, 77u8] + spec_len32(body as int) + seq![
            73u8,
            70u8,
            90u8,
            83u8,
        ];
        proof {
            assert(out@ =~= hdr);
        }
        // 'I' 'F' 'h' 'd'
        push_tag(&mut out, 73, 70, 104, 100);
        push_len(&mut out, ifhd_len);
        out.push((release / 0x100) as u8);
        out.push((release % 0x100) as u8);
        let ghost pre_serial = out@;
        let mut k: usize = 0;
        while k < 6
            invariant
                k <= 6,
                serial@.len() == 6,
                out@ == pre_serial + serial@.take(k as int),
            decreases 6 - k,
        {
            out.push(serial[k]);
            k = k + 1;
            proof {
                assert(out@ =~= pre_serial + serial@.take(k as int));
            }
        }
        proof {
            assert(serial@.take(6) =~= serial@);
        }
        out.push((chksum / 0x100) as u8);
        out.push((chksum % 0x100) as u8);
        out.push((pc / 0x10000) as u8);
        out.push(((pc / 0x100) % 0x100) as u8);
        out.push((pc % 0x100) as u8);
        out.push(0);  // pad to even
        let ghost ifhd = seq![(release / 0x100) as u8, (release % 0x100) as u8] + serial@ + seq![
            (chksum / 0x100) as u8,
            (chksum % 0x100) as u8,
            (pc as int / 0x10000) as u8,
            ((pc as int / 0x100) % 0x100) as u8,
            (pc as int % 0x100) as u8,
            0u8,
        ];
        let ghost hdr2 = hdr + seq![73u8, 70u8, 104u8, 100u8] + spec_len32(13) + ifhd;
        proof {
            assert(out@ =~= hdr2);
        }
        // 'C' 'M' 'e' 'm'
        push_tag(&mut out, 67, 77, 101, 109);
        push_len(&mut out, cmem.len());
        let ghost pre_cmem = out@;
        let mut k: usize = 0;
        let cn = cmem.len();
        while k < cn
            invariant
                cn == cmem@.len(),
                cmem@ == cmem0,
                k <= cn,
                out@ == pre_cmem + cmem0.take(k as int),
            decreases cn - k,
        {
            out.push(cmem[k]);
            k = k + 1;
            proof {
                assert(out@ =~= pre_cmem + cmem0.take(k as int));
            }
        }
        proof {
            assert(cmem0.take(cn as int) =~= cmem0);
        }
        if cn % 2 == 1 {
            out.push(0);
        }
        let ghost hdr3 = hdr2 + seq![67u8, 77u8, 101u8, 109u8] + spec_len32(cn as int)
            + spec_pad_even(cmem0);
        proof {
            assert(out@ =~= hdr3);
        }
        // 'S' 't' 'k' 's'
        push_tag(&mut out, 83, 116, 107, 115);
        push_len(&mut out, stks.len());
        let ghost pre_stks = out@;
        let mut k: usize = 0;
        let sn = stks.len();
        while k < sn
            invariant
                sn == stks@.len(),
                stks@ == stks0,
                k <= sn,
                out@ == pre_stks + stks0.take(k as int),
            decreases sn - k,
        {
            out.push(stks[k]);
            k = k + 1;
            proof {
                assert(out@ =~= pre_stks + stks0.take(k as int));
            }
        }
        proof {
            assert(stks0.take(sn as int) =~= stks0);
        }
        if sn % 2 == 1 {
            out.push(0);
        }
        proof {
            assert(out@ =~= hdr3 + seq![83u8, 116u8, 107u8, 115u8] + spec_len32(sn as int)
                + spec_pad_even(stks0));
            assert(out@ =~= spec_save_bytes(
                pc as int,
                dynamic@,
                original@,
                frames@,
                chksum,
                release,
                serial@,
            ));
        }
        Ok(out)
    }

    /// Parse a save in the canonical layout and decompress its memory
    /// against the boot snapshot: the exact executable counterpart of
    /// `spec_parse_save`. Anything else fails with `SaveMismatch`.
    #[verifier::rlimit(100)]
    #[verifier::spinoff_prover]
    pub fn from_bytes(bytes: &[u8], original: &[u8]) -> (r: Result<QuetzalSave, ZmachineError>)
        ensures
            match spec_parse_save(bytes@, original@) {
                None => r is Err,
                Some((pc, mem, ftuples, chksum, release, serial)) => match r {
                    Err(_) => false,
                    Ok(save) => {
                        &&& save.pc == pc
                        &&& save.memory@ == mem
                        &&& spec_frame_tuples(save.frames@) == ftuples
                        &&& save.frames@.len() == ftuples.len()
                        &&& save.chksum == chksum
                        &&& save.release == release
                        &&& save.serial@ == serial
                        &&& forall|i: int|
                            0 <= i < save.frames@.len() ==> (#[trigger] save.frames@[i]).wf()
                    },
                },
            },
    {
        let n = bytes.len();
        if n < 42 {
            return Err(ZmachineError::SaveMismatch);
        }
        if n as u64 >= 0x200000040u64 {
            // Larger than any length the canonical layout can express.
            proof {
                let cl2 = spec_u32_at(bytes@, 38);
                if bytes@.len() >= 42 + cl2 + cl2 % 2 + 8 {
                    let soff2 = 42 + cl2 + cl2 % 2 + 8;
                    let sl2 = spec_u32_at(bytes@, soff2 - 4);
                    assert(cl2 < 0x100000000 && sl2 < 0x100000000);
                    assert(soff2 + sl2 + sl2 % 2 < 0x200000040);
                }
            }
            return Err(ZmachineError::SaveMismatch);
        }
        if !(bytes[0] == 70 && bytes[1] == 79 && bytes[2] == 82 && bytes[3] == 77 && bytes[8]
            == 73 && bytes[9] == 70 && bytes[10] == 90 && bytes[11] == 83 && bytes[12] == 73
            && bytes[13] == 70 && bytes[14] == 104 && bytes[15] == 100 && bytes[34] == 67
            && bytes[35] == 77 && bytes[36] == 101 && bytes[37] == 109) {
            return Err(ZmachineError::SaveMismatch);
        }
        let ifhd_len = u32_at(bytes, 16);
        if ifhd_len != 13 {
            return Err(ZmachineError::SaveMismatch);
        }
        let release = (bytes[20] as u16) * 0x100 + (bytes[21] as u16);
        let serial = slice_range(bytes, 22, 6);
        let chksum = (bytes[28] as u16) * 0x100 + (bytes[29] as u16);
        let pc = (bytes[30] as usize) * 0x10000 + (bytes[31] as usize) * 0x100 + (bytes[32]
            as usize);
        let cl = u32_at(bytes, 38);
        let soff64: u64 = 42 + cl as u64 + (cl as u64) % 2 + 8;
        if soff64 > n as u64 {
            return Err(ZmachineError::SaveMismatch);
        }
        let soff = soff64 as usize;
        if !(bytes[soff - 8] == 83 && bytes[soff - 7] == 116 && bytes[soff - 6] == 107 && bytes[
        soff - 5] == 115) {
            return Err(ZmachineError::SaveMismatch);
        }
        let sl = u32_at(bytes, soff - 4);
        if (n as u64) != soff as u64 + sl as u64 + (sl as u64) % 2 {
            return Err(ZmachineError::SaveMismatch);
        }
        let cmem = slice_range(bytes, 42, cl);
        let memory = decompress(cmem.as_slice(), original)?;
        let stks = slice_range(bytes, soff, sl);
        let mut frames: Vec<Frame> = Vec::new();
        let ghost stks0 = stks@;
        let ghost parsed = spec_parse_save(bytes@, original@);
        proof {
            assert(stks0.skip(0) =~= stks0);
            assert(spec_frame_tuples(frames@) =~= Seq::<
                (int, Option<u8>, Seq<u16>, Seq<u16>, u8),
            >::empty());
            match parsed {
                None => {
                    assert(spec_parse_frames(stks0) is None);
                },
                Some(t) => {
                    assert(spec_parse_frames(stks0) == Some(t.2));
                    assert(t.0 == pc as int);
                    assert(t.1 == memory@);
                    assert(t.3 == chksum);
                    assert(t.4 == release);
                    assert(t.5 == serial@);
                },
            }
        }
        let mut fpos: usize = 0;
        while fpos < sl
            invariant
                sl == stks@.len(),
                stks@ == stks0,
                fpos <= sl,
                parsed == spec_parse_save(bytes@, original@),
                forall|i: int| 0 <= i < frames@.len() ==> (#[trigger] frames@[i]).wf(),
                spec_frame_tuples(frames@).len() == frames@.len(),
                match parsed {
                    None => spec_parse_frames(stks0) is None,
                    Some(t) => {
                        &&& spec_parse_frames(stks0) == Some(t.2)
                        &&& t.0 == pc as int
                        &&& t.1 == memory@
                        &&& t.3 == chksum
                        &&& t.4 == release
                        &&& t.5 == serial@
                    },
                },
                match spec_parse_frames(stks0) {
                    None => spec_parse_frames(stks0.skip(fpos as int)) is None,
                    Some(all) => match spec_parse_frames(stks0.skip(fpos as int)) {
                        None => false,
                        Some(rest) => all == spec_frame_tuples(frames@) + rest,
                    },
                },
            decreases sl - fpos,
        {
            let ghost pre = frames@;
            let (f, np) = read_frame(stks.as_slice(), fpos)?;
            proof {
                let sub = stks0.skip(fpos as int);
                assert(sub.len() > 0);
                assert(spec_parse_frame(sub) is Some);
                let used = spec_parse_frame(sub)->Some_0.5;
                assert(8 <= used <= sub.len());
                assert(np == fpos + used);
            }
            if np <= fpos || np > sl {
                proof {
                    assert(false);
                }
                return Err(ZmachineError::SaveMismatch);
            }
            frames.push(f);
            proof {
                let sub = stks0.skip(fpos as int);
                let used0 = spec_parse_frame(sub)->Some_0.5;
                assert(sub.skip(used0) =~= stks0.skip(np as int));
                assert(frames@ =~= pre.push(f));
                assert(frames@.take(frames@.len() - 1) =~= pre);
                lemma_frame_tuples_snoc(frames@, frames@.len() - 1);
                assert(frames@.take(frames@.len() as int) =~= frames@);
                if spec_parse_frames(stks0) is Some {
                    assert(frames@[frames@.len() - 1] == f);
                    let t = seq![(f.resume as int, f.store, f.locals@, f.stack@, f.arg_count)];
                    let rest2 = spec_parse_frames(stks0.skip(np as int))->Some_0;
                    assert((spec_frame_tuples(pre) + t) + rest2 =~= spec_frame_tuples(pre) + (t
                        + rest2));
                    assert(t + rest2 =~= spec_parse_frames(sub)->Some_0);
                }
            }
            fpos = np;
        }
        proof {
            assert(stks0.skip(sl as int) =~= Seq::<u8>::empty());
            if spec_parse_frames(stks0) is Some {
                assert(spec_parse_frames(stks0)->Some_0 =~= spec_frame_tuples(frames@));
            }
        }
        Ok(QuetzalSave { pc, memory, frames, chksum, release, serial })
    }
}

/// The 32-bit big-endian value at `p`.
fn u32_at(data: &[u8], p: usize) -> (r: usize)
    requires
        p + 4 <= data@.len(),
    ensures
        r == spec_u32_at(data@, p as int),
{
    (data[p] as usize) * 0x1000000 + (data[p + 1] as usize) * 0x10000 + (data[p + 2] as usize)
        * 0x100 + (data[p + 3] as usize)
}

/// A copy of `count` bytes starting at `start`.
fn slice_range(data: &[u8], start: usize, count: usize) -> (r: Vec<u8>)
    requires
        start + count <= data@.len(),
    ensures
        r@ == data@.subrange(start as int, start + count),
{
    let dn = data.len();
    let mut out: Vec<u8> = Vec::new();
    let mut i: usize = 0;
    while i < count
        invariant
            dn == data@.len(),
            start + count <= dn,
            i <= count,
            out@ == data@.subrange(start as int, start + i),
        decreases count - i,
    {
        out.push(data[start + i]);
        proof {
            assert(out@ =~= data@.subrange(start as int, start + i + 1));
        }
        i = i + 1;
    }
    out
}

} // verus!
