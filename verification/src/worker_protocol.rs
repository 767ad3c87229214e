//! Wire format shared by the main process and the sandboxed PDF workers: a
//! small JSON "header" for the message shape plus an optional raw binary
//! blob (PDF bytes, a rendered pixel buffer, or a serialized document) -
//! large payloads go through the blob rather than JSON, which would bloat
//! them as a number-per-byte array.
//!
//! A message is the header's length as 4 little-endian bytes, the header,
//! the blob's length as 8 little-endian bytes, then the blob.

use vstd::prelude::*;

verus! {

/// Refuses to read a message whose header or blob claims to be larger than
/// this, so a worker can't make its counterpart allocate an unbounded amount
/// of memory just by claiming a huge length.
pub const MAX_MESSAGE_BYTES: u64 = 1024 * 1024 * 1024;

/// Request understood by the short-lived export worker: flatten a whole
/// document into a real PDF file at the destination path given on its
/// command line.
#[derive(Clone, Copy, Debug, PartialEq, Eq, Structural)]
pub enum ExportRequest {
    /// The document to flatten (JSON-serialized) follows as the raw blob.
    Export,
}

/// The export worker's answer.
#[derive(Clone, Debug, PartialEq)]
pub enum ExportResponse {
    Done,
    Error(String),
}

/// Why a message could not be read.
#[derive(Clone, Copy, Debug, PartialEq, Eq, Structural)]
pub enum FrameError {
    /// The bytes end before the message does.
    Truncated,
    /// The header claims more than [`MAX_MESSAGE_BYTES`] bytes.
    HeaderTooLarge(u64),
    /// The blob claims more than [`MAX_MESSAGE_BYTES`] bytes.
    BlobTooLarge(u64),
}

/// `256^k`.
pub open spec fn pow256(k: nat) -> nat
    decreases k,
{
    if k == 0 {
        1
    } else {
        256 * pow256((k - 1) as nat)
    }
}

/// The `k` least significant bytes of `n`, least significant first.
pub open spec fn le_bytes(n: nat, k: nat) -> Seq<u8>
    decreases k,
{
    if k == 0 {
        Seq::empty()
    } else {
        seq![(n % 256) as u8] + le_bytes(n / 256, (k - 1) as nat)
    }
}

/// The number that little-endian `bytes` spell.
pub open spec fn le_value(bytes: Seq<u8>) -> nat
    decreases bytes.len(),
{
    if bytes.len() == 0 {
        0
    } else {
        (bytes[0] + 256 * le_value(bytes.drop_first())) as nat
    }
}

/// The bytes of one message. The header length is written as a `u32`, so
/// only its low 32 bits survive.
pub open spec fn spec_encode(header: Seq<u8>, blob: Seq<u8>) -> Seq<u8> {
    le_bytes(header.len() % pow256(4), 4) + header + le_bytes(blob.len(), 8) + blob
}

/// Reading one message from the front of `bytes`: the header, the blob and
/// how many bytes the message took.
pub open spec fn spec_decode(bytes: Seq<u8>) -> Result<(Seq<u8>, Seq<u8>, nat), FrameError> {
    if bytes.len() < 4 {
        Err(FrameError::Truncated)
    } else {
        let hl = le_value(bytes.subrange(0, 4)) as int;
        if hl > MAX_MESSAGE_BYTES {
            Err(FrameError::HeaderTooLarge(hl as u64))
        } else if bytes.len() < 4 + hl + 8 {
            Err(FrameError::Truncated)
        } else {
            let bl = le_value(bytes.subrange(4 + hl, 4 + hl + 8)) as int;
            if bl > MAX_MESSAGE_BYTES {
                Err(FrameError::BlobTooLarge(bl as u64))
            } else if bytes.len() < 4 + hl + 8 + bl {
                Err(FrameError::Truncated)
            } else {
                Ok(
                    (
                        bytes.subrange(4, 4 + hl),
                        bytes.subrange(4 + hl + 8, 4 + hl + 8 + bl),
                        (4 + hl + 8 + bl) as nat,
                    ),
                )
            }
        }
    }
}

proof fn lemma_le_bytes_len(n: nat, k: nat)
    ensures
        le_bytes(n, k).len() == k,
    decreases k,
{
    if k > 0 {
        lemma_le_bytes_len(n / 256, (k - 1) as nat);
    }
}

proof fn lemma_le_round_trip(n: nat, k: nat)
    requires
        n < pow256(k),
    ensures
        le_value(le_bytes(n, k)) == n,
    decreases k,
{
    if k > 0 {
        let p = pow256((k - 1) as nat);
        assert(n / 256 < p) by (nonlinear_arith)
            requires
                n < 256 * p,
        ;
        lemma_le_round_trip(n / 256, (k - 1) as nat);
        let b = le_bytes(n, k);
        assert(b.drop_first() =~= le_bytes(n / 256, (k - 1) as nat));
        assert(n == n % 256 + 256 * (n / 256)) by (nonlinear_arith);
    }
}

proof fn lemma_le_value_bound(bytes: Seq<u8>)
    ensures
        le_value(bytes) < pow256(bytes.len()),
    decreases bytes.len(),
{
    if bytes.len() > 0 {
        lemma_le_value_bound(bytes.drop_first());
        let v = le_value(bytes.drop_first());
        let p = pow256(bytes.drop_first().len());
        let b0 = bytes[0] as nat;
        assert(b0 + 256 * v < 256 * p) by (nonlinear_arith)
            requires
                v < p,
                b0 < 256,
        ;
    }
}

proof fn lemma_pow256_facts()
    ensures
        pow256(4) == 0x1_0000_0000,
        pow256(8) == 0x1_0000_0000_0000_0000,
{
    reveal_with_fuel(pow256, 9);
}

/// Appends the `k` low bytes of `v`, least significant first.
fn push_le(out: &mut Vec<u8>, v: u64, k: usize)
    requires
        k <= 8,
    ensures
        final(out)@ == old(out)@ + le_bytes(v as nat, k as nat),
{
    let mut rest = v;
    let mut i: usize = 0;
    while i < k
        invariant
            i <= k <= 8,
            out@ + le_bytes(rest as nat, (k - i) as nat) == old(out)@ + le_bytes(v as nat, k as nat),
        decreases k - i,
    {
        let ghost before = out@;
        let ghost r = rest as nat;
        out.push((rest % 256) as u8);
        rest = rest / 256;
        proof {
            assert(le_bytes(r, (k - i) as nat) =~= seq![(r % 256) as u8] + le_bytes(
                rest as nat,
                (k - i - 1) as nat,
            ));
            assert(out@ + le_bytes(rest as nat, (k - i - 1) as nat) =~= before + le_bytes(
                r,
                (k - i) as nat,
            ));
        }
        i = i + 1;
    }
}

/// The number spelled by the `k` little-endian bytes at `start`.
fn read_le(bytes: &[u8], start: usize, k: usize) -> (r: u64)
    requires
        k <= 8,
        start + k <= bytes@.len(),
    ensures
        r == le_value(bytes@.subrange(start as int, start + k)),
{
    let mut acc: u64 = 0;
    let mut i: usize = k;
    let n = bytes.len();
    proof {
        lemma_pow256_facts();
        assert(bytes@.subrange(start + k, start + k) =~= Seq::<u8>::empty());
    }
    while i > 0
        invariant
            i <= k <= 8,
            start + k <= bytes@.len(),
            n == bytes@.len(),
            acc == le_value(bytes@.subrange(start + i, start + k)),
            pow256(8) == 0x1_0000_0000_0000_0000,
        decreases i,
    {
        i = i - 1;
        let ghost tail = bytes@.subrange(start + i + 1, start + k);
        let ghost whole = bytes@.subrange(start + i, start + k);
        proof {
            lemma_le_value_bound(tail);
            assert(whole.drop_first() =~= tail);
            assert(pow256(tail.len()) <= pow256(7)) by {
                lemma_pow256_mono(tail.len(), 7);
            }
            reveal_with_fuel(pow256, 8);
            assert(acc < 0x100_0000_0000_0000);
        }
        let b = bytes[start + i];
        acc = acc * 256 + b as u64;
    }
    acc
}

proof fn lemma_pow256_mono(a: nat, b: nat)
    requires
        a <= b,
    ensures
        pow256(a) <= pow256(b),
    decreases b,
{
    if a < b {
        lemma_pow256_mono(a, (b - 1) as nat);
    }
}

/// Writes `header` then `blob`, each length-prefixed (the header length as 4
/// bytes, truncated to 32 bits; the blob length as 8 bytes).
pub fn encode_message(header: &[u8], blob: &[u8]) -> (out: Vec<u8>)
    requires
        header@.len() + blob@.len() + 12 <= usize::MAX,
    ensures
        out@ == spec_encode(header@, blob@),
{
    let mut out: Vec<u8> = Vec::new();
    push_le(&mut out, (header.len() as u64) % 0x1_0000_0000, 4);
    out.extend_from_slice(header);
    push_le(&mut out, blob.len() as u64, 8);
    out.extend_from_slice(blob);
    proof {
        lemma_pow256_facts();
        assert(out@ =~= spec_encode(header@, blob@));
    }
    out
}

/// The header length announced by the first 4 bytes of a message, refused
/// above [`MAX_MESSAGE_BYTES`].
pub fn header_len(prefix: &[u8]) -> (r: Result<usize, FrameError>)
    requires
        prefix@.len() == 4,
    ensures
        ({
            let n = le_value(prefix@);
            if n > MAX_MESSAGE_BYTES {
                r == Err::<usize, FrameError>(FrameError::HeaderTooLarge(n as u64))
            } else {
                r == Ok::<usize, FrameError>(n as usize)
            }
        }),
{
    proof {
        assert(prefix@.subrange(0, 4) =~= prefix@);
    }
    let n = read_le(prefix, 0, 4);
    if n > MAX_MESSAGE_BYTES {
        Err(FrameError::HeaderTooLarge(n))
    } else {
        Ok(n as usize)
    }
}

/// The blob length announced by the 8 bytes after a message's header,
/// refused above [`MAX_MESSAGE_BYTES`].
pub fn blob_len(prefix: &[u8]) -> (r: Result<usize, FrameError>)
    requires
        prefix@.len() == 8,
    ensures
        ({
            let n = le_value(prefix@);
            if n > MAX_MESSAGE_BYTES {
                r == Err::<usize, FrameError>(FrameError::BlobTooLarge(n as u64))
            } else {
                r == Ok::<usize, FrameError>(n as usize)
            }
        }),
{
    proof {
        assert(prefix@.subrange(0, 8) =~= prefix@);
    }
    let n = read_le(prefix, 0, 8);
    if n > MAX_MESSAGE_BYTES {
        Err(FrameError::BlobTooLarge(n))
    } else {
        Ok(n as usize)
    }
}

/// Reads one `(header, blob)` message from the front of `bytes`, returning
/// them with the number of bytes the message took.
pub fn decode_message(bytes: &[u8]) -> (r: Result<(Vec<u8>, Vec<u8>, usize), FrameError>)
    ensures
        match spec_decode(bytes@) {
            Ok((h, b, n)) => r matches Ok((h2, b2, n2)) && h2@ == h && b2@ == b && n2 == n,
            Err(e) => r == Err::<(Vec<u8>, Vec<u8>, usize), FrameError>(e),
        },
{
    if bytes.len() < 4 {
        return Err(FrameError::Truncated);
    }
    let hl = read_le(bytes, 0, 4);
    if hl > MAX_MESSAGE_BYTES {
        return Err(FrameError::HeaderTooLarge(hl));
    }
    let hl = hl as usize;
    if bytes.len() - 4 < hl || bytes.len() - 4 - hl < 8 {
        return Err(FrameError::Truncated);
    }
    let bl = read_le(bytes, 4 + hl, 8);
    if bl > MAX_MESSAGE_BYTES {
        return Err(FrameError::BlobTooLarge(bl));
    }
    let bl = bl as usize;
    if bytes.len() - 12 - hl < bl {
        return Err(FrameError::Truncated);
    }
    let header = slice_to_vec(bytes, 4, 4 + hl);
    let blob = slice_to_vec(bytes, 12 + hl, 12 + hl + bl);
    Ok((header, blob, 12 + hl + bl))
}

/// A copy of `bytes[from..to]`.
fn slice_to_vec(bytes: &[u8], from: usize, to: usize) -> (v: Vec<u8>)
    requires
        from <= to <= bytes@.len(),
    ensures
        v@ == bytes@.subrange(from as int, to as int),
{
    let mut v: Vec<u8> = Vec::new();
    let mut i = from;
    while i < to
        invariant
            from <= i <= to <= bytes@.len(),
            v@ == bytes@.subrange(from as int, i as int),
        decreases to - i,
    {
        v.push(bytes[i]);
        proof {
            assert(bytes@.subrange(from as int, i + 1) =~= bytes@.subrange(from as int, i as int).push(bytes@[i as int]));
        }
        i = i + 1;
    }
    v
}

/// Reading back what was written gives the same header and blob, and
/// consumes exactly the written bytes whatever follows them - as long as
/// both fit under the size cap.
pub proof fn lemma_decode_encode(header: Seq<u8>, blob: Seq<u8>, rest: Seq<u8>)
    requires
        header.len() <= MAX_MESSAGE_BYTES,
        blob.len() <= MAX_MESSAGE_BYTES,
    ensures
        spec_decode(spec_encode(header, blob) + rest) == Ok::<(Seq<u8>, Seq<u8>, nat), FrameError>(
            (header, blob, spec_encode(header, blob).len()),
        ),
{
    lemma_pow256_facts();
    let hl = header.len() as int;
    let bl = blob.len() as int;
    let hb = le_bytes(header.len() % pow256(4), 4);
    let bb = le_bytes(blob.len(), 8);
    lemma_le_bytes_len(header.len() % pow256(4), 4);
    lemma_le_bytes_len(blob.len(), 8);
    assert(header.len() % pow256(4) == header.len());
    lemma_le_round_trip(header.len(), 4);
    lemma_le_round_trip(blob.len(), 8);
    let all = spec_encode(header, blob) + rest;
    assert(all.subrange(0, 4) =~= hb);
    assert(all.subrange(4, 4 + hl) =~= header);
    assert(all.subrange(4 + hl, 4 + hl + 8) =~= bb);
    assert(all.subrange(4 + hl + 8, 4 + hl + 8 + bl) =~= blob);
}

/// The outcome an export answer reports: success, or the worker's message.
pub fn export_outcome(resp: ExportResponse) -> (r: Result<(), String>)
    ensures
        match resp {
            ExportResponse::Done => r == Ok::<(), String>(()),
            ExportResponse::Error(msg) => r == Err::<(), String>(msg),
        },
{
    match resp {
        ExportResponse::Done => Ok(()),
        ExportResponse::Error(msg) => Err(msg),
    }
}

} // verus!
