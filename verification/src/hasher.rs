//! Partial-content fingerprinting.
//!
//! A file's fingerprint is the string
//! `xxh64:<first hash>:<last hash>:<size>`: two 64-bit digests printed
//! as sixteen lowercase hex digits each, and the byte size in decimal.
//! Files under [`SMALL_LIMIT`] bytes are hashed whole and the single
//! digest is written twice, so the format is uniform; larger files are
//! summarized by the digests of their first and last [`CHUNK_SIZE`]
//! bytes alone. The caller opens and reads the file; everything from
//! the bytes read to the final string is verified here.

use vstd::prelude::*;
use vstd::string::StrSliceExecFns;
use vstd::string::StringExecFns;

verus! {

/// Number of bytes hashed at each end of a large file.
pub const CHUNK_SIZE: usize = 65536;

/// Files smaller than this (twice [`CHUNK_SIZE`]) are hashed whole.
pub const SMALL_LIMIT: u64 = 131072;

/// The 64-bit xxHash digest of `data` under `seed`. The algorithm is
/// left uninterpreted; the library relies on it being a pure function
/// of the bytes and the seed.
pub uninterp spec fn xxh64_of(data: Seq<u8>, seed: u64) -> u64;

/// Relies on xxhash_rust::xxh64::xxh64: the digest is computed from
/// the input bytes and the seed alone.
#[verifier::external_body]
fn xxh64_digest(data: &[u8], seed: u64) -> (r: u64)
    ensures
        r == xxh64_of(data@, seed),
{
    xxhash_rust::xxh64::xxh64(data, seed)
}

/// The lowercase digit for a value in `0 ..= 15`: decimal digits up
/// to `9`, hex digits `a` through `f` beyond.
pub open spec fn digit_char(d: int) -> char {
    if d == 0 {
        '0'
    } else if d == 1 {
        '1'
    } else if d == 2 {
        '2'
    } else if d == 3 {
        '3'
    } else if d == 4 {
        '4'
    } else if d == 5 {
        '5'
    } else if d == 6 {
        '6'
    } else if d == 7 {
        '7'
    } else if d == 8 {
        '8'
    } else if d == 9 {
        '9'
    } else if d == 10 {
        'a'
    } else if d == 11 {
        'b'
    } else if d == 12 {
        'c'
    } else if d == 13 {
        'd'
    } else if d == 14 {
        'e'
    } else {
        'f'
    }
}

/// The `i`-th nibble of `h`, counted from the most significant end.
pub open spec fn nibble_of(h: u64, i: int) -> int {
    ((h >> (((15 - i) * 4) as u64)) & 0xf) as int
}

/// `h` as sixteen lowercase hex digits, most significant first.
pub open spec fn hex16_of(h: u64) -> Seq<char> {
    Seq::new(16, |i: int| digit_char(nibble_of(h, i)))
}

/// `n` in decimal, no padding, no sign.
pub open spec fn dec_of(n: nat) -> Seq<char>
    decreases n,
{
    if n < 10 {
        seq![digit_char(n as int)]
    } else {
        dec_of(n / 10) + seq![digit_char((n % 10) as int)]
    }
}

/// The canonical fingerprint text for a pair of digests and a size.
pub open spec fn fingerprint_format(first: u64, last: u64, size: u64) -> Seq<char> {
    seq!['x', 'x', 'h', '6', '4', ':'] + hex16_of(first) + seq![':'] + hex16_of(last) + seq![':']
        + dec_of(size as nat)
}

/// The fingerprint owed to a file whose entire content is `c`: small
/// files are digested whole (the digest written twice), large ones by
/// their first and last chunk.
pub open spec fn fingerprint_of(c: Seq<u8>) -> Seq<char> {
    if c.len() < SMALL_LIMIT {
        fingerprint_format(xxh64_of(c, 0), xxh64_of(c, 0), c.len() as u64)
    } else {
        fingerprint_format(
            xxh64_of(c.subrange(0, CHUNK_SIZE as int), 0),
            xxh64_of(c.subrange(c.len() - CHUNK_SIZE, c.len() as int), 0),
            c.len() as u64,
        )
    }
}

fn push_digit(s: &mut String, d: u64)
    requires
        d < 16,
    ensures
        final(s)@ == old(s)@ + seq![digit_char(d as int)],
{
    let p: &str = if d == 0 {
        "0"
    } else if d == 1 {
        "1"
    } else if d == 2 {
        "2"
    } else if d == 3 {
        "3"
    } else if d == 4 {
        "4"
    } else if d == 5 {
        "5"
    } else if d == 6 {
        "6"
    } else if d == 7 {
        "7"
    } else if d == 8 {
        "8"
    } else if d == 9 {
        "9"
    } else if d == 10 {
        "a"
    } else if d == 11 {
        "b"
    } else if d == 12 {
        "c"
    } else if d == 13 {
        "d"
    } else if d == 14 {
        "e"
    } else {
        "f"
    };
    proof {
        reveal_strlit("0");
        reveal_strlit("1");
        reveal_strlit("2");
        reveal_strlit("3");
        reveal_strlit("4");
        reveal_strlit("5");
        reveal_strlit("6");
        reveal_strlit("7");
        reveal_strlit("8");
        reveal_strlit("9");
        reveal_strlit("a");
        reveal_strlit("b");
        reveal_strlit("c");
        reveal_strlit("d");
        reveal_strlit("e");
        reveal_strlit("f");
        assert(p@ =~= seq![digit_char(d as int)]);
    }
    s.append(p);
}

fn push_hex16(s: &mut String, h: u64)
    ensures
        final(s)@ == old(s)@ + hex16_of(h),
{
    let mut i: usize = 0;
    while i < 16
        invariant
            i <= 16,
            s@ == old(s)@ + Seq::new(i as nat, |k: int| digit_char(nibble_of(h, k))),
        decreases 16 - i,
    {
        let shift: u64 = ((15 - i) * 4) as u64;
        let d: u64 = (h >> shift) & 0xf;
        proof {
            assert((h >> shift) & 0xf < 16) by (bit_vector);
            assert(d as int == nibble_of(h, i as int));
        }
        push_digit(s, d);
        i = i + 1;
        proof {
            assert(s@ =~= old(s)@ + Seq::new(i as nat, |k: int| digit_char(nibble_of(h, k))));
        }
    }
    proof {
        assert(Seq::new(16, |k: int| digit_char(nibble_of(h, k))) =~= hex16_of(h));
    }
}

fn push_decimal(s: &mut String, n: u64)
    ensures
        final(s)@ == old(s)@ + dec_of(n as nat),
    decreases n,
{
    if n >= 10 {
        proof {
            assert(n / 10 < n) by (nonlinear_arith)
                requires
                    n >= 10,
            ;
        }
        push_decimal(s, n / 10);
        push_digit(s, n % 10);
        proof {
            assert(s@ =~= old(s)@ + dec_of(n as nat));
        }
    } else {
        push_digit(s, n);
    }
}

/// Builds `xxh64:<first>:<last>:<size>` with both digests as sixteen
/// lowercase, zero-padded hex digits and the size in plain decimal.
pub fn fingerprint_string(first: u64, last: u64, size: u64) -> (r: String)
    ensures
        r@ == fingerprint_format(first, last, size),
{
    let mut s = String::from_str("xxh64:");
    push_hex16(&mut s, first);
    s.append(":");
    push_hex16(&mut s, last);
    s.append(":");
    push_decimal(&mut s, size);
    proof {
        reveal_strlit("xxh64:");
        reveal_strlit(":");
        assert(s@ =~= fingerprint_format(first, last, size));
    }
    s
}

/// Fingerprint of a small file from its entire content: one digest,
/// written into both hash fields.
pub fn fingerprint_small(content: &[u8]) -> (r: String)
    requires
        content@.len() < SMALL_LIMIT,
    ensures
        r@ == fingerprint_of(content@),
{
    let h = xxh64_digest(content, 0);
    fingerprint_string(h, h, content.len() as u64)
}

/// Fingerprint of a large file from its size and its first and last
/// chunks. The result agrees with [`fingerprint_of`] on every content
/// whose ends are these chunks: the middle bytes are never consulted.
pub fn fingerprint_chunks(size: u64, first: &[u8], last: &[u8]) -> (r: String)
    requires
        size >= SMALL_LIMIT,
        first@.len() == CHUNK_SIZE,
        last@.len() == CHUNK_SIZE,
    ensures
        r@ == fingerprint_format(xxh64_of(first@, 0), xxh64_of(last@, 0), size),
        forall|c: Seq<u8>|
            c.len() == size && c.subrange(0, CHUNK_SIZE as int) == first@ && c.subrange(
                c.len() - CHUNK_SIZE,
                c.len() as int,
            ) == last@ ==> #[trigger] fingerprint_of(c) == r@,
{
    let fh = xxh64_digest(first, 0);
    let lh = xxh64_digest(last, 0);
    fingerprint_string(fh, lh, size)
}

proof fn lemma_dec_of_len(n: nat)
    ensures
        dec_of(n).len() >= 1,
    decreases n,
{
    if n >= 10 {
        lemma_dec_of_len(n / 10);
    }
}

/// Small files carry one digest written twice: the fingerprint's two
/// hash fields are character-for-character equal.
pub proof fn lemma_small_fields_equal(c: Seq<u8>)
    requires
        c.len() < SMALL_LIMIT,
    ensures
        fingerprint_of(c).subrange(6, 22) == fingerprint_of(c).subrange(23, 39),
{
    let fp = fingerprint_of(c);
    let h = xxh64_of(c, 0);
    lemma_dec_of_len(c.len() as u64 as nat);
    assert(fp.subrange(6, 22) =~= hex16_of(h));
    assert(fp.subrange(23, 39) =~= hex16_of(h));
}

/// Large files are fingerprinted from the size and the two end chunks
/// alone: contents that agree there have the same fingerprint, however
/// their middle bytes differ.
pub proof fn lemma_middle_bytes_ignored(c1: Seq<u8>, c2: Seq<u8>)
    requires
        c1.len() == c2.len(),
        c1.len() >= SMALL_LIMIT,
        c1.subrange(0, CHUNK_SIZE as int) == c2.subrange(0, CHUNK_SIZE as int),
        c1.subrange(c1.len() - CHUNK_SIZE, c1.len() as int) == c2.subrange(
            c2.len() - CHUNK_SIZE,
            c2.len() as int,
        ),
    ensures
        fingerprint_of(c1) == fingerprint_of(c2),
{
}

/// One path's outcome: always the path, and exactly one of a
/// fingerprint or an error message — never both, never neither.
#[derive(Clone, Debug)]
pub struct FileHash {
    pub path: String,
    pub hash: Option<String>,
    pub error: Option<String>,
}

impl FileHash {
    /// The exactly-one-outcome invariant.
    pub open spec fn wf(self) -> bool {
        self.hash is Some <==> self.error is None
    }
}

/// Whether a record reports the given per-path outcome: a fingerprint
/// for a success, an error message for a failure.
pub open spec fn reflects_outcome(fh: FileHash, o: Result<String, String>) -> bool {
    match o {
        Ok(h) => fh.error is None && (fh.hash matches Some(s) && s@ == h@),
        Err(e) => fh.hash is None && (fh.error matches Some(s) && s@ == e@),
    }
}

/// Wraps one path's outcome as a record, upholding the invariant that
/// exactly one of hash and error is present.
pub fn finish_path(path: String, outcome: Result<String, String>) -> (r: FileHash)
    ensures
        r.wf(),
        r.path@ == path@,
        reflects_outcome(r, outcome),
{
    match outcome {
        Ok(h) => FileHash { path, hash: Some(h), error: None },
        Err(e) => FileHash { path, hash: None, error: Some(e) },
    }
}

/// Pairs every input path with its outcome: one record per path, in
/// input order, each well-formed. An empty path list gives an empty
/// result.
pub fn collect_results(paths: &Vec<String>, outcomes: &Vec<Result<String, String>>) -> (r: Vec<
    FileHash,
>)
    requires
        paths@.len() == outcomes@.len(),
    ensures
        r@.len() == paths@.len(),
        forall|i: int|
            0 <= i < r@.len() ==> (#[trigger] r@[i]).wf() && r@[i].path@ == paths@[i]@
                && reflects_outcome(r@[i], outcomes@[i]),
{
    let mut r: Vec<FileHash> = Vec::new();
    let n = paths.len();
    let mut i: usize = 0;
    while i < n
        invariant
            i <= n,
            n == paths@.len(),
            paths@.len() == outcomes@.len(),
            r@.len() == i,
            forall|k: int|
                0 <= k < i ==> (#[trigger] r@[k]).wf() && r@[k].path@ == paths@[k]@
                    && reflects_outcome(r@[k], outcomes@[k]),
        decreases n - i,
    {
        let outcome = match &outcomes[i] {
            Ok(h) => Ok(h.clone()),
            Err(e) => Err(e.clone()),
        };
        r.push(finish_path(paths[i].clone(), outcome));
        i = i + 1;
    }
    r
}

/// Which parts of a file must be read for its fingerprint: everything,
/// or only the first and last chunk.
#[derive(Clone, Copy, PartialEq, Eq, Structural, Debug)]
pub enum ReadPlan {
    Whole,
    FirstAndLast,
}

/// Decides the read plan from the file's size alone.
pub fn plan_for_size(size: u64) -> (r: ReadPlan)
    ensures
        r == (if size < SMALL_LIMIT {
            ReadPlan::Whole
        } else {
            ReadPlan::FirstAndLast
        }),
{
    if size < SMALL_LIMIT {
        ReadPlan::Whole
    } else {
        ReadPlan::FirstAndLast
    }
}

} // verus!
