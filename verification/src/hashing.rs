//! Fingerprints and whole-file hashes.
//!
//! The fingerprint used to spot duplicates samples a file's first 64 KiB,
//! its last 64 KiB (for every file longer than 64 KiB) and its length; the whole
//! file hash is SHA-256 over every byte. Both are rendered as lower-case hex.
//! Reading the bytes is the caller's business: these functions hash what
//! they are handed.
use vstd::prelude::*;
use sha2::Digest;

verus! {

// ---------------------------------------------------------------------------
// SHA-256 and hex, from their crates.
// ---------------------------------------------------------------------------

/// The SHA-256 digest of a byte string.
pub uninterp spec fn sha256_of(data: Seq<u8>) -> Seq<u8>;

/// A running SHA-256 computation. `sha2::Sha256` is an alias of a generic
/// type instantiated with type-level numbers, which Verus does not take as a
/// declared outside type, so the hasher is held here, out of Verus's sight.
#[verifier::external_body]
pub struct Sha256State {
    inner: sha2::Sha256,
}

/// The bytes fed so far to a running SHA-256 computation.
pub uninterp spec fn stream_fed(s: Sha256State) -> Seq<u8>;

/// Calls `Sha256::new`. Claimed: nothing has been fed yet.
#[verifier::external_body]
fn sha256_start() -> (r: Sha256State)
    ensures
        stream_fed(r) == Seq::<u8>::empty(),
{
    Sha256State { inner: sha2::Sha256::new() }
}

/// Calls `Digest::update` on a running SHA-256. Claimed: the bytes are
/// appended to what has been fed.
#[verifier::external_body]
fn sha256_feed(s: &mut Sha256State, data: &[u8])
    ensures
        stream_fed(*final(s)) == stream_fed(*old(s)) + data@,
{
    s.inner.update(data);
}

/// Calls `Digest::finalize`. Claimed: the result is the SHA-256 digest of
/// everything fed, 32 bytes long.
#[verifier::external_body]
fn sha256_finish(s: Sha256State) -> (r: Vec<u8>)
    ensures
        r@ == sha256_of(stream_fed(s)),
        r@.len() == 32,
{
    s.inner.finalize().to_vec()
}

/// The lower-case hex digit for a value below 16.
pub open spec fn hex_digit(v: u8) -> char {
    if v < 10 {
        ((v + 48) as u8) as char
    } else {
        ((v + 87) as u8) as char
    }
}

/// Every byte as two lower-case hex digits, high half first.
pub open spec fn hex_spec(data: Seq<u8>) -> Seq<char>
    decreases data.len(),
{
    if data.len() == 0 {
        Seq::empty()
    } else {
        hex_spec(data.drop_last()) + seq![
            hex_digit(data.last() / 16),
            hex_digit(data.last() % 16),
        ]
    }
}

/// Calls `hex::encode`. Claimed, as its documentation and source show:
/// each byte becomes two lower-case hex digits, high half first.
#[verifier::external_body]
fn hex_encode(data: &[u8]) -> (r: String)
    ensures
        r@ == hex_spec(data@),
{
    hex::encode(data)
}

// ---------------------------------------------------------------------------
// Whole-file hashes.
// ---------------------------------------------------------------------------

/// A whole-file hash computed chunk by chunk, so that a file of any size
/// can be hashed while it is read.
pub struct FullHasher {
    state: Sha256State,
}

impl FullHasher {
    /// Everything fed so far.
    pub closed spec fn fed(&self) -> Seq<u8> {
        stream_fed(self.state)
    }

    pub fn new() -> (r: Self)
        ensures
            r.fed() == Seq::<u8>::empty(),
    {
        FullHasher { state: sha256_start() }
    }

    /// Feeds the next chunk of the file.
    pub fn feed(&mut self, chunk: &[u8])
        ensures
            final(self).fed() == old(self).fed() + chunk@,
    {
        sha256_feed(&mut self.state, chunk);
    }

    /// The hash of everything fed, as lower-case hex.
    pub fn finish(self) -> (r: String)
        ensures
            r@ == hex_spec(sha256_of(self.fed())),
    {
        let digest = sha256_finish(self.state);
        hex_encode(digest.as_slice())
    }
}

/// The whole-file hash of a file's bytes.
pub fn full_hash(content: &[u8]) -> (r: String)
    ensures
        r@ == hex_spec(sha256_of(content@)),
{
    let mut h = FullHasher::new();
    h.feed(content);
    assert(Seq::<u8>::empty() + content@ =~= content@);
    h.finish()
}

// ---------------------------------------------------------------------------
// The duplicate fingerprint.
// ---------------------------------------------------------------------------

/// The size of the head and of the tail sample.
pub open spec fn sample_len() -> nat {
    65536
}

/// The eight little-endian bytes of a length.
pub open spec fn le_bytes_from(v: nat, k: nat) -> Seq<u8>
    decreases k,
{
    if k == 0 {
        Seq::empty()
    } else {
        seq![(v % 256) as u8] + le_bytes_from(v / 256, (k - 1) as nat)
    }
}

pub open spec fn le_bytes(size: u64) -> Seq<u8> {
    le_bytes_from(size as nat, 8)
}

/// What the fingerprint hashes: the head sample, the tail sample when there
/// is one, and the length the scan reported, little-endian.
pub open spec fn fingerprint_message(head: Seq<u8>, tail: Option<Seq<u8>>, size: u64) -> Seq<u8> {
    head + match tail {
        Some(t) => t,
        None => Seq::empty(),
    } + le_bytes(size)
}

/// Where the tail sample of a file of `file_size` bytes starts, when one is
/// taken: every file longer than the head sample has one, its last 64 KiB,
/// so no byte past the head goes unseen in a file of up to 128 KiB.
pub open spec fn tail_start_spec(file_size: u64) -> Option<u64> {
    if file_size > sample_len() {
        Some((file_size - sample_len()) as u64)
    } else {
        None
    }
}

/// The offset the tail sample is read from, if one is read.
pub fn tail_sample_start(file_size: u64) -> (r: Option<u64>)
    ensures
        r == tail_start_spec(file_size),
{
    if file_size > 65536 {
        Some(file_size - 65536)
    } else {
        None
    }
}

/// The fingerprint from the samples read out of a file: up to 64 KiB from
/// its start, the last 64 KiB when the file is large enough to have a tail
/// sample, and the size the scan reported.
pub fn fast_hash_samples(head: &[u8], tail: Option<&[u8]>, size: u64) -> (r: String)
    ensures
        r@ == hex_spec(
            sha256_of(
                fingerprint_message(
                    head@,
                    match tail {
                        Some(t) => Some(t@),
                        None => None,
                    },
                    size,
                ),
            ),
        ),
{
    let mut h = FullHasher::new();
    h.feed(head);
    match tail {
        Some(t) => h.feed(t),
        None => {},
    }
    let mut len_bytes: Vec<u8> = Vec::new();
    let mut v: u64 = size;
    let mut k: usize = 0;
    while k < 8
        invariant
            k <= 8,
            len_bytes@ + le_bytes_from(v as nat, (8 - k) as nat) == le_bytes(size),
        decreases 8 - k,
    {
        let ghost before = len_bytes@;
        let ghost rest = le_bytes_from(v as nat, (8 - k) as nat);
        len_bytes.push((v % 256) as u8);
        v = v / 256;
        proof {
            assert(rest == seq![((v * 256 + rest[0] as int) % 256) as u8] + le_bytes_from(
                v as nat,
                (8 - k - 1) as nat,
            ));
            assert(len_bytes@ + le_bytes_from(v as nat, (8 - (k + 1)) as nat) =~= before + rest);
        }
        k = k + 1;
    }
    assert(len_bytes@ =~= le_bytes(size));
    h.feed(len_bytes.as_slice());
    let ghost tv = match tail {
        Some(t) => Some(t@),
        None => None::<Seq<u8>>,
    };
    assert(h.fed() =~= fingerprint_message(head@, tv, size));
    h.finish()
}

/// The head sample of a file's bytes: its first 64 KiB, or all of it.
pub open spec fn head_of(content: Seq<u8>) -> Seq<u8> {
    if content.len() > sample_len() {
        content.take(sample_len() as int)
    } else {
        content
    }
}

/// The tail sample of a file's bytes, when it has one.
pub open spec fn tail_of(content: Seq<u8>) -> Option<Seq<u8>> {
    if content.len() > sample_len() {
        Some(content.skip(content.len() - sample_len()))
    } else {
        None
    }
}

/// The fingerprint of a file with these bytes, scanned at `size` bytes.
pub open spec fn fast_hash_spec(content: Seq<u8>, size: u64) -> Seq<char> {
    hex_spec(sha256_of(fingerprint_message(head_of(content), tail_of(content), size)))
}

/// The bytes of `data` from `from` up to `to`.
fn copy_range(data: &[u8], from: usize, to: usize) -> (r: Vec<u8>)
    requires
        from <= to <= data@.len(),
    ensures
        r@ == data@.subrange(from as int, to as int),
{
    let mut r: Vec<u8> = Vec::new();
    let mut i = from;
    while i < to
        invariant
            from <= i <= to,
            to <= data@.len(),
            r@ == data@.subrange(from as int, i as int),
        decreases to - i,
    {
        r.push(data[i]);
        i = i + 1;
        assert(r@ =~= data@.subrange(from as int, i as int));
    }
    r
}

/// The fingerprint of a file held in memory.
pub fn fast_hash_of_bytes(content: &[u8], size: u64) -> (r: String)
    ensures
        r@ == fast_hash_spec(content@, size),
{
    let n = content.len();
    let head_len: usize = if n > 65536 {
        65536
    } else {
        n
    };
    let head = copy_range(content, 0, head_len);
    proof {
        assert(head@ =~= head_of(content@));
    }
    if n > 65536 {
        let tail = copy_range(content, n - 65536, n);
        assert(tail@ =~= content@.skip(content@.len() - sample_len()));
        fast_hash_samples(head.as_slice(), Some(tail.as_slice()), size)
    } else {
        fast_hash_samples(head.as_slice(), None, size)
    }
}

/// The fingerprint sees only a file's first 64 KiB, its last 64 KiB when it
/// is longer than that, and its length: two files that agree on those have
/// the same fingerprint, whatever lies between. This is why a fingerprint
/// match is confirmed by a whole-file hash before a file is skipped.
pub proof fn lemma_fingerprint_sees_only_head_tail_and_size(a: Seq<u8>, b: Seq<u8>, size: u64)
    requires
        a.len() == b.len(),
        head_of(a) == head_of(b),
        tail_of(a) == tail_of(b),
    ensures
        fast_hash_spec(a, size) == fast_hash_spec(b, size),
{
}

/// Every byte of a file of at most 128 KiB reaches the fingerprint: such a
/// file is wholly covered by its head and tail samples, so two such files of
/// the same length that differ anywhere, their last byte included, hash
/// different messages.
pub proof fn lemma_small_file_is_wholly_sampled(a: Seq<u8>, b: Seq<u8>, size: u64, i: int)
    requires
        a.len() == b.len(),
        a.len() <= 2 * sample_len(),
        0 <= i < a.len(),
        a[i] != b[i],
    ensures
        fingerprint_message(head_of(a), tail_of(a), size) != fingerprint_message(
            head_of(b),
            tail_of(b),
            size,
        ),
{
    let ma = fingerprint_message(head_of(a), tail_of(a), size);
    let mb = fingerprint_message(head_of(b), tail_of(b), size);
    if i < sample_len() {
        assert(head_of(a)[i] == a[i] && head_of(b)[i] == b[i]);
        assert(ma[i] == a[i] && mb[i] == b[i]);
    } else {
        let k = i - (a.len() - sample_len());
        let h = sample_len() as int;
        assert(head_of(a).len() == h && head_of(b).len() == h);
        assert(tail_of(a) matches Some(ta) && ta[k] == a[i]);
        assert(tail_of(b) matches Some(tb) && tb[k] == b[i]);
        assert(ma[h + k] == a[i] && mb[h + k] == b[i]);
    }
}

} // verus!
