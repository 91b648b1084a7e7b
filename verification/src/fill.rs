use vstd::prelude::*;

verus! {

/// Size of the buffer written repeatedly when a test file is created.
pub const CREATE_CHUNK_SIZE: u64 = 1_048_576;

/// Size of each write when a device is prepared.
pub const PREP_CHUNK_SIZE: u64 = 4_194_304;

/// Bytes in one GiB.
pub const GIB: u64 = 1_073_741_824;

/// Byte `k` (0 is the lowest) of `w` in little-endian order.
pub open spec fn le_byte(w: u64, k: u64) -> u8 {
    ((w >> ((8 * k) as u64)) & 0xff) as u8
}

/// Whether `bytes` is the little-endian encoding of the words `words`, cut
/// to the length of `bytes`.
pub open spec fn filled_from(bytes: Seq<u8>, words: Seq<u64>) -> bool {
    &&& words.len() == (bytes.len() + 7) / 8
    &&& forall|i: int|
        0 <= i < bytes.len() ==> #[trigger] bytes[i] == le_byte(words[i / 8], (i % 8) as u64)
}

/// Writes the words, eight bytes each in little-endian order, over `buf`;
/// the last word is cut short where `buf` ends.
pub fn fill_from_words(buf: &mut Vec<u8>, words: &Vec<u64>)
    requires
        words.len() == (old(buf).len() + 7) / 8,
    ensures
        final(buf).len() == old(buf).len(),
        filled_from(final(buf)@, words@),
{
    let len = buf.len();
    let mut i: usize = 0;
    while i < len
        invariant
            len == buf.len(),
            words.len() == (len + 7) / 8,
            i <= len,
            forall|j: int|
                0 <= j < i ==> #[trigger] buf@[j] == le_byte(words@[j / 8], (j % 8) as u64),
        decreases len - i,
    {
        let w = words[i / 8];
        let k = (i % 8) as u64;
        let b = ((w >> (8 * k)) & 0xff) as u8;
        buf.set(i, b);
        i = i + 1;
    }
}

/// A number drawn at random, as `rand::random::<u64>()` draws it.
///
/// Calls `rand::random::<u64>()`. Nothing is stated of the value: it is
/// chosen at random, so any `u64` may come back.
#[verifier::external_body]
pub(crate) fn random_u64() -> u64 {
    rand::random::<u64>()
}

/// Whether `w` is a value that the random source (`random_u64`) gives back:
/// nothing is known of its values, so this holds of what a call returned and
/// cannot be shown of any value chosen otherwise.
pub closed spec fn drawn_u64(w: u64) -> bool {
    call_ensures(random_u64, (), w)
}

/// A number drawn from the random source.
pub(crate) fn draw_u64() -> (w: u64)
    ensures
        drawn_u64(w),
{
    random_u64()
}

/// Fills `buf` with random data, one freshly drawn 64-bit word per eight
/// bytes, in little-endian order (the last word cut short where `buf` ends).
pub fn fill_random(buf: &mut Vec<u8>)
    ensures
        final(buf).len() == old(buf).len(),
        exists|words: Seq<u64>|
            filled_from(final(buf)@, words) && forall|j: int|
                0 <= j < words.len() ==> drawn_u64(#[trigger] words[j]),
{
    let n = buf.len() / 8 + if buf.len() % 8 == 0 {
        0
    } else {
        1
    };
    assert(n == (buf.len() + 7) / 8);
    let mut words: Vec<u64> = Vec::new();
    while words.len() < n
        invariant
            words.len() <= n,
            forall|j: int| 0 <= j < words.len() ==> drawn_u64(#[trigger] words@[j]),
        decreases n - words.len(),
    {
        let w = draw_u64();
        words.push(w);
    }
    fill_from_words(buf, &words);
    assert(filled_from(buf@, words@));
}

/// How a test file of `size_gb` GiB is written: `total_chunks` writes of a
/// whole chunk, then one of `remainder` bytes where that is not zero.
pub struct CreatePlan {
    pub size_bytes: u64,
    pub total_chunks: u64,
    pub remainder: u64,
}

/// The writes that create a file of `size_gb` GiB.
pub fn create_plan(size_gb: u64) -> (p: CreatePlan)
    requires
        size_gb * GIB <= u64::MAX,
    ensures
        p.size_bytes == size_gb * GIB,
        p.total_chunks == p.size_bytes / CREATE_CHUNK_SIZE,
        p.remainder == p.size_bytes % CREATE_CHUNK_SIZE,
        p.total_chunks * CREATE_CHUNK_SIZE + p.remainder == p.size_bytes,
{
    let size_bytes = size_gb * GIB;
    let total_chunks = size_bytes / CREATE_CHUNK_SIZE;
    let remainder = size_bytes % CREATE_CHUNK_SIZE;
    CreatePlan { size_bytes, total_chunks, remainder }
}

/// Whether progress is shown after writing chunk `i` of a new file.
pub fn create_progress_due(i: u64) -> (r: bool)
    ensures
        r == (i % 1024 == 0),
{
    i % 1024 == 0
}

/// How a device of `device_size` bytes is prepared: `total_chunks` writes of
/// `PREP_CHUNK_SIZE` bytes from the start; a tail shorter than a chunk is
/// left as it is. The chunk count always fits the device size.
pub struct PrepPlan {
    device_size: u64,
    total_chunks: u64,
}

/// What a `PrepPlan` holds.
pub struct PrepPlanView {
    pub device_size: u64,
    pub total_chunks: u64,
}

impl View for PrepPlan {
    type V = PrepPlanView;

    closed spec fn view(&self) -> PrepPlanView {
        PrepPlanView { device_size: self.device_size, total_chunks: self.total_chunks }
    }
}

/// The writes that prepare a device of `device_size` bytes.
pub fn prep_plan(device_size: u64) -> (p: PrepPlan)
    ensures
        p@.device_size == device_size,
        p@.total_chunks == device_size / PREP_CHUNK_SIZE,
        p@.total_chunks * PREP_CHUNK_SIZE <= device_size < (p@.total_chunks + 1) * PREP_CHUNK_SIZE,
{
    let total_chunks = device_size / PREP_CHUNK_SIZE;
    assert(total_chunks * PREP_CHUNK_SIZE <= device_size < (total_chunks + 1) * PREP_CHUNK_SIZE)
        by (nonlinear_arith)
        requires
            total_chunks == device_size / PREP_CHUNK_SIZE,
    ;
    PrepPlan { device_size, total_chunks }
}

impl PrepPlan {
    /// The chunk count is that of the device size.
    #[verifier::type_invariant]
    spec fn chunks_fit(&self) -> bool {
        self.total_chunks == self.device_size / PREP_CHUNK_SIZE
    }

    /// Size of the device, in bytes.
    pub fn device_size(&self) -> (r: u64)
        ensures
            r == self@.device_size,
    {
        self.device_size
    }

    /// Number of whole-chunk writes.
    pub fn total_chunks(&self) -> (r: u64)
        ensures
            r == self@.total_chunks,
            r == self@.device_size / PREP_CHUNK_SIZE,
    {
        proof {
            use_type_invariant(self);
        }
        self.total_chunks
    }

    /// Where write `i` of the preparation starts.
    pub fn chunk_offset(&self, i: u64) -> (r: u64)
        requires
            i < self@.total_chunks,
        ensures
            r == i * PREP_CHUNK_SIZE,
            r + PREP_CHUNK_SIZE <= self@.device_size,
    {
        proof {
            use_type_invariant(self);
            lemma_chunk_inside(self.device_size, i);
        }
        i * PREP_CHUNK_SIZE
    }

    /// Whether progress is shown before write `i`.
    pub fn progress_due(&self, i: u64) -> (r: bool)
        ensures
            r == (i % 64 == 0),
    {
        i % 64 == 0
    }
}

/// Chunk `i` of a preparation lies inside the device.
pub proof fn lemma_chunk_inside(device_size: u64, i: u64)
    requires
        i < device_size / PREP_CHUNK_SIZE,
    ensures
        i * PREP_CHUNK_SIZE + PREP_CHUNK_SIZE <= device_size,
{
    let q = device_size / PREP_CHUNK_SIZE;
    assert(q * PREP_CHUNK_SIZE <= device_size) by (nonlinear_arith)
        requires
            q == device_size / PREP_CHUNK_SIZE,
    ;
    assert(i * PREP_CHUNK_SIZE + PREP_CHUNK_SIZE <= q * PREP_CHUNK_SIZE) by (nonlinear_arith)
        requires
            i < q,
    ;
}

/// A 64-bit word is fixed by its eight little-endian bytes.
proof fn lemma_le_bytes_determine_word(a: u64, b: u64)
    requires
        forall|k: u64| k < 8 ==> #[trigger] le_byte(a, k) == le_byte(b, k),
    ensures
        a == b,
{
    assert(le_byte(a, 0) == le_byte(b, 0));
    assert(le_byte(a, 1) == le_byte(b, 1));
    assert(le_byte(a, 2) == le_byte(b, 2));
    assert(le_byte(a, 3) == le_byte(b, 3));
    assert(le_byte(a, 4) == le_byte(b, 4));
    assert(le_byte(a, 5) == le_byte(b, 5));
    assert(le_byte(a, 6) == le_byte(b, 6));
    assert(le_byte(a, 7) == le_byte(b, 7));
    assert(a == b) by (bit_vector)
        requires
            ((a >> 0u64) & 0xff) as u8 == ((b >> 0u64) & 0xff) as u8,
            ((a >> 8u64) & 0xff) as u8 == ((b >> 8u64) & 0xff) as u8,
            ((a >> 16u64) & 0xff) as u8 == ((b >> 16u64) & 0xff) as u8,
            ((a >> 24u64) & 0xff) as u8 == ((b >> 24u64) & 0xff) as u8,
            ((a >> 32u64) & 0xff) as u8 == ((b >> 32u64) & 0xff) as u8,
            ((a >> 40u64) & 0xff) as u8 == ((b >> 40u64) & 0xff) as u8,
            ((a >> 48u64) & 0xff) as u8 == ((b >> 48u64) & 0xff) as u8,
            ((a >> 56u64) & 0xff) as u8 == ((b >> 56u64) & 0xff) as u8,
    ;
}

/// The filled bytes carry the words whole: where the buffer holds whole words,
/// two different word sequences never give the same bytes, so each drawn word
/// shows in its eight bytes.
pub proof fn law_fill_keeps_every_word(bytes: Seq<u8>, w1: Seq<u64>, w2: Seq<u64>)
    requires
        bytes.len() % 8 == 0,
        filled_from(bytes, w1),
        filled_from(bytes, w2),
    ensures
        w1 == w2,
{
    assert(w1.len() == w2.len());
    assert forall|j: int| 0 <= j < w1.len() implies w1[j] == w2[j] by {
        assert forall|k: u64| k < 8 implies #[trigger] le_byte(w1[j], k) == le_byte(w2[j], k) by {
            let i = 8 * j + k;
            assert(i < bytes.len()) by (nonlinear_arith)
                requires
                    0 <= j < w1.len(),
                    w1.len() == (bytes.len() + 7) / 8,
                    bytes.len() % 8 == 0,
                    k < 8,
                    i == 8 * j + k,
            ;
            assert(i / 8 == j && i % 8 == k) by (nonlinear_arith)
                requires
                    i == 8 * j + k,
                    k < 8,
                    j >= 0,
            ;
            assert(bytes[i] == le_byte(w1[i / 8], (i % 8) as u64));
            assert(bytes[i] == le_byte(w2[i / 8], (i % 8) as u64));
        }
        lemma_le_bytes_determine_word(w1[j], w2[j]);
    }
    assert(w1 =~= w2);
}

} // verus!
