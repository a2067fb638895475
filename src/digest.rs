use vstd::prelude::*;

verus! {

/// The SHA-256 digest of a byte sequence: 32 bytes.
pub uninterp spec fn sha256_of(data: Seq<u8>) -> Seq<u8>;

/// The bytes that a hasher has absorbed so far, in the order they were fed.
pub uninterp spec fn absorbed(h: ContentHasher) -> Seq<u8>;

/// Streaming SHA-256 accumulator: a file is fed to it chunk by chunk, in read order.
#[verifier::external_body]
pub struct ContentHasher {
    inner: sha2::Sha256,
}

/// Relies on `Digest::new` of sha2: a fresh `Sha256` has absorbed no input.
#[verifier::external_body]
fn sha256_start() -> (r: ContentHasher)
    ensures
        absorbed(r) == Seq::<u8>::empty(),
{
    ContentHasher { inner: <sha2::Sha256 as sha2::Digest>::new() }
}

/// Relies on `Digest::update` of sha2: the chunk is appended to the input absorbed so far.
#[verifier::external_body]
fn sha256_update(h: &mut ContentHasher, chunk: &[u8])
    ensures
        absorbed(*final(h)) == absorbed(*old(h)) + chunk@,
{
    sha2::Digest::update(&mut h.inner, chunk)
}

/// Relies on `Digest::finalize` of sha2: the 32-byte SHA-256 digest of all absorbed input.
#[verifier::external_body]
fn sha256_finish(h: ContentHasher) -> (r: [u8; 32])
    ensures
        r@ == sha256_of(absorbed(h)),
{
    sha2::Digest::finalize(h.inner).into()
}

impl ContentHasher {
    /// A hasher that has absorbed nothing yet.
    pub fn new() -> (r: ContentHasher)
        ensures
            absorbed(r) == Seq::<u8>::empty(),
    {
        sha256_start()
    }

    /// Feed the next chunk of content.
    pub fn update(&mut self, chunk: &[u8])
        ensures
            absorbed(*final(self)) == absorbed(*old(self)) + chunk@,
    {
        sha256_update(self, chunk)
    }

    /// The fingerprint of everything fed so far.
    pub fn finish(self) -> (r: Fingerprint)
        ensures
            r@ == sha256_of(absorbed(self)),
    {
        Fingerprint { bytes: sha256_finish(self) }
    }
}

/// The fingerprint of a whole content given at once.
pub fn fingerprint_of(content: &[u8]) -> (r: Fingerprint)
    ensures
        r@ == sha256_of(content@),
{
    let mut h = ContentHasher::new();
    h.update(content);
    assert(Seq::<u8>::empty() + content@ == content@);
    h.finish()
}

/// A 256-bit content digest.
#[derive(Debug, Clone, Copy, PartialEq, Eq, Hash)]
pub struct Fingerprint {
    pub bytes: [u8; 32],
}

impl View for Fingerprint {
    type V = Seq<u8>;

    open spec fn view(&self) -> Seq<u8> {
        self.bytes@
    }
}

/// The ASCII code of a lowercase hexadecimal digit for `n < 16`.
pub open spec fn hex_digit(n: u8) -> u8 {
    if n < 10 {
        (48 + n) as u8
    } else {
        (87 + n) as u8
    }
}

/// Lowercase hexadecimal text of a byte sequence, as ASCII codes: two digits per byte,
/// high nibble first.
pub open spec fn hex_of(d: Seq<u8>) -> Seq<u8> {
    Seq::new(
        2 * d.len(),
        |i: int|
            if i % 2 == 0 {
                hex_digit(d[i / 2] / 16)
            } else {
                hex_digit(d[i / 2] % 16)
            },
    )
}

/// Characters of ASCII codes.
pub open spec fn ascii_chars(s: Seq<u8>) -> Seq<char> {
    s.map_values(|b: u8| b as char)
}

/// Relies on `String::from_utf8` of std: an ASCII byte sequence is valid UTF-8 and
/// each byte becomes the character of that code.
#[verifier::external_body]
fn ascii_to_string(v: Vec<u8>) -> (r: String)
    requires
        forall|i: int| 0 <= i < v@.len() ==> v@[i] < 128,
    ensures
        r@ == ascii_chars(v@),
{
    String::from_utf8(v).unwrap()
}

fn hex_digit_exec(n: u8) -> (r: u8)
    requires
        n < 16,
    ensures
        r == hex_digit(n),
        r < 128,
{
    if n < 10 {
        48 + n
    } else {
        87 + n
    }
}

impl Fingerprint {
    /// Byte-wise equality of two digests.
    pub fn same_as(&self, other: &Fingerprint) -> (r: bool)
        ensures
            r == (self@ == other@),
    {
        let mut i: usize = 0;
        while i < 32
            invariant
                i <= 32,
                self@.len() == 32,
                other@.len() == 32,
                forall|j: int| 0 <= j < i ==> self@[j] == other@[j],
            decreases 32 - i,
        {
            if self.bytes[i] != other.bytes[i] {
                return false;
            }
            i = i + 1;
        }
        assert(self@ =~= other@);
        true
    }

    /// The 64 lowercase hexadecimal digits of the digest.
    pub fn to_hex(&self) -> (r: String)
        ensures
            r@ == ascii_chars(hex_of(self@)),
            r@.len() == 64,
    {
        let mut out: Vec<u8> = Vec::new();
        let mut i: usize = 0;
        while i < 32
            invariant
                i <= 32,
                self@.len() == 32,
                out@ =~= hex_of(self@.subrange(0, i as int)),
                forall|j: int| 0 <= j < out@.len() ==> out@[j] < 128,
            decreases 32 - i,
        {
            let b = self.bytes[i];
            out.push(hex_digit_exec(b / 16));
            out.push(hex_digit_exec(b % 16));
            i = i + 1;
            assert(out@ =~= hex_of(self@.subrange(0, i as int)));
        }
        assert(self@.subrange(0, 32) =~= self@);
        ascii_to_string(out)
    }
}

} // verus!
