//! Incremental checksums of the bytes of a file: feed it bytes, then turn it
//! into a digest once. The algorithms themselves come from outside crates;
//! what is stated here is which bytes each digest covers.

use vstd::prelude::*;

verus! {

#[verifier::external_type_specification]
#[verifier::external_body]
pub struct ExCrc32Hasher(crc32fast::Hasher);

#[verifier::external_type_specification]
#[verifier::external_body]
pub struct ExAdler32(adler::Adler32);

#[verifier::external_type_specification]
#[verifier::external_body]
pub struct ExMd5Context(md5::Context);

/// The bytes a CRC-32 hasher has been fed, in order.
pub uninterp spec fn crc32_input(h: crc32fast::Hasher) -> Seq<u8>;

/// The CRC-32 of a byte sequence.
pub uninterp spec fn crc32_of(data: Seq<u8>) -> u32;

/// The bytes an Adler-32 state has been fed, in order.
pub uninterp spec fn adler32_input(h: adler::Adler32) -> Seq<u8>;

/// The Adler-32 checksum of a byte sequence.
pub uninterp spec fn adler32_of(data: Seq<u8>) -> u32;

/// The bytes an MD5 hasher has been fed, in order.
pub uninterp spec fn md5_input(h: md5::Context) -> Seq<u8>;

/// The MD5 digest of a byte sequence.
pub uninterp spec fn md5_of(data: Seq<u8>) -> Seq<u8>;

/// Relies on crc32fast::Hasher::new: a hasher that has been fed nothing.
pub assume_specification[ crc32fast::Hasher::new ]() -> (r: crc32fast::Hasher)
    ensures
        crc32_input(r) == Seq::<u8>::empty(),
;

/// Relies on crc32fast::Hasher::update: `buf` is fed after what came before.
#[verifier::external_body]
fn crc32_update(h: &mut crc32fast::Hasher, buf: &[u8])
    ensures
        crc32_input(*final(h)) == crc32_input(*old(h)) + buf@,
{
    h.update(buf)
}

/// Relies on crc32fast::Hasher::finalize: the CRC-32 of everything fed.
#[verifier::external_body]
fn crc32_finalize(h: crc32fast::Hasher) -> (r: u32)
    ensures
        r == crc32_of(crc32_input(h)),
{
    h.finalize()
}

/// Relies on adler::Adler32::new: a state that has been fed nothing.
pub assume_specification[ adler::Adler32::new ]() -> (r: adler::Adler32)
    ensures
        adler32_input(r) == Seq::<u8>::empty(),
;

/// Relies on adler::Adler32::write_slice: `bytes` are fed after what came before.
pub assume_specification[ adler::Adler32::write_slice ](h: &mut adler::Adler32, bytes: &[u8])
    ensures
        adler32_input(*final(h)) == adler32_input(*old(h)) + bytes@,
;

/// Relies on adler::Adler32::checksum: the Adler-32 checksum of everything fed.
pub assume_specification[ adler::Adler32::checksum ](h: &adler::Adler32) -> (r: u32)
    ensures
        r == adler32_of(adler32_input(*h)),
;

/// Relies on md5::Context::new: a context that has been fed nothing.
pub assume_specification[ md5::Context::new ]() -> (r: md5::Context)
    ensures
        md5_input(r) == Seq::<u8>::empty(),
;

/// Relies on md5::Context::consume: `data` is fed after what came before.
#[verifier::external_body]
fn md5_consume(h: &mut md5::Context, data: &[u8])
    ensures
        md5_input(*final(h)) == md5_input(*old(h)) + data@,
{
    h.consume(data)
}

/// Relies on md5::Context::compute: the 16-byte MD5 digest of everything fed.
#[verifier::external_body]
fn md5_compute(h: md5::Context) -> (r: Vec<u8>)
    ensures
        r@ == md5_of(md5_input(h)),
        r@.len() == 16,
{
    h.compute().0.to_vec()
}

/// The bytes of `x`, least significant first.
pub open spec fn le_bytes(x: u64, width: nat) -> Seq<u8>
    decreases width,
{
    if width == 0 {
        Seq::empty()
    } else {
        seq![(x % 256) as u8] + le_bytes(x / 256, (width - 1) as nat)
    }
}

/// The `width` bytes of `x`, least significant first.
fn to_le_bytes(x: u64, width: usize) -> (r: Vec<u8>)
    ensures
        r@ == le_bytes(x, width as nat),
    decreases width,
{
    if width == 0 {
        Vec::new()
    } else {
        let mut rest = to_le_bytes(x / 256, width - 1);
        rest.insert(0, (x % 256) as u8);
        proof {
            assert(rest@ =~= seq![(x % 256) as u8] + le_bytes(x / 256, (width - 1) as nat));
        }
        rest
    }
}

/// The CRC-32 digest of `data`: the checksum's four bytes, least significant first.
pub open spec fn crc32_digest(data: Seq<u8>) -> Seq<u8> {
    le_bytes(crc32_of(data) as u64, 4)
}

/// The Adler-32 digest of `data`: the checksum widened to 64 bits, as eight
/// bytes least significant first.
pub open spec fn adler32_digest(data: Seq<u8>) -> Seq<u8> {
    le_bytes(adler32_of(data) as u64, 8)
}

/// A digest computed over bytes fed in pieces.
pub trait Checksum: Sized {
    /// Everything fed so far, in order.
    spec fn input(&self) -> Seq<u8>;

    /// The algorithm in use.
    spec fn kind(&self) -> ChecksumType;

    /// Feeds `data` after what came before; the algorithm stays the same.
    fn update(&mut self, data: &[u8])
        ensures
            final(self).input() == old(self).input() + data@,
            final(self).kind() == old(self).kind(),
    ;

    /// The digest, by the algorithm in use, of everything fed; the checksum
    /// is used up.
    fn finalize(self) -> (r: Vec<u8>)
        ensures
            r@ == digest_by(self.kind(), self.input()),
    ;

    /// The name of the algorithm.
    spec fn algorithm(&self) -> Seq<char>;

    /// The name of the algorithm.
    fn name(&self) -> (r: &'static str)
        ensures
            r@ == self.algorithm(),
    ;
}

/// MD5, as a 16-byte digest.
pub struct MD5Checksum {
    hasher: md5::Context,
}

impl MD5Checksum {
    pub fn new() -> (r: Self)
        ensures
            r.input() == Seq::<u8>::empty(),
    {
        MD5Checksum { hasher: md5::Context::new() }
    }
}

impl Checksum for MD5Checksum {
    closed spec fn input(&self) -> Seq<u8> {
        md5_input(self.hasher)
    }

    open spec fn kind(&self) -> ChecksumType {
        ChecksumType::MD5
    }

    fn update(&mut self, data: &[u8]) {
        md5_consume(&mut self.hasher, data);
    }

    fn finalize(self) -> (r: Vec<u8>) {
        md5_compute(self.hasher)
    }

    open spec fn algorithm(&self) -> Seq<char> {
        "MD5"@
    }

    fn name(&self) -> (r: &'static str) {
        "MD5"
    }
}

/// CRC-32, as its four bytes least significant first.
pub struct CRC32Checksum {
    hasher: crc32fast::Hasher,
}

impl CRC32Checksum {
    pub fn new() -> (r: Self)
        ensures
            r.input() == Seq::<u8>::empty(),
    {
        CRC32Checksum { hasher: crc32fast::Hasher::new() }
    }
}

impl Checksum for CRC32Checksum {
    closed spec fn input(&self) -> Seq<u8> {
        crc32_input(self.hasher)
    }

    open spec fn kind(&self) -> ChecksumType {
        ChecksumType::CRC32
    }

    fn update(&mut self, data: &[u8]) {
        crc32_update(&mut self.hasher, data);
    }

    fn finalize(self) -> (r: Vec<u8>) {
        let value = crc32_finalize(self.hasher);
        to_le_bytes(value as u64, 4)
    }

    open spec fn algorithm(&self) -> Seq<char> {
        "CRC32"@
    }

    fn name(&self) -> (r: &'static str) {
        "CRC32"
    }
}

/// Adler-32, widened to 64 bits, as its eight bytes least significant first.
pub struct Adler32Checksum {
    hasher: adler::Adler32,
}

impl Adler32Checksum {
    pub fn new() -> (r: Self)
        ensures
            r.input() == Seq::<u8>::empty(),
    {
        Adler32Checksum { hasher: adler::Adler32::new() }
    }
}

impl Checksum for Adler32Checksum {
    closed spec fn input(&self) -> Seq<u8> {
        adler32_input(self.hasher)
    }

    open spec fn kind(&self) -> ChecksumType {
        ChecksumType::Adler32
    }

    fn update(&mut self, data: &[u8]) {
        self.hasher.write_slice(data);
    }

    fn finalize(self) -> (r: Vec<u8>) {
        let value = self.hasher.checksum();
        to_le_bytes(value as u64, 8)
    }

    open spec fn algorithm(&self) -> Seq<char> {
        "Adler32"@
    }

    fn name(&self) -> (r: &'static str) {
        "Adler32"
    }
}

/// The algorithms a caller can choose from.
#[derive(Clone, Copy, Debug, PartialEq, Eq, Structural)]
pub enum ChecksumType {
    MD5,
    CRC32,
    Adler32,
}

/// A checksum of the algorithm chosen at run time.
pub enum AnyChecksum {
    MD5(MD5Checksum),
    CRC32(CRC32Checksum),
    Adler32(Adler32Checksum),
}

/// The digest that algorithm `kind` gives to `data`.
pub open spec fn digest_by(kind: ChecksumType, data: Seq<u8>) -> Seq<u8> {
    match kind {
        ChecksumType::MD5 => md5_of(data),
        ChecksumType::CRC32 => crc32_digest(data),
        ChecksumType::Adler32 => adler32_digest(data),
    }
}

impl Checksum for AnyChecksum {
    open spec fn input(&self) -> Seq<u8> {
        match self {
            AnyChecksum::MD5(c) => c.input(),
            AnyChecksum::CRC32(c) => c.input(),
            AnyChecksum::Adler32(c) => c.input(),
        }
    }

    open spec fn kind(&self) -> ChecksumType {
        match self {
            AnyChecksum::MD5(_) => ChecksumType::MD5,
            AnyChecksum::CRC32(_) => ChecksumType::CRC32,
            AnyChecksum::Adler32(_) => ChecksumType::Adler32,
        }
    }

    fn update(&mut self, data: &[u8]) {
        match self {
            AnyChecksum::MD5(c) => c.update(data),
            AnyChecksum::CRC32(c) => c.update(data),
            AnyChecksum::Adler32(c) => c.update(data),
        }
    }

    fn finalize(self) -> (r: Vec<u8>) {
        match self {
            AnyChecksum::MD5(c) => c.finalize(),
            AnyChecksum::CRC32(c) => c.finalize(),
            AnyChecksum::Adler32(c) => c.finalize(),
        }
    }

    open spec fn algorithm(&self) -> Seq<char> {
        match self {
            AnyChecksum::MD5(c) => c.algorithm(),
            AnyChecksum::CRC32(c) => c.algorithm(),
            AnyChecksum::Adler32(c) => c.algorithm(),
        }
    }

    fn name(&self) -> (r: &'static str) {
        match self {
            AnyChecksum::MD5(c) => c.name(),
            AnyChecksum::CRC32(c) => c.name(),
            AnyChecksum::Adler32(c) => c.name(),
        }
    }
}

/// A fresh checksum of the chosen algorithm.
pub fn create_checksum(checksum_type: ChecksumType) -> (r: AnyChecksum)
    ensures
        r.kind() == checksum_type,
        r.input() == Seq::<u8>::empty(),
{
    match checksum_type {
        ChecksumType::MD5 => AnyChecksum::MD5(MD5Checksum::new()),
        ChecksumType::CRC32 => AnyChecksum::CRC32(CRC32Checksum::new()),
        ChecksumType::Adler32 => AnyChecksum::Adler32(Adler32Checksum::new()),
    }
}

} // verus!
