//! SHA-256 digests and the 16-byte addresses cut from them.
//!
//! A digest is kept as two big-endian 128-bit halves and an address as one,
//! so both compare, copy and index tables as plain integers. The byte strings
//! they stand for are given by [`Hash::bytes`] and [`AddressHash::bytes`].

use rand_core::RngCore;
use sha2::Digest;
use vstd::prelude::*;
use vstd::slice::slice_subrange;

verus! {

/// Number of bytes in a digest.
pub const HASH_SIZE: usize = 32;

/// Number of bytes in an address.
pub const ADDRESS_HASH_SIZE: usize = 16;

/// The SHA-256 digest of `data`.
pub uninterp spec fn sha256_digest(data: Seq<u8>) -> Seq<u8>;

/// `256` to the power `n`.
pub open spec fn pow256(n: nat) -> nat
    decreases n,
{
    if n == 0 {
        1
    } else {
        256 * pow256((n - 1) as nat)
    }
}

/// The number that `bytes` spell in base 256, most significant byte first.
pub open spec fn be_value(bytes: Seq<u8>) -> nat
    decreases bytes.len(),
{
    if bytes.len() == 0 {
        0
    } else {
        be_value(bytes.drop_last()) * 256 + bytes.last() as nat
    }
}

/// The `len` low base-256 digits of `value`, most significant first.
pub open spec fn be_bytes(value: nat, len: nat) -> Seq<u8>
    decreases len,
{
    if len == 0 {
        Seq::empty()
    } else {
        be_bytes(value / 256, (len - 1) as nat).push((value % 256) as u8)
    }
}

/// `n` zero bytes.
pub open spec fn zeros(n: nat) -> Seq<u8> {
    Seq::new(n, |i: int| 0u8)
}

/// The first `n` bytes of `data`, filled up with zero bytes where `data` is
/// shorter.
pub open spec fn padded(data: Seq<u8>, n: nat) -> Seq<u8> {
    if data.len() >= n {
        data.take(n as int)
    } else {
        data + zeros((n - data.len()) as nat)
    }
}

/// The first sixteen bytes of `data`, filled up with zero bytes where `data`
/// is shorter.
pub open spec fn leading16(data: Seq<u8>) -> Seq<u8> {
    padded(data, 16)
}

/// Copies the first `n` bytes of `data`, filling up with zero bytes.
pub fn padded_copy(data: &[u8], n: usize) -> (copy: Vec<u8>)
    ensures
        copy@ == padded(data@, n as nat),
        copy@.len() == n,
{
    let mut copy: Vec<u8> = Vec::new();
    let mut i: usize = 0;
    while i < n
        invariant
            i <= n,
            copy@.len() == i,
            forall|j: int|
                0 <= j < i ==> copy@[j] == (if j < data@.len() {
                    data@[j]
                } else {
                    0u8
                }),
        decreases n - i,
    {
        if i < data.len() {
            copy.push(data[i]);
        } else {
            copy.push(0);
        }
        i += 1;
    }
    assert(copy@ =~= padded(data@, n as nat));
    copy
}

pub proof fn lemma_pow256_16()
    ensures
        pow256(16) == 0x1_0000_0000_0000_0000_0000_0000_0000_0000,
{
    reveal_with_fuel(pow256, 17);
}

pub proof fn lemma_pow256_increases(a: nat, b: nat)
    requires
        a <= b,
    ensures
        0 < pow256(a) <= pow256(b),
    decreases b,
{
    if b == 0 {
    } else if a == b {
        lemma_pow256_increases((a - 1) as nat, (b - 1) as nat);
    } else {
        lemma_pow256_increases(a, (b - 1) as nat);
    }
}

pub proof fn lemma_be_value_bound(bytes: Seq<u8>)
    ensures
        be_value(bytes) < pow256(bytes.len()),
    decreases bytes.len(),
{
    if bytes.len() > 0 {
        lemma_be_value_bound(bytes.drop_last());
    }
}

pub proof fn lemma_be_bytes_len(value: nat, len: nat)
    ensures
        be_bytes(value, len).len() == len,
    decreases len,
{
    if len > 0 {
        lemma_be_bytes_len(value / 256, (len - 1) as nat);
    }
}

/// Writing a number out and reading it back gives the number.
pub proof fn lemma_be_value_of_bytes(value: nat, len: nat)
    requires
        value < pow256(len),
    ensures
        be_value(be_bytes(value, len)) == value,
    decreases len,
{
    if len > 0 {
        let rest = be_bytes(value / 256, (len - 1) as nat);
        lemma_be_value_of_bytes(value / 256, (len - 1) as nat);
        assert(be_bytes(value, len).drop_last() =~= rest);
    }
}

/// Reading bytes as a number and writing it out gives the bytes.
pub proof fn lemma_be_bytes_of_value(bytes: Seq<u8>)
    ensures
        be_bytes(be_value(bytes), bytes.len()) == bytes,
    decreases bytes.len(),
{
    if bytes.len() > 0 {
        lemma_be_bytes_of_value(bytes.drop_last());
        let v = be_value(bytes);
        assert(v / 256 == be_value(bytes.drop_last()));
        assert(v % 256 == bytes.last() as nat);
        assert(be_bytes(v, bytes.len()) =~= bytes);
    } else {
        assert(be_bytes(0, 0) =~= bytes);
    }
}

/// Reads up to sixteen bytes as one big-endian number.
pub fn u128_from_be_bytes(bytes: &[u8]) -> (value: u128)
    requires
        bytes@.len() <= 16,
    ensures
        value == be_value(bytes@),
{
    let mut value: u128 = 0;
    let mut i: usize = 0;
    while i < bytes.len()
        invariant
            i <= bytes@.len() <= 16,
            value == be_value(bytes@.take(i as int)),
        decreases bytes@.len() - i,
    {
        proof {
            lemma_be_value_bound(bytes@.take(i as int));
            lemma_pow256_increases(i as nat, 15);
            lemma_pow256_16();
            assert(pow256(16) == 256 * pow256(15));
            assert(bytes@.take(i + 1).drop_last() =~= bytes@.take(i as int));
        }
        value = value * 256 + bytes[i] as u128;
        i += 1;
    }
    assert(bytes@.take(i as int) =~= bytes@);
    value
}

/// Writes the `len` low base-256 digits of a number, most significant
/// first.
pub fn to_be_bytes(value: u128, len: usize) -> (bytes: Vec<u8>)
    ensures
        bytes@ == be_bytes(value as nat, len as nat),
        bytes@.len() == len,
{
    let mut bytes: Vec<u8> = vec![0u8; len];
    let mut rest: u128 = value;
    let mut k: usize = len;
    while k > 0
        invariant
            k <= len,
            bytes@.len() == len,
            be_bytes(value as nat, len as nat) == be_bytes(rest as nat, k as nat)
                + bytes@.subrange(k as int, len as int),
        decreases k,
    {
        let ghost before = bytes@;
        bytes.set(k - 1, (rest % 256) as u8);
        proof {
            assert(be_bytes(rest as nat, k as nat) + before.subrange(k as int, len as int)
                =~= be_bytes((rest / 256) as nat, (k - 1) as nat) + bytes@.subrange(
                k - 1,
                len as int,
            ));
        }
        rest = rest / 256;
        k -= 1;
    }
    assert(be_bytes(rest as nat, 0) + bytes@.subrange(0, len as int) =~= bytes@);
    bytes
}

/// Writes a number out as sixteen big-endian bytes.
pub fn u128_to_be_bytes(value: u128) -> (bytes: Vec<u8>)
    ensures
        bytes@ == be_bytes(value as nat, 16),
{
    to_be_bytes(value, 16)
}

pub proof fn lemma_pow256_8()
    ensures
        pow256(8) == 0x1_0000_0000_0000_0000,
{
    reveal_with_fuel(pow256, 9);
}

/// Calls `Digest::digest` of `sha2::Sha256`, the one-shot SHA-256 of the
/// `sha2` crate, on `data` and hands back its 32 output bytes. The contract
/// names that output [`sha256_digest`]; nothing else is claimed of it.
#[verifier::external_body]
fn sha256(data: &[u8]) -> (digest: [u8; 32])
    ensures
        digest@ == sha256_digest(data@),
{
    sha2::Sha256::digest(data).into()
}

/// Asks `rand_core::OsRng`, the operating system's random source, for
/// sixteen bytes through `try_fill_bytes`, and hands them back, or nothing
/// where the system has no randomness to offer. Nothing is claimed of the
/// bytes, nor of when there are any.
#[verifier::external_body]
fn os_random_bytes() -> (bytes: Option<[u8; 16]>) {
    let mut bytes = [0u8; 16];
    match rand_core::OsRng.try_fill_bytes(&mut bytes) {
        Ok(()) => Some(bytes),
        Err(_) => None,
    }
}

/// A SHA-256 digest.
#[derive(Clone, Copy, Debug, PartialEq, Eq, Structural)]
pub struct Hash {
    /// Bytes 0 to 15, read as a big-endian number.
    pub hi: u128,
    /// Bytes 16 to 31, read as a big-endian number.
    pub lo: u128,
}

impl Hash {
    /// The 32 bytes of the digest.
    pub open spec fn bytes(self) -> Seq<u8> {
        be_bytes(self.hi as nat, 16) + be_bytes(self.lo as nat, 16)
    }

    /// The digest whose bytes are the first 32 of `bytes`.
    pub open spec fn spec_from_bytes(bytes: Seq<u8>) -> Hash {
        Hash {
            hi: be_value(bytes.subrange(0, 16)) as u128,
            lo: be_value(bytes.subrange(16, 32)) as u128,
        }
    }

    /// The digest of `data`.
    pub open spec fn spec_of(data: Seq<u8>) -> Hash {
        Hash::spec_from_bytes(sha256_digest(data))
    }

    /// Wraps 32 digest bytes.
    pub fn new(bytes: &[u8; 32]) -> (hash: Hash)
        ensures
            hash == Hash::spec_from_bytes(bytes@),
            hash.bytes() == bytes@,
    {
        let hi = u128_from_be_bytes(slice_subrange(bytes.as_slice(), 0, 16));
        let lo = u128_from_be_bytes(slice_subrange(bytes.as_slice(), 16, 32));
        proof {
            lemma_be_bytes_of_value(bytes@.subrange(0, 16));
            lemma_be_bytes_of_value(bytes@.subrange(16, 32));
            assert(bytes@.subrange(0, 16) + bytes@.subrange(16, 32) =~= bytes@);
        }
        Hash { hi, lo }
    }

    /// Reads the first 32 bytes of `data` as a digest. A shorter slice is
    /// filled up with zero bytes.
    pub fn new_from_slice(data: &[u8]) -> (hash: Hash)
        ensures
            hash == Hash::spec_from_bytes(padded(data@, 32)),
            hash.bytes() == padded(data@, 32),
    {
        let buffer = padded_copy(data, 32);
        let hi = u128_from_be_bytes(slice_subrange(buffer.as_slice(), 0, 16));
        let lo = u128_from_be_bytes(slice_subrange(buffer.as_slice(), 16, 32));
        proof {
            lemma_be_bytes_of_value(buffer@.subrange(0, 16));
            lemma_be_bytes_of_value(buffer@.subrange(16, 32));
            assert(buffer@.subrange(0, 16) + buffer@.subrange(16, 32) =~= buffer@);
        }
        Hash { hi, lo }
    }

    /// Hashes `data` with SHA-256.
    pub fn of(data: &[u8]) -> (hash: Hash)
        ensures
            hash == Hash::spec_of(data@),
            hash.bytes() == sha256_digest(data@),
    {
        let digest = sha256(data);
        Hash::new(&digest)
    }

    /// The 32 bytes of the digest.
    pub fn to_bytes(&self) -> (bytes: Vec<u8>)
        ensures
            bytes@ == self.bytes(),
    {
        let mut bytes = u128_to_be_bytes(self.hi);
        let mut low = u128_to_be_bytes(self.lo);
        bytes.append(&mut low);
        bytes
    }
}

/// The 16-byte identifier of a destination, a link, an interface or a
/// transport node: the leading half of a SHA-256 digest.
#[derive(Clone, Copy, Debug, PartialEq, Eq, Structural)]
pub struct AddressHash {
    /// The sixteen bytes, read as a big-endian number.
    pub value: u128,
}

impl AddressHash {
    /// The sixteen bytes of the address.
    pub open spec fn bytes(self) -> Seq<u8> {
        be_bytes(self.value as nat, 16)
    }

    /// The address whose bytes are `leading16(data)`.
    pub open spec fn spec_from_slice(data: Seq<u8>) -> AddressHash {
        AddressHash { value: be_value(leading16(data)) as u128 }
    }

    /// Takes the first sixteen bytes of `data` as an address. A shorter
    /// slice is filled up with zero bytes.
    pub fn new_from_slice(data: &[u8]) -> (address: AddressHash)
        ensures
            address == AddressHash::spec_from_slice(data@),
            address.bytes() == leading16(data@),
    {
        let buffer = padded_copy(data, 16);
        proof {
            lemma_be_bytes_of_value(buffer@);
        }
        AddressHash { value: u128_from_be_bytes(buffer.as_slice()) }
    }

    /// The leading half of a digest.
    pub fn new_from_hash(hash: &Hash) -> (address: AddressHash)
        ensures
            address.value == hash.hi,
            address.bytes() == hash.bytes().take(16),
    {
        proof {
            lemma_be_bytes_len(hash.hi as nat, 16);
            assert(hash.bytes().take(16) =~= be_bytes(hash.hi as nat, 16));
        }
        AddressHash { value: hash.hi }
    }

    /// A fresh address drawn from the operating system's random source,
    /// or nothing where the system has no randomness to offer.
    pub fn new_from_rand() -> Option<AddressHash> {
        match os_random_bytes() {
            Some(bytes) => Some(AddressHash::new_from_slice(bytes.as_slice())),
            None => None,
        }
    }

    /// The sixteen bytes of the address.
    pub fn to_bytes(&self) -> (bytes: Vec<u8>)
        ensures
            bytes@ == self.bytes(),
            bytes@.len() == ADDRESS_HASH_SIZE,
    {
        proof {
            lemma_be_bytes_len(self.value as nat, 16);
        }
        u128_to_be_bytes(self.value)
    }
}

/// Cutting an address from its own bytes gives the address back.
pub proof fn lemma_address_round_trip(a: AddressHash)
    ensures
        AddressHash::spec_from_slice(a.bytes()) == a,
{
    lemma_pow256_16();
    lemma_be_bytes_len(a.value as nat, 16);
    lemma_be_value_of_bytes(a.value as nat, 16);
    assert(leading16(a.bytes()) =~= a.bytes());
}

} // verus!
