//! The app inside the executable: a zip archive in front of a footer that gives
//! its size and its digest.

use crate::codec::{digest, sha256};
use vstd::prelude::*;
use vstd::string::*;

verus! {

// ---------------------------------------------------------------------------
// The footer
// ---------------------------------------------------------------------------

/// The length of the footer: eight bytes of size and 32 of digest.
pub const FOOTER_LEN: usize = 40;

/// Why an executable is refused.
#[derive(Debug, PartialEq, Eq, Structural, Clone, Copy)]
pub enum BundleError {
    TooSmall,
    InvalidSize,
    Tampered,
}

impl BundleError {
    /// The message of the error.
    pub open spec fn text(self) -> Seq<char> {
        match self {
            BundleError::TooSmall => "Binary too small"@,
            BundleError::InvalidSize => "Invalid bundle size"@,
            BundleError::Tampered =>
            "Bundle integrity check failed — the executable may be corrupted or tampered."@,
        }
    }

    /// The message of the error.
    pub fn message(&self) -> (r: &'static str)
        ensures
            r@ == self.text(),
    {
        match self {
            BundleError::TooSmall => "Binary too small",
            BundleError::InvalidSize => "Invalid bundle size",
            BundleError::Tampered =>
            "Bundle integrity check failed — the executable may be corrupted or tampered.",
        }
    }
}

/// The number that bytes stand for, the lowest first.
pub open spec fn little_endian(bytes: Seq<u8>) -> int
    decreases bytes.len(),
{
    if bytes.len() == 0 {
        0
    } else {
        bytes[0] + 256 * little_endian(bytes.drop_first())
    }
}

/// The size of the bundle, as the footer gives it.
pub open spec fn stated_size(file: Seq<u8>) -> int {
    little_endian(file.subrange(file.len() - 40, file.len() - 32))
}

/// The digest of the bundle, as the footer gives it.
pub open spec fn stated_digest(file: Seq<u8>) -> Seq<u8> {
    file.subrange(file.len() - 32, file.len() as int)
}

/// The bundle in front of the footer, of the size that the footer gives.
pub open spec fn bundle_bytes(file: Seq<u8>) -> Seq<u8> {
    file.subrange(file.len() - 40 - stated_size(file), file.len() - 40)
}

/// Where the footer says that the bundle lies, or why it cannot lie there.
pub open spec fn stated_range(file: Seq<u8>) -> Result<(int, int), BundleError> {
    if file.len() < 40 {
        Err(BundleError::TooSmall)
    } else if stated_size(file) == 0 || stated_size(file) > file.len() - 40 {
        Err(BundleError::InvalidSize)
    } else {
        Ok((file.len() - 40 - stated_size(file), file.len() - 40))
    }
}

/// Where the bundle lies in an executable, or why it is refused: a footer must
/// fit, the size must be that of a bundle in front of it, and the digest must
/// be that of the bundle.
pub open spec fn located(file: Seq<u8>) -> Result<(int, int), BundleError> {
    match stated_range(file) {
        Ok(range) => if sha256(bundle_bytes(file)) == stated_digest(file) {
            Ok(range)
        } else {
            Err(BundleError::Tampered)
        },
        Err(e) => Err(e),
    }
}

fn read_u64(bytes: &[u8], at: usize) -> (n: u64)
    requires
        at + 8 <= bytes@.len(),
    ensures
        n == little_endian(bytes@.subrange(at as int, at + 8)),
{
    proof {
        reveal_with_fuel(little_endian, 9);
    }
    let ghost s = bytes@.subrange(at as int, at + 8);
    assert(s.drop_first().drop_first().drop_first().drop_first().drop_first().drop_first().drop_first()[0]
        == bytes@[at + 7]);
    bytes[at] as u64 + bytes[at + 1] as u64 * 0x100 + bytes[at + 2] as u64 * 0x1_0000 + bytes[at
        + 3] as u64 * 0x100_0000 + bytes[at + 4] as u64 * 0x1_0000_0000 + bytes[at + 5] as u64
        * 0x100_0000_0000 + bytes[at + 6] as u64 * 0x1_0000_0000_0000 + bytes[at + 7] as u64
        * 0x100_0000_0000_0000
}

fn same_bytes(a: &[u8], b: &[u8], from: usize) -> (r: bool)
    requires
        from <= b@.len(),
    ensures
        r == (a@ == b@.skip(from as int)),
{
    if a.len() != b.len() - from {
        return false;
    }
    let mut i: usize = 0;
    while i < a.len()
        invariant
            i <= a.len(),
            a.len() + from == b.len(),
            forall|j: int| 0 <= j < i ==> a@[j] == b@[from + j],
        decreases a.len() - i,
    {
        if a[i] != b[from + i] {
            assert(a@[i as int] != b@.skip(from as int)[i as int]);
            return false;
        }
        i += 1;
    }
    assert(a@ == b@.skip(from as int));
    true
}

/// Where the footer says that the bundle lies: its start and its end.
pub fn read_footer(file: &[u8]) -> (r: Result<(usize, usize), BundleError>)
    ensures
        match r {
            Ok((start, end)) => stated_range(file@) == Ok::<(int, int), BundleError>(
                (start as int, end as int),
            ) && start < end <= file@.len(),
            Err(e) => stated_range(file@) == Err::<(int, int), BundleError>(e),
        },
{
    if file.len() < FOOTER_LEN {
        return Err(BundleError::TooSmall);
    }
    let end = file.len() - FOOTER_LEN;
    let size: u64 = read_u64(file, end);
    if size == 0 || size > end as u64 {
        return Err(BundleError::InvalidSize);
    }
    Ok((end - size as usize, end))
}

/// True when a digest is the one that the footer gives.
pub fn is_stated_digest(file: &[u8], actual: &[u8]) -> (r: bool)
    requires
        file@.len() >= 40,
    ensures
        r == (actual@ == stated_digest(file@)),
{
    assert(file@.skip(file.len() - 32) == stated_digest(file@));
    same_bytes(actual, file, file.len() - 32)
}

/// Where the bundle lies in an executable: its start and its end.
pub fn locate_bundle(file: &[u8]) -> (r: Result<(usize, usize), BundleError>)
    ensures
        match r {
            Ok((start, end)) => located(file@) == Ok::<(int, int), BundleError>(
                (start as int, end as int),
            ) && start < end <= file@.len(),
            Err(e) => located(file@) == Err::<(int, int), BundleError>(e),
        },
{
    match read_footer(file) {
        Ok((start, end)) => {
            let bundle = vstd::slice::slice_subrange(file, start, end);
            if is_stated_digest(file, &digest(bundle)) {
                Ok((start, end))
            } else {
                Err(BundleError::Tampered)
            }
        },
        Err(e) => Err(e),
    }
}

/// An executable made of a host, a bundle, the size and the digest of the
/// bundle opens to that bundle, whatever the host.
pub proof fn law_stitched_bundle_is_found(
    host: Seq<u8>,
    bundle: Seq<u8>,
    size: Seq<u8>,
    hash: Seq<u8>,
)
    requires
        bundle.len() > 0,
        size.len() == 8,
        little_endian(size) == bundle.len(),
        hash.len() == 32,
        hash == sha256(bundle),
    ensures
        located(host + bundle + size + hash) == Ok::<(int, int), BundleError>(
            (host.len() as int, (host.len() + bundle.len()) as int),
        ),
        bundle_bytes(host + bundle + size + hash) == bundle,
{
    let file = host + bundle + size + hash;
    assert(file.subrange(file.len() - 40, file.len() - 32) == size);
    assert(stated_digest(file) == hash);
    assert(bundle_bytes(file) == bundle);
}

/// A bundle that does not have the digest of the footer is never opened.
pub proof fn law_tampered_bundle_is_refused(file: Seq<u8>)
    requires
        file.len() >= 40,
        sha256(bundle_bytes(file)) != stated_digest(file),
    ensures
        located(file) is Err,
{
}

/// The size in a footer is read from its lowest byte to its highest.
pub proof fn law_sizes_are_read_from_the_lowest_byte(bytes: Seq<u8>)
    requires
        bytes.len() == 8,
    ensures
        little_endian(bytes) == bytes[0] + 0x100 * bytes[1] + 0x1_0000 * bytes[2] + 0x100_0000
            * bytes[3] + 0x1_0000_0000 * bytes[4] + 0x100_0000_0000 * bytes[5] + 0x1_0000_0000_0000
            * bytes[6] + 0x100_0000_0000_0000 * bytes[7],
{
    reveal_with_fuel(little_endian, 9);
    let s = bytes;
    assert(s.drop_first().drop_first().drop_first().drop_first().drop_first().drop_first().drop_first()[0]
        == bytes[7]);
}

/// What an executable is refused for: it is shorter than a footer, the footer gives
/// a size of 0 or more than there is in front of it, or another digest than that of
/// the bundle.
pub proof fn law_executables_that_are_refused(
    file: Seq<u8>,
    front: Seq<u8>,
    bundle: Seq<u8>,
    size: Seq<u8>,
    hash: Seq<u8>,
)
    requires
        file == front + bundle + size + hash,
        size.len() == 8,
        hash.len() == 32,
    ensures
        little_endian(size) == 0 ==> located(file) == Err::<(int, int), BundleError>(
            BundleError::InvalidSize,
        ),
        little_endian(size) > front.len() + bundle.len() ==> located(file) == Err::<
            (int, int),
            BundleError,
        >(BundleError::InvalidSize),
        little_endian(size) == bundle.len() && bundle.len() > 0 && sha256(bundle) != hash
            ==> located(file) == Err::<(int, int), BundleError>(BundleError::Tampered),
        forall|short: Seq<u8>| short.len() < 40 ==> #[trigger] located(short) == Err::<
            (int, int),
            BundleError,
        >(BundleError::TooSmall),
{
    assert(file.subrange(file.len() - 40, file.len() - 32) == size);
    assert(stated_digest(file) == hash);
    if little_endian(size) == bundle.len() {
        assert(bundle_bytes(file) == bundle);
    }
}

/// The messages for an executable that is refused.
pub proof fn law_bundle_messages()
    ensures
        BundleError::TooSmall.text() == "Binary too small"@,
        BundleError::InvalidSize.text() == "Invalid bundle size"@,
        BundleError::Tampered.text()
            == "Bundle integrity check failed — the executable may be corrupted or tampered."@,
{
}

} // verus!
