//! Immutable, integrity-checked content blobs, and the error taxonomy
//! of the loading path.
use vstd::prelude::*;

use crate::fingerprint::{digest_for, fingerprint_of, Fingerprint};

verus! {

/// Why a load failed.  "Not found" is never an error at any layer: a
/// chunk being absent from every source is a normal, empty outcome.
#[derive(Clone, Debug, PartialEq, Eq)]
pub enum LoadError {
    /// The fetched or supplied bytes do not digest to the claimed
    /// fingerprint; trusting them would corrupt the store.
    ContentMismatch { expected: Fingerprint, actual: u64, len: usize },
    /// Credential acquisition or remote-source construction failed
    /// while building a loader.
    ConfigurationError,
    /// A local read failed for a reason other than the file being
    /// absent; a broken local cache must not be masked as a miss.
    LocalIoError,
    /// A remote source answered with a non-retryable status.
    RemoteRequestError { status: u16 },
    /// Retryable remote failures persisted past the retry budget; the
    /// status of the last attempt is attached when one was received.
    RetryLimitExceeded { last_status: Option<u16> },
}

/// An immutable byte payload keyed by its content fingerprint.
///
/// The only way to obtain a `Chunk` is the validating factory
/// [`Chunk::new`], so the integrity invariant [`Chunk::wf`] holds for
/// every instance in the system.
pub struct Chunk {
    fprint: Fingerprint,
    payload: Vec<u8>,
}

impl Chunk {
    /// The fingerprint this chunk is addressed by.
    pub closed spec fn spec_fprint(&self) -> Fingerprint {
        self.fprint
    }

    /// The chunk's payload bytes.
    pub closed spec fn spec_payload(&self) -> Seq<u8> {
        self.payload@
    }

    /// Integrity invariant: the payload's digest matches the primary
    /// half of the fingerprint the chunk is addressed by.
    pub open spec fn wf(&self) -> bool {
        self.spec_fprint().hash0 == fingerprint_of(self.spec_payload()).0
    }

    /// When the validating factory accepts a payload for a
    /// fingerprint: the payload's digest must match the fingerprint's
    /// primary half.
    pub open spec fn accepts(fprint: Fingerprint, payload: Seq<u8>) -> bool {
        fprint.hash0 == fingerprint_of(payload).0
    }

    pub fn fprint(&self) -> (r: Fingerprint)
        ensures
            r == self.spec_fprint(),
    {
        self.fprint
    }

    pub fn payload(&self) -> (r: &Vec<u8>)
        ensures
            r@ == self.spec_payload(),
    {
        &self.payload
    }

    /// Returns a fresh chunk for `fprint`.
    ///
    /// The contents of a content-addressed chunk must have the same
    /// fingerprint as the chunk's name; only the primary 64-bit half
    /// is checked, for speed.  On a mismatch no chunk is returned,
    /// only a `ContentMismatch` error carrying the expected
    /// fingerprint, the actual digest and the payload length.
    pub fn new(fprint: Fingerprint, payload: Vec<u8>) -> (r: Result<Chunk, LoadError>)
        ensures
            r is Ok <==> Self::accepts(fprint, payload@),
            r matches Ok(c) ==> c.spec_fprint() == fprint && c.spec_payload() == payload@
                && c.wf(),
            r matches Err(e) ==> e == (LoadError::ContentMismatch {
                expected: fprint,
                actual: fingerprint_of(payload@).0,
                len: payload@.len() as usize,
            }),
    {
        let actual = digest_for(payload.as_slice());
        if actual != fprint.hash0 {
            let len = payload.len();
            return Err(LoadError::ContentMismatch { expected: fprint, actual, len });
        }
        Ok(Chunk { fprint, payload })
    }
}

/// A chunk built from a payload's own fingerprint is always accepted,
/// and a payload whose digest differs from a fingerprint's primary
/// half is always rejected: together with the contract of
/// [`Chunk::new`], no partial or garbage chunk ever reaches a caller.
pub proof fn lemma_chunk_accepts_own_fingerprint(fp: Fingerprint, payload: Seq<u8>, other: Seq<u8>)
    requires
        fp.hash0 == fingerprint_of(payload).0,
    ensures
        Chunk::accepts(fp, payload),
        fingerprint_of(other).0 != fp.hash0 ==> !Chunk::accepts(fp, other),
{
}

} // verus!
