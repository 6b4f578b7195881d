//! What the cryptography reports about a packet.
//!
//! Keys never enter this crate. Whoever holds them checks signatures and
//! opens and seals payloads, and tells the transport core what it found.

use vstd::prelude::*;

verus! {

/// The findings on one inbound packet. Only the fields that bear on the
/// kind of packet at hand are read.
#[derive(Debug)]
pub struct Evidence {
    /// For an announce or a link proof: whether its signature is good.
    pub signature_valid: bool,
    /// For a link request to a destination of this node: the signed proof
    /// to answer with. Absent where the request cannot be answered.
    pub link_proof: Option<Vec<u8>>,
    /// For a payload that travels on a link: the payload opened with the
    /// key of that link. Absent where it does not open.
    pub plaintext: Option<Vec<u8>>,
}

/// [`Evidence`] in terms of plain values.
pub struct EvidenceView {
    pub signature_valid: bool,
    pub link_proof: Option<Seq<u8>>,
    pub plaintext: Option<Seq<u8>>,
}

impl View for Evidence {
    type V = EvidenceView;

    open spec fn view(&self) -> EvidenceView {
        EvidenceView {
            signature_valid: self.signature_valid,
            link_proof: match self.link_proof {
                Some(bytes) => Some(bytes@),
                None => None,
            },
            plaintext: match self.plaintext {
                Some(bytes) => Some(bytes@),
                None => None,
            },
        }
    }
}

impl Evidence {
    /// No findings: nothing was checked and nothing opened.
    pub fn none() -> (evidence: Evidence)
        ensures
            evidence@ == (EvidenceView {
                signature_valid: false,
                link_proof: None,
                plaintext: None,
            }),
    {
        Evidence { signature_valid: false, link_proof: None, plaintext: None }
    }
}

} // verus!
