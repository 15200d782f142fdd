use vstd::prelude::*;

verus! {

/// Whether a byte string is a structurally valid binary multiaddress:
/// the judgement `libp2p_core::Multiaddr::try_from` makes, a function of
/// the bytes alone.
pub uninterp spec fn multiaddr_valid(bytes: Seq<u8>) -> bool;

pub open spec fn all_addrs_valid(addrs: Seq<Seq<u8>>) -> bool {
    forall|i: int| 0 <= i < addrs.len() ==> multiaddr_valid(#[trigger] addrs[i])
}

/// Relies on `libp2p_core::Multiaddr::try_from(Vec<u8>)`: it walks the
/// buffer's protocol components and accepts exactly the well-formed
/// encodings, a deterministic check of the bytes alone.
#[verifier::external_body]
fn multiaddr_check(bytes: &[u8]) -> (r: bool)
    ensures
        r == multiaddr_valid(bytes@),
{
    libp2p_core::Multiaddr::try_from(bytes.to_vec()).is_ok()
}

/// A validated multiaddress, held in its binary form.
#[derive(Debug, Clone, PartialEq, Eq)]
pub struct Addr {
    bytes: Vec<u8>,
}

impl View for Addr {
    type V = Seq<u8>;

    closed spec fn view(&self) -> Seq<u8> {
        self.bytes@
    }
}

impl Addr {
    pub open spec fn wf(&self) -> bool {
        multiaddr_valid(self@)
    }

    /// Accepts exactly the byte strings that are valid multiaddresses.
    pub fn from_bytes(bytes: Vec<u8>) -> (r: Option<Addr>)
        ensures
            multiaddr_valid(bytes@) ==> (r matches Some(a) && a@ == bytes@),
            !multiaddr_valid(bytes@) ==> r is None,
    {
        if multiaddr_check(bytes.as_slice()) {
            Some(Addr { bytes })
        } else {
            None
        }
    }

    /// Accepts exactly the byte strings that are valid multiaddresses.
    pub fn from_slice(bytes: &[u8]) -> (r: Option<Addr>)
        ensures
            multiaddr_valid(bytes@) ==> (r matches Some(a) && a@ == bytes@),
            !multiaddr_valid(bytes@) ==> r is None,
    {
        Addr::from_bytes(vstd::slice::slice_to_vec(bytes))
    }

    pub fn as_bytes(&self) -> (r: &Vec<u8>)
        ensures
            r@ == self@,
    {
        &self.bytes
    }
}

} // verus!
