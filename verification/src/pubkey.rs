//! Peer identities.

use vstd::prelude::*;

verus! {

/// A peer's cryptographic public identifier within the cluster: 32 bytes.
#[derive(Clone, Copy, Debug, PartialEq, Eq, Hash)]
pub struct Pubkey {
    bytes: [u8; 32],
}

impl View for Pubkey {
    type V = Seq<u8>;

    closed spec fn view(&self) -> Seq<u8> {
        self.bytes@
    }
}

/// What `solana_sdk::pubkey::Pubkey::try_from` gives for the text `s`: the 32
/// bytes that `s` encodes in base 58, or `None` where it returns an error (a
/// text that is too long, that is not base 58, or that encodes another number
/// of bytes).
pub uninterp spec fn pubkey_from_base58(s: Seq<char>) -> Option<Seq<u8>>;

/// Calls `solana_sdk::pubkey::Pubkey::try_from` on a `&str`, and hands out the
/// bytes of the key it returns.
///
/// Trusted: the contract only gives the outcome its name. It claims that the
/// outcome depends on the text alone; the decoding is the outside crate's, and
/// nothing about base 58 is proved here.
#[verifier::external_body]
fn decode_base58(s: &str) -> (r: Option<Pubkey>)
    ensures
        match r {
            Some(key) => pubkey_from_base58(s@) == Some(key@),
            None => pubkey_from_base58(s@).is_none(),
        },
{
    match solana_sdk::pubkey::Pubkey::try_from(s) {
        Ok(key) => Some(Pubkey { bytes: key.to_bytes() }),
        Err(_) => None,
    }
}

/// The identity that the text `s` stands for, if it stands for one.
pub open spec fn parsed_pubkey(s: Seq<char>) -> Option<Pubkey> {
    match pubkey_from_base58(s) {
        Some(bytes) => Some(Pubkey::from_view(bytes)),
        None => None,
    }
}

impl Pubkey {
    /// The identity whose bytes are `bytes`.
    pub closed spec fn from_view(bytes: Seq<u8>) -> Pubkey {
        choose|key: Pubkey| key@ == bytes
    }

    /// An identity is the one that its bytes give.
    pub proof fn lemma_from_view(key: Pubkey)
        ensures
            Pubkey::from_view(key@) == key,
    {
        Pubkey::lemma_view_injective(Pubkey::from_view(key@), key);
    }

    /// The identity made of `bytes`.
    pub fn new_from_array(bytes: [u8; 32]) -> (key: Pubkey)
        ensures
            key@ == bytes@,
    {
        Pubkey { bytes }
    }

    /// The bytes of the identity.
    pub fn to_bytes(&self) -> (bytes: [u8; 32])
        ensures
            bytes@ == self@,
    {
        self.bytes
    }

    /// Two identities are the same value exactly when their bytes agree.
    pub proof fn lemma_view_injective(a: Pubkey, b: Pubkey)
        ensures
            (a@ == b@) <==> (a == b),
    {
        if a@ == b@ {
            assert(a.bytes =~= b.bytes);
        }
    }

    /// Decodes an identity from its base-58 text.
    pub fn parse(s: &str) -> (r: Option<Pubkey>)
        ensures
            r == parsed_pubkey(s@),
    {
        let r = decode_base58(s);
        proof {
            if let Some(key) = r {
                Pubkey::lemma_from_view(key);
            }
        }
        r
    }

    /// Whether two identities are equal.
    pub fn same(&self, other: &Pubkey) -> (r: bool)
        ensures
            r == (*self == *other),
    {
        let mut i: usize = 0;
        while i < 32
            invariant
                i <= 32,
                forall|j: int| 0 <= j < i ==> self.bytes[j] == other.bytes[j],
            decreases 32 - i,
        {
            if self.bytes[i] != other.bytes[i] {
                return false;
            }
            i = i + 1;
        }
        assert(self.bytes =~= other.bytes);
        true
    }
}

} // verus!
