//! Block identifiers.
use vstd::prelude::*;

verus! {

/// A 32-byte digest.
pub type Digest32 = [u8; 32];

/// Identifier of a block: the digest of its header.
#[derive(PartialEq, Eq, Debug, Clone, Copy)]
pub struct BlockId(pub Digest32);

/// The digest's bytes reinterpreted as signed bytes.
pub open spec fn signed_bytes(d: Seq<u8>) -> Seq<i8> {
    d.map_values(|b: u8| b as i8)
}

impl BlockId {
    /// The id's bytes as signed bytes, in order.
    pub fn to_signed_bytes(&self) -> (r: Vec<i8>)
        ensures
            r@ == signed_bytes(self.0@),
    {
        let mut out: Vec<i8> = Vec::new();
        let mut i: usize = 0;
        while i < 32
            invariant
                i <= 32,
                self.0@.len() == 32,
                out@ == signed_bytes(self.0@.subrange(0, i as int)),
            decreases 32 - i,
        {
            out.push(self.0[i] as i8);
            proof {
                assert(signed_bytes(self.0@.subrange(0, i + 1)) =~= signed_bytes(
                    self.0@.subrange(0, i as int),
                ).push(self.0@[i as int] as i8));
            }
            i = i + 1;
        }
        assert(self.0@.subrange(0, 32) =~= self.0@);
        out
    }
}

impl From<BlockId> for Vec<i8> {
    fn from(value: BlockId) -> (r: Vec<i8>) {
        value.to_signed_bytes()
    }
}

impl vstd::std_specs::convert::FromSpecImpl<BlockId> for Vec<i8> {
    open spec fn obeys_from_spec() -> bool {
        false
    }

    open spec fn from_spec(v: BlockId) -> Vec<i8> {
        vstd::pervasive::arbitrary()
    }
}

} // verus!
