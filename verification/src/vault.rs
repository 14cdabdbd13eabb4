use crate::address::Address;
use crate::pool::RewardPool;
use vstd::prelude::*;

verus! {

/// What the ledger shows of the escrow that holds a pool's funds.
#[derive(Clone, Copy, Debug, PartialEq, Eq, Structural)]
pub struct Vault {
    pub balance: u64,
}

/// The text that opens the seeds of every vault: the ASCII bytes of `vault`.
pub open spec fn vault_domain() -> Seq<u8> {
    seq![118u8, 97u8, 117u8, 108u8, 116u8]
}

/// The seeds from which a vault's signing authority is derived: the fixed
/// domain, the asset identity of a token pool, and the bump chosen when the
/// pool was created. No private key corresponds to them.
pub open spec fn vault_seeds(mint: Option<Address>, bump: u8) -> Seq<Seq<u8>> {
    match mint {
        None => seq![vault_domain(), seq![bump]],
        Some(asset) => seq![vault_domain(), asset.bytes@, seq![bump]],
    }
}

/// The views of a list of byte strings.
pub open spec fn byte_strings(seeds: Seq<Vec<u8>>) -> Seq<Seq<u8>> {
    seeds.map_values(|seed: Vec<u8>| seed@)
}

/// The capability to move funds out of one pool's vault. Only an operation
/// that has approved an outgoing transfer hands one out.
#[derive(Debug)]
pub struct VaultAuthority {
    mint: Option<Address>,
    bump: u8,
}

impl VaultAuthority {
    /// The seeds this authority signs with.
    pub closed spec fn seeds(&self) -> Seq<Seq<u8>> {
        vault_seeds(self.mint, self.bump)
    }

    pub(crate) fn of(pool: &RewardPool) -> (authority: VaultAuthority)
        ensures
            authority.seeds() == vault_seeds(pool@.mint, pool@.vault_bump),
    {
        VaultAuthority { mint: pool.mint, bump: pool.vault_bump }
    }

    /// The seeds as bytes, in the order in which the ledger hashes them.
    pub fn signer_seeds(&self) -> (seeds: Vec<Vec<u8>>)
        ensures
            byte_strings(seeds@) == self.seeds(),
    {
        let mut seeds: Vec<Vec<u8>> = Vec::new();
        let domain: Vec<u8> = vec![118u8, 97u8, 117u8, 108u8, 116u8];
        assert(domain@ =~= vault_domain());
        seeds.push(domain);
        match self.mint {
            None => {},
            Some(asset) => {
                seeds.push(asset.to_vec());
            },
        }
        let bump: Vec<u8> = vec![self.bump];
        assert(bump@ =~= seq![self.bump]);
        seeds.push(bump);
        assert(byte_strings(seeds@) =~= self.seeds());
        seeds
    }
}

} // verus!
