use vstd::prelude::*;

verus! {

/// The address and proof bump that program-derived-address search finds for
/// the given seeds under the given program identity, or `None` where no
/// viable bump exists or the seeds are out of range.  The result is a
/// function of the seeds and the program identity alone: neither identity
/// derived this way has an externally held private key.
pub uninterp spec fn pda_of(seeds: Seq<Seq<u8>>, program_id: Seq<u8>) -> Option<([u8; 32], u8)>;

/// Relies on `solana_program::pubkey::Pubkey::try_find_program_address`:
/// the derived address and bump depend on the seeds and the program
/// identity alone, and `None` comes back exactly where the search fails
/// rather than panicking.
#[verifier::external_body]
fn find_pda(seeds: &Vec<Vec<u8>>, program_id: &Vec<u8>) -> (r: Option<([u8; 32], u8)>)
    requires
        program_id@.len() == 32,
    ensures
        r == pda_of(seeds.deep_view(), program_id@),
{
    let id_bytes: [u8; 32] = program_id.as_slice().try_into().unwrap();
    let id = solana_program::pubkey::Pubkey::new_from_array(id_bytes);
    let seed_slices: Vec<&[u8]> = seeds.iter().map(|s| s.as_slice()).collect();
    solana_program::pubkey::Pubkey::try_find_program_address(&seed_slices, &id).map(
        |found: (solana_program::pubkey::Pubkey, u8)| (found.0.to_bytes(), found.1),
    )
}

/// The fixed seed string of the custody authority: "authority".
pub open spec fn custody_seed() -> Seq<u8> {
    seq![97u8, 117u8, 116u8, 104u8, 111u8, 114u8, 105u8, 116u8, 121u8]
}

/// The fixed seed string of the reward mint authority: "mint-authority".
pub open spec fn reward_mint_seed() -> Seq<u8> {
    seq![
        109u8,
        105u8,
        110u8,
        116u8,
        45u8,
        97u8,
        117u8,
        116u8,
        104u8,
        111u8,
        114u8,
        105u8,
        116u8,
        121u8,
    ]
}

/// The custody authority derived for a program: the scoped identity that
/// holds delegated transfer rights over staked tokens.
pub open spec fn custody_authority_of(program_id: Seq<u8>) -> Option<([u8; 32], u8)> {
    pda_of(seq![custody_seed()], program_id)
}

/// The reward mint authority derived for a program: the scoped identity
/// that authorizes reward issuance.
pub open spec fn reward_mint_authority_of(program_id: Seq<u8>) -> Option<([u8; 32], u8)> {
    pda_of(seq![reward_mint_seed()], program_id)
}

/// The address a stake record lives at: derived from the holder's identity
/// and the token account's identity, which is what guarantees at most one
/// live record per pair.
pub open spec fn record_address_of(
    holder_key: Seq<u8>,
    token_account_key: Seq<u8>,
    program_id: Seq<u8>,
) -> Option<([u8; 32], u8)> {
    pda_of(seq![holder_key, token_account_key], program_id)
}

/// The bytes of the custody authority's seed string.
fn custody_seed_bytes() -> (r: Vec<u8>)
    ensures
        r@ == custody_seed(),
{
    let v: Vec<u8> = vec![97u8, 117u8, 116u8, 104u8, 111u8, 114u8, 105u8, 116u8, 121u8];
    proof {
        assert(v@ =~= custody_seed());
    }
    v
}

/// The bytes of the reward mint authority's seed string.
fn reward_mint_seed_bytes() -> (r: Vec<u8>)
    ensures
        r@ == reward_mint_seed(),
{
    let v: Vec<u8> = vec![
        109u8,
        105u8,
        110u8,
        116u8,
        45u8,
        97u8,
        117u8,
        116u8,
        104u8,
        111u8,
        114u8,
        105u8,
        116u8,
        121u8,
    ];
    proof {
        assert(v@ =~= reward_mint_seed());
    }
    v
}

/// Derive the custody authority for the program named by `program_id`.
///
/// Derivation is deterministic: every call for the same program yields the
/// same identity and bump.  `None` is a fatal configuration error, not a
/// runtime condition: no viable proof bump exists for this program.
pub fn derive_custody_authority(program_id: &Vec<u8>) -> (r: Option<([u8; 32], u8)>)
    requires
        program_id@.len() == 32,
    ensures
        r == custody_authority_of(program_id@),
{
    let mut seeds: Vec<Vec<u8>> = Vec::new();
    seeds.push(custody_seed_bytes());
    proof {
        assert(seeds.deep_view()[0] =~= custody_seed());
        assert(seeds.deep_view() =~~= seq![custody_seed()]);
    }
    find_pda(&seeds, program_id)
}

/// Derive the reward mint authority for the program named by `program_id`.
pub fn derive_reward_mint_authority(program_id: &Vec<u8>) -> (r: Option<([u8; 32], u8)>)
    requires
        program_id@.len() == 32,
    ensures
        r == reward_mint_authority_of(program_id@),
{
    let mut seeds: Vec<Vec<u8>> = Vec::new();
    seeds.push(reward_mint_seed_bytes());
    proof {
        assert(seeds.deep_view()[0] =~= reward_mint_seed());
        assert(seeds.deep_view() =~~= seq![reward_mint_seed()]);
    }
    find_pda(&seeds, program_id)
}

/// Derive the address a stake record lives at for a (holder, token account)
/// pair under the program named by `program_id`.
pub fn derive_record_address(
    holder_key: &Vec<u8>,
    token_account_key: &Vec<u8>,
    program_id: &Vec<u8>,
) -> (r: Option<([u8; 32], u8)>)
    requires
        program_id@.len() == 32,
    ensures
        r == record_address_of(holder_key@, token_account_key@, program_id@),
{
    let mut seeds: Vec<Vec<u8>> = Vec::new();
    seeds.push(holder_key.clone());
    seeds.push(token_account_key.clone());
    proof {
        assert(seeds.deep_view()[0] =~= holder_key@);
        assert(seeds.deep_view()[1] =~= token_account_key@);
        assert(seeds.deep_view() =~~= seq![holder_key@, token_account_key@]);
    }
    find_pda(&seeds, program_id)
}

/// Derivation is idempotent: any two derivations for the same seeds under
/// the same program yield the same identity and proof bump.
pub proof fn lemma_derivation_deterministic(
    r1: Option<([u8; 32], u8)>,
    r2: Option<([u8; 32], u8)>,
    seeds: Seq<Seq<u8>>,
    program_id: Seq<u8>,
)
    ensures
        r1 == pda_of(seeds, program_id) && r2 == pda_of(seeds, program_id) ==> r1 == r2,
{
}

} // verus!
