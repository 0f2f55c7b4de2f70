//! Chain identities, on-chain asset deployments, and the static asset
//! registry consulted by both sides of the protocol.

use vstd::prelude::*;
use crate::amount::MAX_DECIMALS;
use crate::text::{base58_byte, hex_byte, json_safe, json_safe_byte};

verus! {

/// An enumerated chain identity: one EVM testnet and one Solana cluster.
#[derive(Clone, Copy, PartialEq, Eq, Structural, Debug)]
pub enum Network {
    Solana,
    BaseSepolia,
}

/// Wire name of a network, as it appears in requirement documents and
/// payment headers.
pub open spec fn network_name(n: Network) -> Seq<u8> {
    match n {
        Network::Solana => seq![0x73u8, 0x6fu8, 0x6cu8, 0x61u8, 0x6eu8, 0x61u8],
        Network::BaseSepolia => seq![
            0x62u8, 0x61u8, 0x73u8, 0x65u8, 0x2du8, 0x73u8, 0x65u8, 0x70u8, 0x6fu8, 0x6cu8,
            0x69u8, 0x61u8,
        ],
    }
}

impl Network {
    /// Appends this network's wire name.
    pub fn push_name(&self, v: &mut Vec<u8>)
        ensures
            final(v)@ == old(v)@ + network_name(*self),
    {
        match self {
            Network::Solana => {
                v.push(0x73);
                v.push(0x6f);
                v.push(0x6c);
                v.push(0x61);
                v.push(0x6e);
                v.push(0x61);
            },
            Network::BaseSepolia => {
                v.push(0x62);
                v.push(0x61);
                v.push(0x73);
                v.push(0x65);
                v.push(0x2d);
                v.push(0x73);
                v.push(0x65);
                v.push(0x70);
                v.push(0x6f);
                v.push(0x6c);
                v.push(0x69);
                v.push(0x61);
            },
        }
        proof {
            assert(v@ =~= old(v)@ + network_name(*self));
        }
    }
}

/// An address in the format of the network's chain family: `0x` plus forty
/// hexadecimal digits for the EVM family, a base-58 string of thirty-two
/// to forty-four characters for Solana.
pub open spec fn addr_valid(n: Network, s: Seq<u8>) -> bool {
    match n {
        Network::BaseSepolia => {
            &&& s.len() == 42
            &&& s[0] == 0x30
            &&& s[1] == 0x78
            &&& forall|i: int| 2 <= i < 42 ==> hex_byte(#[trigger] s[i])
        },
        Network::Solana => {
            &&& 32 <= s.len() <= 44
            &&& forall|i: int| 0 <= i < s.len() ==> base58_byte(#[trigger] s[i])
        },
    }
}

/// Every valid address is JSON-safe, so addresses can stand verbatim in
/// wire documents.
pub proof fn lemma_addr_json_safe(n: Network, s: Seq<u8>)
    requires
        addr_valid(n, s),
    ensures
        json_safe(s),
{
    assert(forall|i: int| 0 <= i < s.len() ==> json_safe_byte(#[trigger] s[i]));
}

/// Checks an address against its network's format.
pub fn check_address(n: &Network, s: &Vec<u8>) -> (r: bool)
    ensures
        r == addr_valid(*n, s@),
{
    match n {
        Network::BaseSepolia => {
            if s.len() != 42 {
                return false;
            }
            if s[0] != 0x30 || s[1] != 0x78 {
                return false;
            }
            let mut i: usize = 2;
            while i < 42
                invariant
                    *n == Network::BaseSepolia,
                    2 <= i <= 42,
                    s@.len() == 42,
                    s@[0] == 0x30,
                    s@[1] == 0x78,
                    forall|m: int| 2 <= m < i ==> hex_byte(#[trigger] s@[m]),
                decreases 42 - i,
            {
                let b = s[i];
                let ok = (0x30 <= b && b <= 0x39) || (0x61 <= b && b <= 0x66) || (0x41 <= b && b
                    <= 0x46);
                if !ok {
                    proof {
                        assert(!hex_byte(s@[i as int]));
                    }
                    return false;
                }
                i = i + 1;
            }
            true
        },
        Network::Solana => {
            if s.len() < 32 || s.len() > 44 {
                return false;
            }
            let mut i: usize = 0;
            while i < s.len()
                invariant
                    *n == Network::Solana,
                    i <= s@.len(),
                    32 <= s@.len() <= 44,
                    forall|m: int| 0 <= m < i ==> base58_byte(#[trigger] s@[m]),
                decreases s@.len() - i,
            {
                let b = s[i];
                let ok = (0x31 <= b && b <= 0x39) || (0x41 <= b && b <= 0x5a && b != 0x49 && b
                    != 0x4f) || (0x61 <= b && b <= 0x7a && b != 0x6c);
                if !ok {
                    proof {
                        assert(!base58_byte(s@[i as int]));
                    }
                    return false;
                }
                i = i + 1;
            }
            true
        },
    }
}

/// On-chain metadata of one token on one network.
#[derive(Clone, Debug)]
pub struct AssetDeployment {
    pub network: Network,
    pub address: Vec<u8>,
    pub decimals: u8,
    pub symbol: Vec<u8>,
}

impl AssetDeployment {
    pub open spec fn wf(self) -> bool {
        &&& self.decimals <= MAX_DECIMALS
        &&& addr_valid(self.network, self.address@)
        &&& json_safe(self.symbol@)
        &&& self.symbol@.len() >= 1
    }

    /// Structural identity of a deployment, over views.
    pub open spec fn same_spec(self, other: AssetDeployment) -> bool {
        &&& self.network == other.network
        &&& self.address@ == other.address@
        &&& self.decimals == other.decimals
        &&& self.symbol@ == other.symbol@
    }

    pub fn same(&self, other: &AssetDeployment) -> (r: bool)
        ensures
            r == self.same_spec(*other),
    {
        let n_eq = match (self.network, other.network) {
            (Network::Solana, Network::Solana) => true,
            (Network::BaseSepolia, Network::BaseSepolia) => true,
            _ => false,
        };
        n_eq && bytes_eq(&self.address, &other.address) && self.decimals == other.decimals
            && bytes_eq(&self.symbol, &other.symbol)
    }
}

/// Byte-for-byte equality of two byte strings.
pub fn bytes_eq(a: &Vec<u8>, b: &Vec<u8>) -> (r: bool)
    ensures
        r == (a@ == b@),
{
    if a.len() != b.len() {
        proof {
            assert(a@ != b@) by {
                if a@ == b@ {
                    assert(a@.len() == b@.len());
                }
            }
        }
        return false;
    }
    let mut i: usize = 0;
    while i < a.len()
        invariant
            i <= a@.len(),
            a@.len() == b@.len(),
            forall|m: int| 0 <= m < i ==> a@[m] == b@[m],
        decreases a@.len() - i,
    {
        if a[i] != b[i] {
            return false;
        }
        i = i + 1;
    }
    proof {
        assert(a@ =~= b@);
    }
    true
}

/// The symbol of the one stablecoin in the catalogue.
pub open spec fn usdc_symbol() -> Seq<u8> {
    seq![0x55u8, 0x53u8, 0x44u8, 0x43u8]
}

/// Mint address of USDC on the Solana cluster.
pub open spec fn usdc_solana_address() -> Seq<u8> {
    seq![
        0x45u8, 0x50u8, 0x6au8, 0x46u8, 0x57u8, 0x64u8, 0x64u8, 0x35u8, 0x41u8, 0x75u8, 0x66u8,
        0x71u8, 0x53u8, 0x53u8, 0x71u8, 0x65u8, 0x4du8, 0x32u8, 0x71u8, 0x4eu8, 0x31u8, 0x78u8,
        0x7au8, 0x79u8, 0x62u8, 0x61u8, 0x70u8, 0x43u8, 0x38u8, 0x47u8, 0x34u8, 0x77u8, 0x45u8,
        0x47u8, 0x47u8, 0x6bu8, 0x5au8, 0x77u8, 0x79u8, 0x54u8, 0x44u8, 0x74u8, 0x31u8, 0x76u8,
    ]
}

/// Contract address of USDC on the Base Sepolia testnet.
pub open spec fn usdc_base_sepolia_address() -> Seq<u8> {
    seq![
        0x30u8, 0x78u8, 0x30u8, 0x33u8, 0x36u8, 0x43u8, 0x62u8, 0x44u8, 0x35u8, 0x33u8, 0x38u8,
        0x34u8, 0x32u8, 0x63u8, 0x35u8, 0x34u8, 0x32u8, 0x36u8, 0x36u8, 0x33u8, 0x34u8, 0x65u8,
        0x37u8, 0x39u8, 0x32u8, 0x39u8, 0x35u8, 0x34u8, 0x31u8, 0x65u8, 0x43u8, 0x32u8, 0x33u8,
        0x31u8, 0x38u8, 0x66u8, 0x33u8, 0x64u8, 0x43u8, 0x46u8, 0x37u8, 0x65u8,
    ]
}

/// Address of USDC on a network.
pub open spec fn usdc_address(n: Network) -> Seq<u8> {
    match n {
        Network::Solana => usdc_solana_address(),
        Network::BaseSepolia => usdc_base_sepolia_address(),
    }
}

/// What the catalogue lists for `(network, USDC)`: the network's USDC
/// address at six decimal places.
pub open spec fn is_usdc_deployment(n: Network, a: AssetDeployment) -> bool {
    &&& a.network == n
    &&& a.address@ == usdc_address(n)
    &&& a.decimals == 6
    &&& a.symbol@ == usdc_symbol()
}

#[derive(Clone, Copy, PartialEq, Eq, Structural, Debug)]
pub enum RegistryError {
    UnknownAsset,
}

fn push_usdc_symbol(v: &mut Vec<u8>)
    ensures
        final(v)@ == old(v)@ + usdc_symbol(),
{
    v.push(0x55);
    v.push(0x53);
    v.push(0x44);
    v.push(0x43);
    proof {
        assert(v@ =~= old(v)@ + usdc_symbol());
    }
}

#[verifier::rlimit(60)]
fn usdc_address_vec(n: &Network) -> (v: Vec<u8>)
    ensures
        v@ == usdc_address(*n),
{
    let mut v: Vec<u8> = Vec::new();
    match n {
        Network::Solana => {
            v.push(0x45);
            v.push(0x50);
            v.push(0x6a);
            v.push(0x46);
            v.push(0x57);
            v.push(0x64);
            v.push(0x64);
            v.push(0x35);
            v.push(0x41);
            v.push(0x75);
            v.push(0x66);
            v.push(0x71);
            v.push(0x53);
            v.push(0x53);
            v.push(0x71);
            v.push(0x65);
            v.push(0x4d);
            v.push(0x32);
            v.push(0x71);
            v.push(0x4e);
            v.push(0x31);
            v.push(0x78);
            v.push(0x7a);
            v.push(0x79);
            v.push(0x62);
            v.push(0x61);
            v.push(0x70);
            v.push(0x43);
            v.push(0x38);
            v.push(0x47);
            v.push(0x34);
            v.push(0x77);
            v.push(0x45);
            v.push(0x47);
            v.push(0x47);
            v.push(0x6b);
            v.push(0x5a);
            v.push(0x77);
            v.push(0x79);
            v.push(0x54);
            v.push(0x44);
            v.push(0x74);
            v.push(0x31);
            v.push(0x76);
            proof {
                assert(v@ =~= usdc_solana_address());
            }
        },
        Network::BaseSepolia => {
            v.push(0x30);
            v.push(0x78);
            v.push(0x30);
            v.push(0x33);
            v.push(0x36);
            v.push(0x43);
            v.push(0x62);
            v.push(0x44);
            v.push(0x35);
            v.push(0x33);
            v.push(0x38);
            v.push(0x34);
            v.push(0x32);
            v.push(0x63);
            v.push(0x35);
            v.push(0x34);
            v.push(0x32);
            v.push(0x36);
            v.push(0x36);
            v.push(0x33);
            v.push(0x34);
            v.push(0x65);
            v.push(0x37);
            v.push(0x39);
            v.push(0x32);
            v.push(0x39);
            v.push(0x35);
            v.push(0x34);
            v.push(0x31);
            v.push(0x65);
            v.push(0x43);
            v.push(0x32);
            v.push(0x33);
            v.push(0x31);
            v.push(0x38);
            v.push(0x66);
            v.push(0x33);
            v.push(0x64);
            v.push(0x43);
            v.push(0x46);
            v.push(0x37);
            v.push(0x65);
            proof {
                assert(v@ =~= usdc_base_sepolia_address());
            }
        },
    }
    v
}

/// Looks a token up in the static catalogue.  The catalogue holds USDC on
/// every supported network and nothing else.
pub fn resolve(network: &Network, symbol: &Vec<u8>) -> (r: Result<AssetDeployment, RegistryError>)
    ensures
        match r {
            Ok(a) => symbol@ == usdc_symbol() && is_usdc_deployment(*network, a) && a.wf(),
            Err(RegistryError::UnknownAsset) => symbol@ != usdc_symbol(),
        },
{
    let mut expected: Vec<u8> = Vec::new();
    push_usdc_symbol(&mut expected);
    if !bytes_eq(symbol, &expected) {
        return Err(RegistryError::UnknownAsset);
    }
    let address = usdc_address_vec(network);
    let a = AssetDeployment {
        network: *network,
        address,
        decimals: 6,
        symbol: expected,
    };
    proof {
        assert(addr_valid(a.network, a.address@));
        assert(json_safe(a.symbol@));
    }
    Ok(a)
}

} // verus!
