//! Parsing of the operator-supplied chain name.

use vstd::prelude::*;

use crate::data::Chain;

verus! {

/// One character of an operator-supplied chain name stands for one
/// character of the canonical (upper-case) name: either exactly, or as
/// its ASCII lower-case form, or as `-` standing for `_`.
pub open spec fn chain_char_matches(c: char, u: char) -> bool {
    ||| c == u
    ||| (97 <= c as int <= 122 && c as int - 32 == u as int)
    ||| (c == '-' && u == '_')
}

/// The whole name denotes the ZkSync Era testnet once case and the
/// `-`/`_` distinction are ignored.
pub open spec fn chain_name_matches(s: Seq<char>) -> bool {
    &&& s.len() == "ZKSYNC_ERA_TESTNET"@.len()
    &&& forall|i: int| 0 <= i < s.len() ==> chain_char_matches(s[i], "ZKSYNC_ERA_TESTNET"@[i])
}

/// Maps a chain name from the environment into the closed [`Chain`]
/// set. The comparison ignores ASCII case and treats `-` as `_`; any
/// unknown name yields `None`.
pub fn parse_chain(chain: &str) -> (r: Option<Chain>)
    ensures
        r == if chain_name_matches(chain@) {
            Some(Chain::ZksyncEraTestnet)
        } else {
            None::<Chain>
        },
{
    let target = "ZKSYNC_ERA_TESTNET";
    let n = chain.unicode_len();
    if n != target.unicode_len() {
        return None;
    }
    let mut i: usize = 0;
    while i < n
        invariant
            0 <= i <= n,
            n == chain@.len(),
            n == target@.len(),
            target@ == "ZKSYNC_ERA_TESTNET"@,
            forall|j: int| 0 <= j < i ==> chain_char_matches(chain@[j], "ZKSYNC_ERA_TESTNET"@[j]),
        decreases n - i,
    {
        let c = chain.get_char(i);
        let u = target.get_char(i);
        let cu = c as u32;
        let uu = u as u32;
        let matched = c == u || (97 <= cu && cu <= 122 && cu - 32 == uu) || (c == '-' && u == '_');
        if !matched {
            proof {
                assert(!chain_char_matches(chain@[i as int], "ZKSYNC_ERA_TESTNET"@[i as int]));
            }
            return None;
        }
        i = i + 1;
    }
    Some(Chain::ZksyncEraTestnet)
}

} // verus!
