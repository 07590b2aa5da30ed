use soroban_sdk::xdr::{AccountId, PublicKey, ScAddress, ToXdr, Uint256};
use soroban_sdk::{Env, TryFromVal};
use vstd::prelude::*;

verus! {

/// A 32-byte value: a hash, a key, or a pool identifier.
pub type Bytes32 = [u8; 32];

/// Whether an address names an account or a contract.
#[derive(Clone, Copy, Debug, PartialEq, Eq, Structural)]
pub enum AddressKind {
    Account,
    Contract,
}

/// The identity of a staker, an administrator or a token: its kind and the
/// 32 bytes that identify it (an ed25519 public key for an account, a
/// contract hash for a contract).
#[derive(Clone, Copy, Debug, PartialEq, Eq)]
pub struct Address {
    pub kind: AddressKind,
    pub id: Bytes32,
}

/// Byte-wise equality of two 32-byte values.
pub fn bytes32_eq(a: &Bytes32, b: &Bytes32) -> (r: bool)
    ensures
        r == (*a == *b),
{
    let mut i: usize = 0;
    while i < 32
        invariant
            i <= 32,
            forall|j: int| 0 <= j < i ==> a[j] == b[j],
        decreases 32 - i,
    {
        if a[i] != b[i] {
            return false;
        }
        i += 1;
    }
    assert(*a =~= *b);
    true
}

/// Lexicographic order on 32-byte values, as a relation on their bytes:
/// `a` comes no later than `b` when they are equal or when, at the first
/// position where they differ, the byte of `a` is the smaller one.
pub open spec fn bytes32_le(a: Bytes32, b: Bytes32) -> bool {
    a == b || exists|k: int|
        0 <= k < 32 && #[trigger] a[k] < b[k] && forall|j: int| 0 <= j < k ==> a[j] == b[j]
}

/// Decides the lexicographic order of two 32-byte values.
pub fn bytes32_lex_le(a: &Bytes32, b: &Bytes32) -> (r: bool)
    ensures
        r == bytes32_le(*a, *b),
{
    let mut i: usize = 0;
    while i < 32
        invariant
            i <= 32,
            forall|j: int| 0 <= j < i ==> a[j] == b[j],
        decreases 32 - i,
    {
        if a[i] < b[i] {
            assert(bytes32_le(*a, *b));
            return true;
        }
        if a[i] > b[i] {
            proof {
                assert(*a != *b);
                assert forall|k: int|
                    0 <= k < 32 && #[trigger] a[k] < b[k] implies !(forall|j: int|
                    0 <= j < k ==> a[j] == b[j]) by {
                    if k < i {
                        assert(a[k] == b[k]);
                    } else {
                        assert(a[i as int] != b[i as int]);
                    }
                }
            }
            return false;
        }
        i += 1;
    }
    assert(*a =~= *b);
    true
}

impl Address {
    /// The address of the account with the given public key.
    pub fn account(id: Bytes32) -> (a: Address)
        ensures
            a == (Address { kind: AddressKind::Account, id }),
    {
        Address { kind: AddressKind::Account, id }
    }

    /// The address of the contract with the given hash.
    pub fn contract(id: Bytes32) -> (a: Address)
        ensures
            a == (Address { kind: AddressKind::Contract, id }),
    {
        Address { kind: AddressKind::Contract, id }
    }

    /// Whether two addresses name the same identity.
    pub fn same(&self, other: &Address) -> (r: bool)
        ensures
            r == (*self == *other),
    {
        let kinds: bool = match (self.kind, other.kind) {
            (AddressKind::Account, AddressKind::Account) => true,
            (AddressKind::Contract, AddressKind::Contract) => true,
            _ => false,
        };
        kinds && bytes32_eq(&self.id, &other.id)
    }

    /// The canonical serialization of an address: the tag of an address
    /// value, the tag of its kind, for an account the tag of its key type,
    /// each as four big-endian bytes, and then the 32 identifying bytes.
    pub open spec fn spec_xdr(self) -> Seq<u8> {
        match self.kind {
            AddressKind::Account => seq![0u8, 0u8, 0u8, 18u8, 0u8, 0u8, 0u8, 0u8, 0u8, 0u8, 0u8, 0u8]
                + self.id@,
            AddressKind::Contract => seq![0u8, 0u8, 0u8, 18u8, 0u8, 0u8, 0u8, 1u8] + self.id@,
        }
    }
}

/// Two addresses with the same serialization are the same address.
pub proof fn lemma_xdr_injective(a: Address, b: Address)
    requires
        a.spec_xdr() == b.spec_xdr(),
    ensures
        a == b,
{
    let pa = a.spec_xdr();
    let pb = b.spec_xdr();
    assert(pa.len() == pb.len());
    assert(a.kind == b.kind);
    let off: int = if a.kind == AddressKind::Account { 12 } else { 8 };
    assert forall|i: int| 0 <= i < 32 implies a.id[i] == b.id[i] by {
        assert(pa[off + i] == a.id@[i]);
        assert(pb[off + i] == b.id@[i]);
    }
    assert(a.id =~= b.id);
}

/// The canonical serialization of `address`, as the ledger's SDK writes it.
///
/// Trusted: the body builds the SDK's `Address` for the same kind and
/// bytes on a fresh environment and calls `soroban_sdk::xdr::ToXdr::to_xdr`
/// on it. The contract claims that the bytes written are those of
/// [`Address::spec_xdr`]: the XDR tags of the value and of its kind, and
/// the 32 identifying bytes.
#[verifier::external_body]
pub(crate) fn address_to_xdr(address: &Address) -> (out: Vec<u8>)
    ensures
        out@ == address.spec_xdr(),
{
    let env = Env::default();
    let sc = match address.kind {
        AddressKind::Account => ScAddress::Account(
            AccountId(PublicKey::PublicKeyTypeEd25519(Uint256(address.id))),
        ),
        AddressKind::Contract => ScAddress::Contract(soroban_sdk::xdr::Hash(address.id)),
    };
    let sdk_address = soroban_sdk::Address::try_from_val(&env, &sc).unwrap();
    sdk_address.to_xdr(&env).iter().collect()
}

impl Address {
    /// The canonical serialization of this address.
    pub fn to_xdr(&self) -> (out: Vec<u8>)
        ensures
            out@ == self.spec_xdr(),
            out@.len() == 40 || out@.len() == 44,
    {
        address_to_xdr(self)
    }

    /// The address that `bytes` is the canonical serialization of, if
    /// there is one.
    pub fn from_xdr(bytes: &Vec<u8>) -> (r: Option<Address>)
        ensures
            match r {
                Some(a) => a.spec_xdr() == bytes@,
                None => forall|a: Address| a.spec_xdr() != bytes@,
            },
    {
        let n: usize = bytes.len();
        if n != 40 && n != 44 {
            assert forall|a: Address| a.spec_xdr() != bytes@ by {
                assert(a.spec_xdr().len() == 40 || a.spec_xdr().len() == 44);
            }
            return None;
        }
        let tagged: bool = bytes[0] == 0 && bytes[1] == 0 && bytes[2] == 0 && bytes[3] == 18
            && bytes[4] == 0 && bytes[5] == 0 && bytes[6] == 0;
        let is_contract: bool = tagged && n == 40 && bytes[7] == 1;
        let is_account: bool = tagged && n == 44 && bytes[7] == 0 && bytes[8] == 0 && bytes[9]
            == 0 && bytes[10] == 0 && bytes[11] == 0;
        if !is_contract && !is_account {
            assert forall|a: Address| a.spec_xdr() != bytes@ by {
                let x = a.spec_xdr();
                if x == bytes@ {
                    assert(x[0] == 0 && x[1] == 0 && x[2] == 0 && x[3] == 18);
                    assert(x[4] == 0 && x[5] == 0 && x[6] == 0);
                    if a.kind == AddressKind::Account {
                        assert(x[7] == 0 && x[8] == 0 && x[9] == 0 && x[10] == 0 && x[11] == 0);
                    } else {
                        assert(x[7] == 1);
                    }
                }
            }
            return None;
        }
        let offset: usize = n - 32;
        let mut id: Bytes32 = [0u8; 32];
        let mut i: usize = 0;
        while i < 32
            invariant
                i <= 32,
                offset + 32 == bytes@.len(),
                bytes@.len() <= 44,
                forall|j: int| 0 <= j < i ==> id[j] == bytes@[offset + j],
            decreases 32 - i,
        {
            id[i] = bytes[offset + i];
            i += 1;
        }
        let a = if is_contract {
            Address { kind: AddressKind::Contract, id }
        } else {
            Address { kind: AddressKind::Account, id }
        };
        assert(a.spec_xdr() =~= bytes@);
        Some(a)
    }
}


/// Of two 32-byte values, one comes no later than the other.
pub proof fn lemma_bytes32_le_total(a: Bytes32, b: Bytes32)
    ensures
        bytes32_le(a, b) || bytes32_le(b, a),
{
    if a != b {
        lemma_first_difference(a, b, 0);
    }
}

/// Two 32-byte values that each come no later than the other are equal.
pub proof fn lemma_bytes32_le_antisymmetric(a: Bytes32, b: Bytes32)
    requires
        bytes32_le(a, b),
        bytes32_le(b, a),
    ensures
        a == b,
{
    if a != b {
        let k = choose|k: int|
            0 <= k < 32 && #[trigger] a[k] < b[k] && forall|j: int| 0 <= j < k ==> a[j] == b[j];
        let m = choose|m: int|
            0 <= m < 32 && #[trigger] b[m] < a[m] && forall|j: int| 0 <= j < m ==> b[j] == a[j];
        if k < m {
            assert(b[k] == a[k]);
        } else if m < k {
            assert(a[m] == b[m]);
        }
    }
}

/// Two values that agree on their first `from` bytes and are not equal
/// differ first at some later position, which orders them.
proof fn lemma_first_difference(a: Bytes32, b: Bytes32, from: int)
    requires
        a != b,
        0 <= from <= 32,
        forall|j: int| 0 <= j < from ==> a[j] == b[j],
    ensures
        bytes32_le(a, b) || bytes32_le(b, a),
    decreases 32 - from,
{
    if from == 32 {
        assert(a =~= b);
    } else if a[from] < b[from] {
        assert(bytes32_le(a, b));
    } else if b[from] < a[from] {
        assert(bytes32_le(b, a));
    } else {
        lemma_first_difference(a, b, from + 1);
    }
}


} // verus!
