use vstd::prelude::*;
use crate::address::Address;

verus! {

/// Prefix of the keys under which balances are stored (the bytes of "01").
pub open spec fn balance_prefix() -> Seq<u8> {
    seq![48u8, 49u8]
}

/// Prefix of the keys under which allowances are stored (the bytes of "02").
pub open spec fn approve_prefix() -> Seq<u8> {
    seq![48u8, 50u8]
}

/// The key of the total supply (the bytes of "total_supply").
pub open spec fn total_supply_key_spec() -> Seq<u8> {
    seq![116u8, 111, 116, 97, 108, 95, 115, 117, 112, 112, 108, 121]
}

/// The key under which the balance of `a` is stored.
pub open spec fn balance_key(a: Seq<u8>) -> Seq<u8> {
    balance_prefix() + a
}

/// The key under which what `spender` may move out of `owner`'s balance is stored.
pub open spec fn approve_key(owner: Seq<u8>, spender: Seq<u8>) -> Seq<u8> {
    approve_prefix() + owner + spender
}

/// Whether `k` has the shape of a balance key.
pub open spec fn is_balance_key(k: Seq<u8>) -> bool {
    k.len() == 22 && k[0] == 48u8 && k[1] == 49u8
}

/// Distinct addresses have distinct balance keys, and a balance key is
/// neither an allowance key nor the total supply key.
pub proof fn lemma_keys_distinct(a: Seq<u8>, b: Seq<u8>, o: Seq<u8>, s: Seq<u8>)
    requires
        a.len() == 20,
        b.len() == 20,
        o.len() == 20,
        s.len() == 20,
    ensures
        is_balance_key(balance_key(a)),
        !is_balance_key(approve_key(o, s)),
        !is_balance_key(total_supply_key_spec()),
        balance_key(a) == balance_key(b) <==> a == b,
        balance_key(a) != approve_key(o, s),
        balance_key(a) != total_supply_key_spec(),
        approve_key(o, s) != total_supply_key_spec(),
{
    if balance_key(a) == balance_key(b) {
        assert(balance_key(a).subrange(2, 22) =~= a);
        assert(balance_key(b).subrange(2, 22) =~= b);
    }
    assert(approve_key(o, s).len() == 42);
}

/// Two allowance keys are equal exactly when both owners and both spenders are.
pub proof fn lemma_approve_keys_distinct(o1: Seq<u8>, s1: Seq<u8>, o2: Seq<u8>, s2: Seq<u8>)
    requires
        o1.len() == 20,
        s1.len() == 20,
        o2.len() == 20,
        s2.len() == 20,
    ensures
        approve_key(o1, s1) == approve_key(o2, s2) <==> (o1 == o2 && s1 == s2),
{
    if approve_key(o1, s1) == approve_key(o2, s2) {
        assert(approve_key(o1, s1).subrange(2, 22) =~= o1);
        assert(approve_key(o2, s2).subrange(2, 22) =~= o2);
        assert(approve_key(o1, s1).subrange(22, 42) =~= s1);
        assert(approve_key(o2, s2).subrange(22, 42) =~= s2);
    }
}

/// The storage key of the total supply.
pub fn total_supply_key() -> (r: Vec<u8>)
    ensures
        r@ == total_supply_key_spec(),
{
    let r: Vec<u8> = vec![116, 111, 116, 97, 108, 95, 115, 117, 112, 112, 108, 121];
    assert(r@ =~= total_supply_key_spec());
    r
}

/// The storage key of `addr`'s balance: the balance prefix, then the address.
pub fn gen_balance_key(addr: &Address) -> (r: Vec<u8>)
    ensures
        r@ == balance_key(addr@),
{
    let mut r: Vec<u8> = Vec::new();
    r.push(48);
    r.push(49);
    let mut i: usize = 0;
    while i < 20
        invariant
            0 <= i <= 20,
            addr@.len() == 20,
            r@ =~= balance_prefix() + addr@.subrange(0, i as int),
        decreases 20 - i,
    {
        r.push(addr.bytes[i]);
        i = i + 1;
        assert(r@ =~= balance_prefix() + addr@.subrange(0, i as int));
    }
    assert(addr@.subrange(0, 20) =~= addr@);
    r
}

/// The storage key of the allowance that `owner` grants `spender`: the allowance
/// prefix, then the owner, then the spender.
pub fn gen_approve_key(owner: &Address, spender: &Address) -> (r: Vec<u8>)
    ensures
        r@ == approve_key(owner@, spender@),
{
    let mut r: Vec<u8> = Vec::new();
    r.push(48);
    r.push(50);
    let mut i: usize = 0;
    while i < 20
        invariant
            0 <= i <= 20,
            owner@.len() == 20,
            r@ =~= approve_prefix() + owner@.subrange(0, i as int),
        decreases 20 - i,
    {
        r.push(owner.bytes[i]);
        i = i + 1;
        assert(r@ =~= approve_prefix() + owner@.subrange(0, i as int));
    }
    assert(owner@.subrange(0, 20) =~= owner@);
    let mut j: usize = 0;
    while j < 20
        invariant
            0 <= j <= 20,
            owner@.len() == 20,
            spender@.len() == 20,
            r@ =~= approve_prefix() + owner@ + spender@.subrange(0, j as int),
        decreases 20 - j,
    {
        r.push(spender.bytes[j]);
        j = j + 1;
        assert(r@ =~= approve_prefix() + owner@ + spender@.subrange(0, j as int));
    }
    assert(spender@.subrange(0, 20) =~= spender@);
    r
}

} // verus!
