use vstd::prelude::*;

verus! {

/// Length in bytes of an account address.
pub const ADDRESS_LEN: usize = 20;

/// An account identifier: twenty opaque bytes.
#[derive(Clone, Copy, Debug, PartialEq, Eq)]
pub struct Address {
    pub bytes: [u8; 20],
}

impl View for Address {
    type V = Seq<u8>;

    open spec fn view(&self) -> Seq<u8> {
        self.bytes@
    }
}

impl Address {
    /// The address made of the given bytes.
    pub fn new(bytes: [u8; 20]) -> (r: Address)
        ensures
            r@ == bytes@,
    {
        Address { bytes }
    }

    /// The address whose twenty bytes all equal `b`.
    pub fn repeat_byte(b: u8) -> (r: Address)
        ensures
            r@ == Seq::new(20, |i: int| b),
    {
        let r = Address { bytes: [b; 20] };
        assert(r@ =~= Seq::new(20, |i: int| b));
        r
    }

    /// Whether two addresses hold the same bytes.
    pub fn same_as(&self, other: &Address) -> (r: bool)
        ensures
            r == (self@ == other@),
    {
        let mut i: usize = 0;
        while i < ADDRESS_LEN
            invariant
                0 <= i <= 20,
                self@.len() == 20,
                other@.len() == 20,
                forall|j: int| 0 <= j < i ==> self@[j] == other@[j],
            decreases 20 - i,
        {
            if self.bytes[i] != other.bytes[i] {
                return false;
            }
            i = i + 1;
        }
        assert(self@ =~= other@);
        true
    }
}

/// The administrator, who receives the whole supply at initialization.
pub open spec fn admin_spec() -> Seq<u8> {
    seq![220u8, 161, 48, 92, 200, 252, 43, 61, 49, 39, 162, 196, 132, 155, 67, 48, 21, 69, 216, 78]
}

/// The administrator's address.
pub fn admin() -> (r: Address)
    ensures
        r@ == admin_spec(),
{
    let r = Address {
        bytes: [220, 161, 48, 92, 200, 252, 43, 61, 49, 39, 162, 196, 132, 155, 67, 48, 21, 69, 216, 78],
    };
    assert(r@ =~= admin_spec());
    r
}

/// The addresses that signed the current call.
pub struct Witnesses {
    signers: Vec<Address>,
}

impl View for Witnesses {
    type V = Seq<Address>;

    closed spec fn view(&self) -> Seq<Address> {
        self.signers@
    }
}

impl Witnesses {
    /// Whether the call was signed by the account with address bytes `a`.
    pub open spec fn authorizes(&self, a: Seq<u8>) -> bool {
        exists|i: int| 0 <= i < self@.len() && #[trigger] self@[i]@ == a
    }

    /// The signers of a call.
    pub fn new(signers: Vec<Address>) -> (r: Witnesses)
        ensures
            r@ == signers@,
    {
        Witnesses { signers }
    }

    /// Whether `a` signed the call.
    pub fn is_authorized(&self, a: &Address) -> (r: bool)
        ensures
            r == self.authorizes(a@),
    {
        let mut i: usize = 0;
        while i < self.signers.len()
            invariant
                0 <= i <= self.signers@.len(),
                forall|j: int| 0 <= j < i ==> #[trigger] self@[j]@ != a@,
                self@ == self.signers@,
            decreases self.signers@.len() - i,
        {
            if self.signers[i].same_as(a) {
                return true;
            }
            i = i + 1;
        }
        false
    }
}

} // verus!
