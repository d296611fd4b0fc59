use vstd::prelude::*;

verus! {

broadcast use vstd::array::group_array_axioms;

/// Types whose values can be compared for identity by executable code.
///
/// `same` must agree with spec equality; every implementation in this crate is verified.
pub trait KeyEq: Copy {
    fn same(&self, other: &Self) -> (r: bool)
        ensures
            r == (*self == *other),
    ;
}

/// The most bytes a principal can hold.
pub const MAX_PRINCIPAL_LENGTH: usize = 29;

/// An Internet Computer principal: up to 29 significant bytes, stored in a fixed buffer
/// whose unused tail is always zero.
#[derive(Clone, Copy, Debug, Hash)]
pub struct Principal {
    len: u8,
    bytes: [u8; 29],
}

/// A canister is named by its principal.
pub type CanisterId = Principal;

/// A user is named by its principal.
pub type UserId = Principal;

impl Principal {
    /// The significant bytes of the principal.
    pub closed spec fn spec_bytes(self) -> Seq<u8> {
        self.bytes@.subrange(0, self.len as int)
    }

    /// A principal is well formed when its length fits the buffer and its padding is zero.
    /// Every principal is: this is the type's invariant.
    #[verifier::type_invariant]
    pub closed spec fn wf(self) -> bool {
        &&& self.len <= 29
        &&& forall|i: int| self.len <= i < 29 ==> self.bytes@[i] == 0
    }

    /// Two well-formed principals are equal exactly when their significant bytes are.
    pub proof fn lemma_eq_iff_bytes(a: Principal, b: Principal)
        requires
            a.wf(),
            b.wf(),
        ensures
            (a == b) <==> (a.spec_bytes() == b.spec_bytes()),
    {
        if a.spec_bytes() == b.spec_bytes() {
            assert(a.len == b.len) by {
                assert(a.spec_bytes().len() == a.len);
                assert(b.spec_bytes().len() == b.len);
            }
            assert forall|i: int| 0 <= i < 29 implies a.bytes[i] == b.bytes[i] by {
                if i < a.len {
                    assert(a.spec_bytes()[i] == b.spec_bytes()[i]);
                }
            }
            assert(a.bytes =~= b.bytes);
        }
    }

    /// Builds the principal whose significant bytes are `slice`.
    pub fn from_slice(slice: &[u8]) -> (p: Principal)
        requires
            slice@.len() <= 29,
        ensures
            p.wf(),
            p.spec_bytes() == slice@,
    {
        let n = slice.len();
        let mut bytes: [u8; 29] = [0u8; 29];
        let mut i: usize = 0;
        while i < n
            invariant
                n == slice@.len(),
                n <= 29,
                i <= n,
                forall|j: int| 0 <= j < i ==> bytes@[j] == slice@[j],
                forall|j: int| i <= j < 29 ==> bytes@[j] == 0,
            decreases n - i,
        {
            bytes[i] = slice[i];
            i = i + 1;
        }
        let p = Principal { len: n as u8, bytes };
        assert(p.spec_bytes() =~= slice@);
        p
    }

    /// The number of significant bytes.
    pub fn len(&self) -> (n: u8)
        ensures
            n == self.spec_bytes().len(),
    {
        proof {
            use_type_invariant(self);
        }
        self.len
    }

    /// The significant bytes, copied out.
    pub fn to_bytes(&self) -> (v: Vec<u8>)
        ensures
            v@ == self.spec_bytes(),
    {
        proof {
            use_type_invariant(self);
        }
        let mut v: Vec<u8> = Vec::new();
        let n = self.len as usize;
        let mut i: usize = 0;
        while i < n
            invariant
                n == self.len,
                n <= 29,
                i <= n,
                v@ == self.bytes@.subrange(0, i as int),
            decreases n - i,
        {
            v.push(self.bytes[i]);
            i = i + 1;
            assert(v@ =~= self.bytes@.subrange(0, i as int));
        }
        v
    }
}

impl KeyEq for Principal {
    fn same(&self, other: &Self) -> (r: bool) {
        if self.len != other.len {
            return false;
        }
        let mut i: usize = 0;
        while i < 29
            invariant
                i <= 29,
                forall|j: int| 0 <= j < i ==> self.bytes[j] == other.bytes[j],
            decreases 29 - i,
        {
            if self.bytes[i] != other.bytes[i] {
                return false;
            }
            i = i + 1;
        }
        assert(self.bytes =~= other.bytes);
        true
    }
}

impl PartialEq for Principal {
    fn eq(&self, other: &Self) -> (r: bool) {
        self.same(other)
    }
}

impl Eq for Principal {
}

impl vstd::std_specs::cmp::PartialEqSpecImpl for Principal {
    open spec fn obeys_eq_spec() -> bool {
        true
    }

    open spec fn eq_spec(&self, other: &Self) -> bool {
        *self == *other
    }
}

} // verus!
