use vstd::prelude::*;

verus! {

/// The container of `secstr` that zeroes its memory when released and
/// redacts its contents from debug output.
#[verifier::external_type_specification]
#[verifier::external_body]
#[verifier::reject_recursive_types(T)]
pub struct ExSecVec<T: Sized + Copy>(secstr::SecVec<T>);

/// The bytes that a `secstr::SecStr` holds.
pub uninterp spec fn secstr_bytes(s: secstr::SecStr) -> Seq<u8>;

/// Relies on secstr::SecVec's `Clone`; nothing is assumed of the copy.
pub assume_specification<T: Copy>[ <secstr::SecVec<T> as Clone>::clone ](
    v: &secstr::SecVec<T>,
) -> secstr::SecVec<T>;

/// A secret byte payload. The bytes live inside a `secstr::SecStr`, which
/// overwrites them with zeroes on drop and never prints them in `Debug`
/// output.
#[derive(Debug, Clone)]
pub struct SecureBytes {
    pub inner: secstr::SecStr,
}

impl View for SecureBytes {
    type V = Seq<u8>;

    open spec fn view(&self) -> Seq<u8> {
        secstr_bytes(self.inner)
    }
}

impl SecureBytes {
    /// Relies on secstr::SecStr::new: the container stores exactly the
    /// bytes that were handed to it.
    #[verifier::external_body]
    pub fn new(data: Vec<u8>) -> (r: SecureBytes)
        ensures
            secstr_bytes(r.inner) == data@,
    {
        SecureBytes { inner: secstr::SecStr::new(data) }
    }

    /// Relies on secstr::SecStr::unsecure: borrows the stored bytes.
    #[verifier::external_body]
    pub fn unsecure(&self) -> (r: &[u8])
        ensures
            r@ == self@,
    {
        self.inner.unsecure()
    }

    /// Relies on secstr::SecStr's `PartialEq`: a constant-time comparison
    /// of the stored bytes.
    #[verifier::external_body]
    pub fn eq_bytes(&self, other: &SecureBytes) -> (r: bool)
        ensures
            r == (self@ == other@),
    {
        self.inner == other.inner
    }
}

impl PartialEq for SecureBytes {
    fn eq(&self, other: &SecureBytes) -> (r: bool) {
        self.eq_bytes(other)
    }
}

impl vstd::std_specs::cmp::PartialEqSpecImpl for SecureBytes {
    open spec fn obeys_eq_spec() -> bool {
        true
    }

    open spec fn eq_spec(&self, other: &SecureBytes) -> bool {
        self@ == other@
    }
}

} // verus!
