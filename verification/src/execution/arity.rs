use vstd::prelude::*;
use crate::text::{decimal, join2, render_u64};

verus! {

/// How many arguments a callable takes: exactly `n`, or `n` and any number more.
#[derive(Clone, Copy, Debug, PartialEq, Eq, Structural)]
pub enum Arity {
    Exact(usize),
    AtLeast(usize),
}

impl Arity {
    /// Whether a call with `provided` arguments is admitted.
    pub open spec fn spec_accepts(self, provided: nat) -> bool {
        match self {
            Arity::Exact(n) => provided == n,
            Arity::AtLeast(n) => provided >= n,
        }
    }

    #[verifier::when_used_as_spec(spec_accepts_usize)]
    pub fn accepts(self, provided: usize) -> (ok: bool)
        ensures
            ok == self.spec_accepts(provided as nat),
    {
        match self {
            Arity::Exact(n) => provided == n,
            Arity::AtLeast(n) => provided >= n,
        }
    }

    pub open spec fn spec_accepts_usize(self, provided: usize) -> bool {
        self.spec_accepts(provided as nat)
    }

    /// The number of arguments that must be given at least.
    pub open spec fn spec_count(self) -> usize {
        match self {
            Arity::Exact(n) => n,
            Arity::AtLeast(n) => n,
        }
    }

    #[verifier::when_used_as_spec(spec_count)]
    pub fn count(self) -> (n: usize)
        ensures
            n == self.spec_count(),
    {
        match self {
            Arity::Exact(n) => n,
            Arity::AtLeast(n) => n,
        }
    }

    /// How an arity reads in a message: the number, with `at least` before
    /// it where more arguments are taken.
    pub open spec fn spec_to_string(self) -> Seq<char> {
        match self {
            Arity::Exact(n) => decimal(n as nat),
            Arity::AtLeast(n) => "at least "@ + decimal(n as nat),
        }
    }

    pub fn to_string(self) -> (text: String)
        ensures
            text@ == self.spec_to_string(),
    {
        match self {
            Arity::Exact(n) => render_u64(n as u64),
            Arity::AtLeast(n) => {
                let digits = render_u64(n as u64);
                join2("at least ", digits.as_str())
            },
        }
    }

    /// Whether more arguments than the required ones are taken.
    pub open spec fn spec_is_vararg(self) -> bool {
        self is AtLeast
    }

    #[verifier::when_used_as_spec(spec_is_vararg)]
    pub fn is_vararg(self) -> (v: bool)
        ensures
            v == self.spec_is_vararg(),
    {
        match self {
            Arity::Exact(_) => false,
            Arity::AtLeast(_) => true,
        }
    }
}

} // verus!
