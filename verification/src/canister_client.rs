use vstd::prelude::*;

verus! {

/// The identities that tests act as.
#[derive(Clone, Copy, Debug, PartialEq, Eq, Structural)]
pub enum TestIdentity {
    Controller,
    User1,
    User2,
    User3,
}

/// The kinds of canister that make up the service.
#[derive(Clone, Copy, Debug, PartialEq, Eq, Structural)]
pub enum CanisterName {
    Index,
    Bucket,
}

/// Whether the characters of `s` are exactly those of `lit`.
fn str_is(s: &str, lit: &str) -> (b: bool)
    ensures
        b == (s@ == lit@),
{
    let n = s.unicode_len();
    if n != lit.unicode_len() {
        return false;
    }
    let mut i: usize = 0;
    while i < n
        invariant
            n == s@.len(),
            n == lit@.len(),
            i <= n,
            forall|j: int| 0 <= j < i ==> s@[j] == lit@[j],
        decreases n - i,
    {
        if s.get_char(i) != lit.get_char(i) {
            return false;
        }
        i = i + 1;
    }
    assert(s@ =~= lit@);
    true
}

impl CanisterName {
    /// The name of the canister kind, as the command line spells it.
    pub fn name(&self) -> (s: &'static str)
        ensures
            s@ == (match self {
                CanisterName::Index => "index"@,
                CanisterName::Bucket => "bucket"@,
            }),
    {
        match self {
            CanisterName::Index => "index",
            CanisterName::Bucket => "bucket",
        }
    }

    /// Reads a canister kind from its name; any other text is refused with a message naming it.
    pub fn parse(s: &str) -> (r: Result<CanisterName, String>)
        ensures
            match r {
                Ok(name) => (s@ == "index"@ && name == CanisterName::Index) || (s@ == "bucket"@ && name
                    == CanisterName::Bucket),
                Err(message) => s@ != "index"@ && s@ != "bucket"@ && message@ == "Unrecognised canister name: "@
                    + s@,
            },
    {
        if str_is(s, "index") {
            Ok(CanisterName::Index)
        } else if str_is(s, "bucket") {
            Ok(CanisterName::Bucket)
        } else {
            let mut message = String::from_str("Unrecognised canister name: ");
            message.append(s);
            Err(message)
        }
    }
}

impl std::str::FromStr for CanisterName {
    type Err = String;

    fn from_str(s: &str) -> (r: Result<CanisterName, String>)
        ensures
            match r {
                Ok(name) => (s@ == "index"@ && name == CanisterName::Index) || (s@ == "bucket"@ && name
                    == CanisterName::Bucket),
                Err(message) => s@ != "index"@ && s@ != "bucket"@ && message@ == "Unrecognised canister name: "@
                    + s@,
            },
    {
        CanisterName::parse(s)
    }
}

} // verus!
