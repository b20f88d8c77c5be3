//! The kinds of repository, and their names.

use vstd::prelude::*;
use vstd::string::StringExecFns;

verus! {

/// Where the server keeps the identifiers of its games.
#[derive(Copy, Clone, PartialEq, Eq, Structural, Debug)]
pub enum Repository {
    Local,
    Redis,
}

/// What `str::to_uppercase` makes of a text.
pub uninterp spec fn upper_case(text: Seq<char>) -> Seq<char>;

/// `str::to_uppercase`: the text in upper case.
#[verifier::external_body]
fn to_uppercase(s: &str) -> (r: String)
    ensures
        r@ == upper_case(s@),
{
    s.to_uppercase()
}

impl Repository {
    /// The repository that `name` names in upper case, if it names one.
    pub open spec fn named(name: Seq<char>) -> Result<Repository, ()> {
        if name == "LOCAL"@ {
            Ok(Repository::Local)
        } else if name == "REDIS"@ {
            Ok(Repository::Redis)
        } else {
            Err(())
        }
    }

    /// The repository that `name` names in upper case: `LOCAL` or `REDIS`.
    pub fn from_upper(name: &String) -> (r: Result<Repository, ()>)
        ensures
            r == Self::named(name@),
    {
        if *name == String::from_str("LOCAL") {
            Ok(Repository::Local)
        } else if *name == String::from_str("REDIS") {
            Ok(Repository::Redis)
        } else {
            Err(())
        }
    }

    /// The repository that `s` names, in whatever case it is written.
    pub fn parse(s: &str) -> (r: Result<Repository, ()>)
        ensures
            r == Self::named(upper_case(s@)),
    {
        let name = to_uppercase(s);
        Self::from_upper(&name)
    }

    /// The name of the repository in upper case.
    pub fn name(&self) -> (r: &'static str)
        ensures
            Self::named(r@) == Ok::<Repository, ()>(*self),
    {
        proof {
            reveal_strlit("LOCAL");
            reveal_strlit("REDIS");
            assert("REDIS"@[0] != "LOCAL"@[0]);
        }
        match self {
            Repository::Local => "LOCAL",
            Repository::Redis => "REDIS",
        }
    }
}

impl std::str::FromStr for Repository {
    type Err = ();

    fn from_str(s: &str) -> (r: Result<Self, Self::Err>)
        ensures
            r == Repository::named(upper_case(s@)),
    {
        Repository::parse(s)
    }
}

} // verus!
