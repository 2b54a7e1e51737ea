//! The chains that blocks belong to.

use vstd::prelude::*;
use vstd::string::StrSliceExecFns;

verus! {

/// A chain, known by its name. Its view is the name.
#[derive(Debug, PartialEq, Eq)]
pub struct Chain {
    name: String,
}

/// A text that names one file or directory within another: it is not empty, has no path
/// separator in it, and is not the text for the directory itself or the one above.
pub open spec fn is_plain_name(name: Seq<char>) -> bool {
    &&& name.len() > 0
    &&& !name.contains('/')
    &&& name != seq!['.']
    &&& name != seq!['.', '.']
}

/// A chain's name also names the directory that holds its records.
pub open spec fn is_chain_name(name: Seq<char>) -> bool {
    is_plain_name(name)
}

impl View for Chain {
    type V = Seq<char>;

    closed spec fn view(&self) -> Seq<char> {
        self.name@
    }
}

impl Clone for Chain {
    fn clone(&self) -> (chain: Self)
        ensures
            chain@ == self@,
    {
        proof {
            use_type_invariant(self);
        }
        Chain { name: self.name.clone() }
    }
}

impl Chain {
    /// Every chain has a name that can be one.
    #[verifier::type_invariant]
    spec fn named(self) -> bool {
        is_chain_name(self.name@)
    }

    /// The chain of the given name, where the name can be one.
    pub fn new(name: &str) -> (chain: Option<Chain>)
        ensures
            chain is Some <==> is_chain_name(name@),
            chain matches Some(c) ==> c@ == name@,
    {
        let len: usize = name.unicode_len();
        if len == 0 {
            return None;
        }
        let mut i: usize = 0;
        while i < len
            invariant
                i <= len == name@.len(),
                forall|j: int| 0 <= j < i ==> name@[j] != '/',
            decreases len - i,
        {
            if name.get_char(i) == '/' {
                assert(name@.contains('/'));
                return None;
            }
            i += 1;
        }
        if name.get_char(0) == '.' {
            if len == 1 {
                assert(name@ =~= seq!['.']);
                return None;
            }
            if len == 2 && name.get_char(1) == '.' {
                assert(name@ =~= seq!['.', '.']);
                return None;
            }
        }
        Some(Chain { name: name.to_owned() })
    }

    /// NEAR.
    pub fn near() -> (chain: Chain)
        ensures
            chain@ == "near"@,
    {
        proof {
            reveal_strlit("near");
            assert("near"@.len() == 4);
        }
        Chain { name: "near".to_owned() }
    }

    /// Solana.
    pub fn solana() -> (chain: Chain)
        ensures
            chain@ == "solana"@,
    {
        proof {
            reveal_strlit("solana");
            assert("solana"@.len() == 6);
        }
        Chain { name: "solana".to_owned() }
    }

    /// Stellar.
    pub fn stellar() -> (chain: Chain)
        ensures
            chain@ == "stellar"@,
    {
        proof {
            reveal_strlit("stellar");
            assert("stellar"@.len() == 7);
        }
        Chain { name: "stellar".to_owned() }
    }

    /// The chain's name.
    pub fn name(&self) -> (name: &str)
        ensures
            name@ == self@,
            is_chain_name(name@),
    {
        proof {
            use_type_invariant(self);
        }
        self.name.as_str()
    }
}

/// Exactly these texts are no names of chains: the empty one, one with a separator in
/// it, one dot, and two dots.
pub proof fn law_chain_names(name: Seq<char>)
    ensures
        is_chain_name(name) <==> {
            &&& name.len() > 0
            &&& forall|i: int| 0 <= i < name.len() ==> name[i] != '/'
            &&& !(name.len() == 1 && name[0] == '.')
            &&& !(name.len() == 2 && name[0] == '.' && name[1] == '.')
        },
{
    if name.len() == 1 && name[0] == '.' {
        assert(name =~= seq!['.']);
    }
    if name.len() == 2 && name[0] == '.' && name[1] == '.' {
        assert(name =~= seq!['.', '.']);
    }
}

} // verus!
