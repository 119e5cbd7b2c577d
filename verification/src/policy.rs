//! Roll policies by name.

use crate::error::Error;
use crate::model::RollPolicy;
use vstd::prelude::*;
use vstd::string::StringExecFns;

verus! {

/// The name of a roll policy.
pub open spec fn policy_name(policy: RollPolicy) -> Seq<char> {
    match policy {
        RollPolicy::Raise => "raise"@,
        RollPolicy::Forward => "forward"@,
        RollPolicy::Backward => "backward"@,
    }
}

/// Whether some roll policy has the name `roll`.
pub open spec fn is_policy_name(roll: Seq<char>) -> bool {
    roll == "raise"@ || roll == "forward"@ || roll == "backward"@
}

/// No two roll policies share a name.
pub proof fn lemma_policy_names_differ(a: RollPolicy, b: RollPolicy)
    requires
        policy_name(a) == policy_name(b),
    ensures
        a == b,
{
    reveal_strlit("raise");
    reveal_strlit("forward");
    reveal_strlit("backward");
    assert("raise"@.len() == 5);
    assert("forward"@.len() == 7);
    assert("backward"@.len() == 8);
}

/// The roll policy named `roll`: one of `raise`, `forward` and `backward`. Any other
/// name is refused, and the error holds it.
pub fn parse_roll(roll: &str) -> (res: Result<RollPolicy, Error>)
    ensures
        match res {
            Ok(policy) => roll@ == policy_name(policy),
            Err(e) => {
                &&& !is_policy_name(roll@)
                &&& e matches Error::Configuration { roll: name }
                &&& name@ == roll@
            },
        },
{
    let name = String::from_str(roll);
    if name == String::from_str("raise") {
        Ok(RollPolicy::Raise)
    } else if name == String::from_str("forward") {
        Ok(RollPolicy::Forward)
    } else if name == String::from_str("backward") {
        Ok(RollPolicy::Backward)
    } else {
        Err(Error::Configuration { roll: name })
    }
}

} // verus!
