use vstd::prelude::*;
use vstd::string::StringExecFns;

use crate::config::ListenerRuleConfiguration;
use crate::text::{trim_slashes, trimmed_slashes};

verus! {

/// A rule path in canonical form: one leading slash and no trailing slash
/// (`/` alone for a path made only of slashes).
pub open spec fn normalized(s: Seq<char>) -> Seq<char> {
    seq!['/'] + trim_slashes(s)
}

/// `s` in canonical form: its slashes trimmed at both ends, then one `/`
/// put in front.
pub fn normalize(s: &str) -> (r: String)
    ensures
        r@ == normalized(s@),
{
    proof {
        reveal_strlit("/");
    }
    String::from_str("/").concat(trimmed_slashes(s))
}

/// A listener rule with its prefix and rewrite in canonical form.
#[derive(Clone, Debug)]
pub struct ListenerRule {
    pub target_group: String,
    pub path_prefix: String,
    pub path_rewrite: String,
}

impl ListenerRule {
    /// The configured rule with its prefix and rewrite in canonical form.
    pub fn from(value: ListenerRuleConfiguration) -> (r: ListenerRule)
        ensures
            r.target_group@ == value.target_group@,
            r.path_prefix@ == normalized(value.path_prefix@),
            r.path_rewrite@ == normalized(value.path_rewrite@),
    {
        let path_prefix = normalize(value.path_prefix.as_str());
        let path_rewrite = normalize(value.path_rewrite.as_str());
        ListenerRule { target_group: value.target_group, path_prefix, path_rewrite }
    }
}

} // verus!
