use vstd::prelude::*;

use crate::json::copy_range;

verus! {

/// Why a credentials argument was refused.
#[derive(Clone, Copy, Debug, PartialEq, Eq, Structural)]
pub enum CredentialsError {
    /// No colon separates the user name from the password.
    MissingSeparator,
}

/// Broker credentials, split out of one `username:password` argument.
#[derive(Clone, Debug)]
pub struct MqttCredentials {
    pub username: Vec<u8>,
    pub password: Vec<u8>,
}

/// The first index at or after `i` holding a colon, or the length
/// when none does.
pub open spec fn spec_first_colon(s: Seq<u8>, i: int) -> int
    decreases s.len() - i,
{
    if 0 <= i < s.len() {
        if s[i] == 58 {
            i
        } else {
            spec_first_colon(s, i + 1)
        }
    } else {
        s.len() as int
    }
}

impl MqttCredentials {
    /// Split `username:password` at the first colon. Text without a
    /// colon is refused; either side may be empty.
    pub fn parse(s: &[u8]) -> (r: Result<MqttCredentials, CredentialsError>)
        ensures
            spec_first_colon(s@, 0) < s@.len() ==> r is Ok && r->Ok_0.username@ == s@.subrange(
                0,
                spec_first_colon(s@, 0),
            ) && r->Ok_0.password@ == s@.subrange(spec_first_colon(s@, 0) + 1, s@.len() as int),
            spec_first_colon(s@, 0) == s@.len() ==> r == Result::<
                MqttCredentials,
                CredentialsError,
            >::Err(CredentialsError::MissingSeparator),
    {
        let n = s.len();
        let mut i: usize = 0;
        while i < n && s[i] != 58
            invariant
                i <= n == s@.len(),
                spec_first_colon(s@, 0) == spec_first_colon(s@, i as int),
            decreases n - i,
        {
            i = i + 1;
        }
        if i == n {
            return Err(CredentialsError::MissingSeparator);
        }
        let username = copy_range(s, 0, i);
        let password = copy_range(s, i + 1, n);
        Ok(MqttCredentials { username, password })
    }
}

/// A colon stands in the text exactly where `parse` accepts it.
pub proof fn lemma_first_colon_found(s: Seq<u8>, i: int)
    requires
        0 <= i <= s.len(),
    ensures
        i <= spec_first_colon(s, i) <= s.len(),
        spec_first_colon(s, i) < s.len() ==> s[spec_first_colon(s, i)] == 58,
        spec_first_colon(s, i) == s.len() ==> forall|k: int| i <= k < s.len() ==> s[k] != 58,
    decreases s.len() - i,
{
    if i < s.len() && s[i] != 58 {
        lemma_first_colon_found(s, i + 1);
    }
}

} // verus!
