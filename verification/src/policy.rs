//! Network policy: a set of permitted domains and a response-size bound. A
//! URL is permitted only when it is the secure scheme followed by a configured
//! domain, either exactly or with a path after it. Matching is exact on the
//! domain string: no wildcard, suffix or case handling. The size bound is
//! configuration for whoever fetches the response; the policy only carries it.

use vstd::prelude::*;

verus! {

/// Whether `url` is the secure scheme followed by exactly the domain `d`,
/// either ending there or continuing with a path separator.
pub open spec fn url_matches_domain(url: Seq<char>, d: Seq<char>) -> bool {
    let p = "https://"@;
    &&& url.len() >= p.len() + d.len()
    &&& url.take(p.len() as int) == p
    &&& url.subrange(p.len() as int, (p.len() + d.len()) as int) == d
    &&& (url.len() == p.len() + d.len() || url[(p.len() + d.len()) as int] == '/')
}

/// Whether some configured domain matches `url`.
pub open spec fn url_allowed_spec(url: Seq<char>, domains: Seq<Seq<char>>) -> bool {
    exists|i: int| 0 <= i < domains.len() && url_matches_domain(url, #[trigger] domains[i])
}

#[derive(Debug, Default, Clone)]
pub struct Policy {
    pub allowed_domains: Vec<String>,
    pub max_bytes: u64,
}

impl Policy {
    /// An empty policy: no domain is permitted; the response-size bound is
    /// ten mebibytes.
    pub fn new() -> (r: Policy)
        ensures
            r.allowed_domains@.len() == 0,
            r.max_bytes == 10485760,
    {
        Policy { allowed_domains: Vec::new(), max_bytes: 10 * 1024 * 1024 }
    }

    /// The same policy with its permitted domains replaced.
    pub fn with_allowed_domains(self, domains: Vec<String>) -> (r: Policy)
        ensures
            r.allowed_domains == domains,
            r.max_bytes == self.max_bytes,
    {
        Policy { allowed_domains: domains, max_bytes: self.max_bytes }
    }

    /// Decides `url_allowed_spec` for this policy's domains.
    pub fn is_url_allowed(&self, url: &str) -> (allowed: bool)
        ensures
            allowed == url_allowed_spec(url@, self.allowed_domains@.map_values(|d: String| d@)),
    {
        let ghost dv = self.allowed_domains@.map_values(|d: String| d@);
        let mut i: usize = 0;
        let m: usize = self.allowed_domains.len();
        while i < m
            invariant
                i <= m,
                m == self.allowed_domains@.len(),
                dv == self.allowed_domains@.map_values(|d: String| d@),
                forall|k: int| 0 <= k < i ==> !url_matches_domain(url@, #[trigger] dv[k]),
            decreases m - i,
        {
            let d: &String = &self.allowed_domains[i];
            proof {
                assert(d@ == dv[i as int]);
            }
            if matches_domain(url, d.as_str()) {
                return true;
            }
            i = i + 1;
        }
        false
    }
}

/// Decides `url_matches_domain`.
fn matches_domain(url: &str, d: &str) -> (r: bool)
    ensures
        r == url_matches_domain(url@, d@),
{
    let scheme = "https://";
    proof {
        reveal_strlit("https://");
    }
    let plen: usize = 8;
    let n: usize = url.unicode_len();
    let dn: usize = d.unicode_len();
    if n < plen {
        return false;
    }
    if n - plen < dn {
        return false;
    }
    let mut k: usize = 0;
    while k < plen
        invariant
            k <= plen,
            plen == "https://"@.len(),
            scheme@ == "https://"@,
            n == url@.len(),
            n >= plen,
            forall|m: int| 0 <= m < k ==> url@[m] == "https://"@[m],
        decreases plen - k,
    {
        if url.get_char(k) != scheme.get_char(k) {
            proof {
                assert(url@.take(plen as int)[k as int] != "https://"@[k as int]);
            }
            return false;
        }
        k = k + 1;
    }
    proof {
        assert(url@.take(plen as int) =~= "https://"@);
    }
    let mut j: usize = 0;
    while j < dn
        invariant
            j <= dn,
            dn == d@.len(),
            n == url@.len(),
            n >= plen + dn,
            plen == 8,
            plen == "https://"@.len(),
            forall|m: int| 0 <= m < j ==> url@[plen + m] == d@[m],
        decreases dn - j,
    {
        if url.get_char(plen + j) != d.get_char(j) {
            proof {
                assert(url@.subrange(plen as int, (plen + dn) as int)[j as int] != d@[j as int]);
            }
            return false;
        }
        j = j + 1;
    }
    proof {
        assert(url@.subrange(plen as int, (plen + dn) as int) =~= d@);
    }
    if n == plen + dn {
        return true;
    }
    if url.get_char(plen + dn) == '/' {
        return true;
    }
    false
}

} // verus!
