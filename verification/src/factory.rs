//! The client registry: one shared client per tenant, created on demand and
//! never evicted. The host serializes access (a readers–writer lock) and
//! performs the slow HTTP bootstrap outside the registry; the registry's own
//! rule — the first creator wins, later creators get the existing client —
//! is decided and proved here.

use vstd::prelude::*;

use crate::client::Client;

verus! {

/// The client bound to the first entry whose tenant is `t`, if any.
pub open spec fn spec_find(s: Seq<(String, Client)>, t: Seq<char>) -> Option<Client>
    decreases s.len(),
{
    if s.len() == 0 {
        None
    } else if s[0].0@ == t {
        Some(s[0].1)
    } else {
        spec_find(s.drop_first(), t)
    }
}

/// A registry mapping tenant names to their clients.
pub struct ClientFactory {
    pub entries: Vec<(String, Client)>,
}

impl ClientFactory {
    /// An empty registry.
    pub fn new() -> (r: ClientFactory)
        ensures
            r.entries@.len() == 0,
    {
        ClientFactory { entries: Vec::new() }
    }

    /// The registered client for a tenant, or an error naming no such tenant.
    pub fn get_client<'a>(&'a self, tenant: &String) -> (r: Result<&'a Client, String>)
        ensures
            match r {
                Ok(c) => spec_find(self.entries@, tenant@) == Some(*c),
                Err(_) => spec_find(self.entries@, tenant@) is None,
            },
    {
        proof {
            assert(self.entries@.skip(0) =~= self.entries@);
        }
        let mut i: usize = 0;
        while i < self.entries.len()
            invariant
                i <= self.entries@.len(),
                spec_find(self.entries@, tenant@) == spec_find(
                    self.entries@.skip(i as int),
                    tenant@,
                ),
            decreases self.entries@.len() - i,
        {
            proof {
                assert(self.entries@.skip(i as int)[0] == self.entries@[i as int]);
                assert(self.entries@.skip(i as int).drop_first() =~= self.entries@.skip(
                    i as int + 1,
                ));
            }
            if self.entries[i].0.eq(tenant) {
                return Ok(&self.entries[i].1);
            }
            i += 1;
        }
        proof {
            assert(self.entries@.skip(self.entries@.len() as int) =~= Seq::<(
                String,
                Client,
            )>::empty());
        }
        Err("No such tenant found".to_owned())
    }

    /// Register a client for a tenant unless one is already registered: the
    /// first creator wins and a later caller's freshly built client is
    /// discarded. Returns the client that is registered afterwards.
    pub fn create_client<'a>(&'a mut self, tenant: String, client: Client) -> (r: &'a Client)
        ensures
            spec_find(old(self).entries@, tenant@) matches Some(existing) ==> {
                &&& final(self).entries@ == old(self).entries@
                &&& *r == existing
            },
            spec_find(old(self).entries@, tenant@) is None ==> {
                &&& final(self).entries@ == old(self).entries@.push((tenant, client))
                &&& *r == client
            },
            spec_find(final(self).entries@, tenant@) == Some(*r),
    {
        let ghost s0 = self.entries@;
        proof {
            assert(s0.skip(0) =~= s0);
        }
        let mut i: usize = 0;
        while i < self.entries.len()
            invariant
                i <= self.entries@.len(),
                self.entries@ == s0,
                spec_find(s0, tenant@) == spec_find(s0.skip(i as int), tenant@),
            decreases self.entries@.len() - i,
        {
            proof {
                assert(s0.skip(i as int)[0] == s0[i as int]);
                assert(s0.skip(i as int).drop_first() =~= s0.skip(i as int + 1));
            }
            if self.entries[i].0.eq(&tenant) {
                return &self.entries[i].1;
            }
            i += 1;
        }
        proof {
            assert(s0.skip(s0.len() as int) =~= Seq::<(String, Client)>::empty());
        }
        self.entries.push((tenant, client));
        proof {
            lemma_find_absent_push(s0, self.entries@.last());
        }
        let n = self.entries.len();
        &self.entries[n - 1].1
    }
}

/// Pushing an entry for a tenant that is absent makes the lookup find it.
proof fn lemma_find_absent_push(s: Seq<(String, Client)>, e: (String, Client))
    requires
        spec_find(s, e.0@) is None,
    ensures
        spec_find(s.push(e), e.0@) == Some(e.1),
    decreases s.len(),
{
    reveal_with_fuel(spec_find, 3);
    let t = s.push(e);
    if s.len() == 0 {
        assert(t[0] == e);
    } else {
        assert(t[0] == s[0]);
        assert(t.drop_first() =~= s.drop_first().push(e));
        lemma_find_absent_push(s.drop_first(), e);
    }
}

} // verus!
