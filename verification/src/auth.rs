//! The set of authorized principals guarding administrative operations.
//!
//! While the set is empty anyone may administer (bootstrap); once populated,
//! only a member may. Membership changes themselves are administrative.

use vstd::prelude::*;

verus! {

/// The sequence holds this principal.
pub open spec fn has_principal(s: Seq<String>, p: Seq<char>) -> bool {
    exists|i: int| 0 <= i < s.len() && s[i]@ == p
}

/// No principal is listed twice.
pub open spec fn distinct_principals(s: Seq<String>) -> bool {
    forall|i: int, j: int| 0 <= i < j < s.len() ==> #[trigger] s[i]@ != #[trigger] s[j]@
}

/// The set of principals allowed to administer the engine.
#[derive(Debug)]
pub struct AuthSet {
    pub principals: Vec<String>,
}

impl AuthSet {
    pub open spec fn wf(self) -> bool {
        distinct_principals(self.principals@)
    }

    /// Whether a caller may administer: anyone while the set is empty, else
    /// only a member.
    pub open spec fn spec_authorized(self, caller: Seq<char>) -> bool {
        self.principals@.len() == 0 || has_principal(self.principals@, caller)
    }

    pub fn new() -> (r: AuthSet)
        ensures
            r.wf(),
            r.principals@.len() == 0,
    {
        AuthSet { principals: Vec::new() }
    }

    fn find_index(&self, p: &String) -> (r: Option<usize>)
        requires
            self.wf(),
        ensures
            match r {
                Some(i) => i < self.principals@.len() && self.principals@[i as int]@ == p@
                    && has_principal(self.principals@, p@),
                None => !has_principal(self.principals@, p@),
            },
    {
        let mut i: usize = 0;
        while i < self.principals.len()
            invariant
                i <= self.principals@.len(),
                forall|k: int| 0 <= k < i ==> #[trigger] self.principals@[k]@ != p@,
            decreases self.principals@.len() - i,
        {
            if self.principals[i] == *p {
                return Some(i);
            }
            i = i + 1;
        }
        None
    }

    /// Whether this principal is a member of the set.
    pub fn contains(&self, p: &String) -> (r: bool)
        requires
            self.wf(),
        ensures
            r == has_principal(self.principals@, p@),
    {
        self.find_index(p).is_some()
    }

    /// Whether the caller may administer.
    pub fn is_authorized(&self, caller: &String) -> (r: bool)
        requires
            self.wf(),
        ensures
            r == self.spec_authorized(caller@),
    {
        if self.principals.len() == 0 {
            return true;
        }
        self.find_index(caller).is_some()
    }

    /// Admit a principal. Fails, changing nothing, when the caller may not
    /// administer.
    pub fn authorize(&mut self, caller: &String, principal: String) -> (r: Result<(), ()>)
        requires
            old(self).wf(),
        ensures
            final(self).wf(),
            !old(self).spec_authorized(caller@) ==> r is Err && *final(self) == *old(self),
            old(self).spec_authorized(caller@) ==> r is Ok && has_principal(
                final(self).principals@,
                principal@,
            ) && (forall|q: Seq<char>| q != principal@
                ==> #[trigger] has_principal(final(self).principals@, q) == has_principal(
                old(self).principals@,
                q,
            )),
    {
        if !self.is_authorized(caller) {
            return Err(());
        }
        match self.find_index(&principal) {
            Some(_) => {}
            None => {
                let ghost pre = self.principals@;
                self.principals.push(principal);
                proof {
                    assert(self.principals@.last()@ == principal@);
                    assert forall|i: int, j: int| 0 <= i < j < self.principals@.len()
                        implies #[trigger] self.principals@[i]@ != #[trigger] self.principals@[j]@ by {
                        if j < pre.len() {
                            assert(pre[i]@ != pre[j]@);
                        } else {
                            assert(self.principals@[i] == pre[i]);
                        }
                    }
                    assert forall|q: Seq<char>| q != principal@
                        implies #[trigger] has_principal(self.principals@, q) == has_principal(
                        pre,
                        q,
                    ) by {
                        if has_principal(self.principals@, q) {
                            let i = choose|i: int|
                                0 <= i < self.principals@.len() && self.principals@[i]@ == q;
                            assert(i < pre.len());
                            assert(pre[i]@ == q);
                        }
                        if has_principal(pre, q) {
                            let i = choose|i: int| 0 <= i < pre.len() && pre[i]@ == q;
                            assert(self.principals@[i]@ == q);
                        }
                    }
                }
            }
        }
        Ok(())
    }

    /// Expel a principal. Fails, changing nothing, when the caller may not
    /// administer.
    pub fn deauthorize(&mut self, caller: &String, principal: &String) -> (r: Result<(), ()>)
        requires
            old(self).wf(),
        ensures
            final(self).wf(),
            !old(self).spec_authorized(caller@) ==> r is Err && *final(self) == *old(self),
            old(self).spec_authorized(caller@) ==> r is Ok && !has_principal(
                final(self).principals@,
                principal@,
            ) && (forall|q: Seq<char>| q != principal@
                ==> #[trigger] has_principal(final(self).principals@, q) == has_principal(
                old(self).principals@,
                q,
            )),
    {
        if !self.is_authorized(caller) {
            return Err(());
        }
        match self.find_index(principal) {
            Some(i) => {
                let ghost pre = self.principals@;
                self.principals.remove(i);
                proof {
                    let ii = i as int;
                    assert(self.principals@ == pre.remove(ii));
                    assert forall|a: int, b: int| 0 <= a < b < self.principals@.len()
                        implies #[trigger] self.principals@[a]@ != #[trigger] self.principals@[b]@ by {
                        let pa: int = if a < ii { a } else { a + 1 };
                        let pb: int = if b < ii { b } else { b + 1 };
                        assert(self.principals@[a] == pre[pa]);
                        assert(self.principals@[b] == pre[pb]);
                        assert(pre[pa]@ != pre[pb]@);
                    }
                    assert(!has_principal(self.principals@, principal@)) by {
                        if has_principal(self.principals@, principal@) {
                            let a = choose|a: int|
                                0 <= a < self.principals@.len() && self.principals@[a]@
                                    == principal@;
                            let pa: int = if a < ii { a } else { a + 1 };
                            assert(self.principals@[a] == pre[pa]);
                            assert(pre[pa]@ == principal@ && pre[ii]@ == principal@ && pa != ii);
                            assert(pre[pa]@ != pre[ii]@ || pre[ii]@ != pre[pa]@);
                        }
                    }
                    assert forall|q: Seq<char>| q != principal@
                        implies #[trigger] has_principal(self.principals@, q) == has_principal(
                        pre,
                        q,
                    ) by {
                        if has_principal(self.principals@, q) {
                            let a = choose|a: int|
                                0 <= a < self.principals@.len() && self.principals@[a]@ == q;
                            let pa: int = if a < ii { a } else { a + 1 };
                            assert(self.principals@[a] == pre[pa]);
                            assert(pre[pa]@ == q);
                        }
                        if has_principal(pre, q) {
                            let pa = choose|pa: int| 0 <= pa < pre.len() && pre[pa]@ == q;
                            assert(pa != ii);
                            let a: int = if pa < ii { pa } else { pa - 1 };
                            assert(self.principals@[a] == pre[pa]);
                        }
                    }
                }
            }
            None => {}
        }
        Ok(())
    }
}

} // verus!
