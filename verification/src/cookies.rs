//! Cookies: a jar with an immutable base and a delta of pending changes.
//!
//! The delta records only the mutations of the currently active processing
//! path; it can be reset to the base state wholesale, which dispatch does
//! before invoking an error catcher so that failed handlers leak no cookies.

use vstd::prelude::*;
use crate::http::Header;

verus! {

use vstd::string::StringExecFns;

/// One cookie: a name and a value.
pub struct Cookie {
    pub name: String,
    pub value: String,
}

impl Cookie {
    pub fn new(name: String, value: String) -> (r: Cookie)
        ensures
            r.name == name,
            r.value == value,
    {
        Cookie { name, value }
    }
}

/// One pending change: a cookie added, or a cookie removed by name.
pub enum CookieOp {
    Add(Cookie),
    Remove(String),
}

/// The header a pending change turns into: an added cookie becomes
/// `name=value`, a removal becomes `name=` (an emptied cookie).
pub open spec fn op_header_value(op: CookieOp) -> Seq<char> {
    match op {
        CookieOp::Add(c) => c.name@ + "="@ + c.value@,
        CookieOp::Remove(n) => n@ + "="@,
    }
}

/// A cookie jar: the base cookies the request arrived with, and the delta
/// of changes made while processing it.
pub struct CookieJar {
    pub base: Vec<Cookie>,
    pub delta: Vec<CookieOp>,
}

impl CookieJar {
    pub fn new(base: Vec<Cookie>) -> (r: CookieJar)
        ensures
            r.base == base,
            r.delta@.len() == 0,
    {
        CookieJar { base, delta: Vec::new() }
    }

    /// Records an addition.
    pub fn add(&mut self, c: Cookie)
        ensures
            final(self).base == old(self).base,
            final(self).delta@ == old(self).delta@.push(CookieOp::Add(c)),
    {
        self.delta.push(CookieOp::Add(c));
    }

    /// Records a removal.
    pub fn remove(&mut self, name: String)
        ensures
            final(self).base == old(self).base,
            final(self).delta@ == old(self).delta@.push(CookieOp::Remove(name)),
    {
        self.delta.push(CookieOp::Remove(name));
    }

    /// Appends a batch of recorded changes, in order.
    pub fn extend(&mut self, ops: Vec<CookieOp>)
        ensures
            final(self).base == old(self).base,
            final(self).delta@ == old(self).delta@ + ops@,
    {
        let mut ops = ops;
        let ghost all = ops@;
        let mut i: usize = 0;
        let n = ops.len();
        let ghost orig = self.delta@;
        while i < n
            invariant
                i <= n,
            n == all.len(),
                self.base == old(self).base,
                ops@ == all.skip(i as int),
                self.delta@ == orig + all.take(i as int),
            decreases n - i,
        {
            let op = ops.remove(0);
            proof {
                assert(all.skip(i as int)[0] == all[i as int]);
                assert(all.skip(i as int).drop_first() =~= all.skip(i + 1));
            }
            self.delta.push(op);
            proof {
                assert(orig + all.take(i + 1) =~= (orig + all.take(i as int)).push(
                    all[i as int],
                ));
            }
            i += 1;
        }
        proof {
            assert(all.take(all.len() as int) =~= all);
        }
    }

    /// Discards every pending change, returning to the base state.
    pub fn reset_delta(&mut self)
        ensures
            final(self).base == old(self).base,
            final(self).delta@.len() == 0,
    {
        self.delta = Vec::new();
    }

    /// Appends the `Set-Cookie` headers the pending changes stand for, in
    /// order, onto a header list.
    pub fn append_delta_headers(&self, headers: &mut Vec<Header>)
        ensures
            final(headers)@.len() == old(headers)@.len() + self.delta@.len(),
            final(headers)@.take(old(headers)@.len() as int) == old(headers)@,
            forall|k: int|
                old(headers)@.len() <= k < final(headers)@.len()
                    ==> (#[trigger] final(headers)@[k].name)@ == "Set-Cookie"@
                    && final(headers)@[k].value@ == op_header_value(
                    self.delta@[k - old(headers)@.len()],
                ),
    {
        let ghost pre = headers@;
        let mut i: usize = 0;
        while i < self.delta.len()
            invariant
                i <= self.delta@.len(),
                headers@.len() == pre.len() + i,
                headers@.take(pre.len() as int) == pre,
                forall|k: int|
                    pre.len() <= k < headers@.len() ==> (#[trigger] headers@[k].name)@
                        == "Set-Cookie"@ && headers@[k].value@ == op_header_value(
                        self.delta@[k - pre.len()],
                    ),
            decreases self.delta@.len() - i,
        {
            let value: String = match &self.delta[i] {
                CookieOp::Add(c) => c.name.clone().concat("=").concat(c.value.as_str()),
                CookieOp::Remove(n) => n.clone().concat("="),
            };
            proof {
                assert(value@ == op_header_value(self.delta@[i as int]));
            }
            let ghost prevh = headers@;
            headers.push(Header { name: String::from_str("Set-Cookie"), value });
            proof {
                assert(headers@.take(pre.len() as int) =~= pre);
                assert forall|k: int|
                    pre.len() <= k < headers@.len() implies (#[trigger] headers@[k].name)@
                    == "Set-Cookie"@ && headers@[k].value@ == op_header_value(
                    self.delta@[k - pre.len()],
                ) by {
                    if k < prevh.len() {
                        assert(headers@[k] == prevh[k]);
                    } else {
                        assert(headers@[k].value@ == op_header_value(self.delta@[i as int]));
                    }
                }
            }
            i += 1;
        }
    }

    /// The `Set-Cookie` headers the pending changes stand for, in order.
    pub fn delta_headers(&self) -> (r: Vec<Header>)
        ensures
            r@.len() == self.delta@.len(),
            forall|i: int|
                0 <= i < r@.len() ==> (#[trigger] r@[i].name)@ == "Set-Cookie"@ && r@[i].value@
                    == op_header_value(self.delta@[i]),
    {
        let mut out: Vec<Header> = Vec::new();
        let mut i: usize = 0;
        while i < self.delta.len()
            invariant
                i <= self.delta@.len(),
                out@.len() == i,
                forall|j: int|
                    0 <= j < i ==> (#[trigger] out@[j].name)@ == "Set-Cookie"@ && out@[j].value@
                        == op_header_value(self.delta@[j]),
            decreases self.delta@.len() - i,
        {
            let value: String = match &self.delta[i] {
                CookieOp::Add(c) => c.name.clone().concat("=").concat(c.value.as_str()),
                CookieOp::Remove(n) => n.clone().concat("="),
            };
            proof {
                assert(value@ == op_header_value(self.delta@[i as int]));
            }
            out.push(Header { name: String::from_str("Set-Cookie"), value });
            proof {
                assert(out@[i as int].value@ == op_header_value(self.delta@[i as int]));
                assert(out@[i as int].name@ == "Set-Cookie"@);
            }
            i += 1;
        }
        out
    }
}

} // verus!
