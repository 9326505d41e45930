//! The error-catcher table: status code to error-handling capability, over
//! a fixed layer of default catchers that is always present.

use vstd::prelude::*;
use crate::http::Header;
use crate::response::{Body, Response};

verus! {

use vstd::string::StringExecFns;

/// What serves a caught error: the built-in default catcher for the code,
/// or a user-registered capability.
#[derive(Clone, Copy, PartialEq, Eq, Structural, Debug)]
pub enum CatcherRef {
    BuiltIn,
    User(u64),
}

/// One catcher: a status code, whether it is a seeded default, and what
/// serves it.
#[derive(Clone, Copy, PartialEq, Eq, Structural, Debug)]
pub struct Catcher {
    pub code: u16,
    pub is_default: bool,
    pub handler: CatcherRef,
}

/// Whether a catcher sequence holds an entry for a code.
pub open spec fn has_code(cs: Seq<Catcher>, code: u16) -> bool {
    exists|i: int| 0 <= i < cs.len() && (#[trigger] cs[i].code) == code
}

/// The codes the default catcher set is seeded with.
pub open spec fn is_default_code(code: u16) -> bool {
    code == 400 || code == 404 || code == 422 || code == 500 || code == 503
}

/// The index of the first entry for a code, if any.
pub open spec fn find_code(cs: Seq<Catcher>, code: u16) -> Option<int>
    decreases cs.len(),
{
    if cs.len() == 0 {
        None
    } else if cs[0].code == code {
        Some(0int)
    } else {
        match find_code(cs.drop_first(), code) {
            Some(i) => Some(i + 1),
            None => None,
        }
    }
}

/// `find_code` finds exactly the first entry for the code.
pub proof fn lemma_find_code(cs: Seq<Catcher>, code: u16)
    ensures
        match find_code(cs, code) {
            Some(i) => 0 <= i < cs.len() && cs[i].code == code && forall|j: int|
                0 <= j < i ==> cs[j].code != code,
            None => forall|j: int| 0 <= j < cs.len() ==> cs[j].code != code,
        },
    decreases cs.len(),
{
    if cs.len() > 0 && cs[0].code != code {
        lemma_find_code(cs.drop_first(), code);
        match find_code(cs.drop_first(), code) {
            Some(i) => {
                assert forall|j: int| 0 <= j < i + 1 implies cs[j].code != code by {
                    if j > 0 {
                        assert(cs.drop_first()[j - 1].code != code);
                    }
                }
            },
            None => {
                assert forall|j: int| 0 <= j < cs.len() implies cs[j].code != code by {
                    if j > 0 {
                        assert(cs.drop_first()[j - 1].code != code);
                    }
                }
            },
        }
    }
}

/// What registering one catcher does to the table: it overwrites the entry
/// for its code, or appends where none exists.
pub open spec fn register_one(cs: Seq<Catcher>, c: Catcher) -> Seq<Catcher> {
    match find_code(cs, c.code) {
        Some(i) => cs.update(i, c),
        None => cs.push(c),
    }
}

/// What registering a list of catchers does, in order: each overwrites or
/// appends in turn, so the last registration for a code wins.
pub open spec fn register_all(cs: Seq<Catcher>, list: Seq<Catcher>) -> Seq<Catcher>
    decreases list.len(),
{
    if list.len() == 0 {
        cs
    } else {
        register_all(register_one(cs, list[0]), list.drop_first())
    }
}

/// Folding one more registration onto the end.
pub proof fn lemma_register_all_snoc(cs: Seq<Catcher>, list: Seq<Catcher>, c: Catcher)
    ensures
        register_all(cs, list.push(c)) == register_one(register_all(cs, list), c),
    decreases list.len(),
{
    let snoc = list.push(c);
    if list.len() == 0 {
        assert(snoc[0] == c);
        assert(snoc.drop_first() =~= list);
        assert(register_all(cs, snoc) == register_all(register_one(cs, c), snoc.drop_first()));
        assert(register_all(register_one(cs, c), list) == register_one(cs, c));
        assert(register_all(cs, list) == cs);
    } else {
        assert(snoc[0] == list[0]);
        assert(snoc.drop_first() =~= list.drop_first().push(c));
        assert(register_all(cs, snoc) == register_all(
            register_one(cs, list[0]),
            list.drop_first().push(c),
        ));
        lemma_register_all_snoc(register_one(cs, list[0]), list.drop_first(), c);
        assert(register_all(cs, list) == register_all(
            register_one(cs, list[0]),
            list.drop_first(),
        ));
    }
}

/// The catcher table. One entry per status code; registration overwrites,
/// and the seeded defaults guarantee an entry for status 500 at all times.
pub struct CatcherTable {
    entries: Vec<Catcher>,
}

impl CatcherTable {
    pub closed spec fn view(&self) -> Seq<Catcher> {
        self.entries@
    }

    /// Codes are unique, and a 500 entry is always present.
    pub open spec fn wf(&self) -> bool {
        &&& forall|i: int, j: int|
            0 <= i < j < self@.len() ==> (#[trigger] self@[i].code) != (#[trigger] self@[j].code)
        &&& has_code(self@, 500)
    }

    /// The table seeded with the built-in default catchers, one for each
    /// default code and nothing else.
    pub fn defaults() -> (r: CatcherTable)
        ensures
            r.wf(),
            forall|i: int|
                0 <= i < r@.len() ==> (#[trigger] r@[i].is_default) && r@[i].handler
                    == CatcherRef::BuiltIn,
            forall|c: u16| has_code(r@, c) == is_default_code(c),
    {
        let mut entries: Vec<Catcher> = Vec::new();
        entries.push(Catcher { code: 400, is_default: true, handler: CatcherRef::BuiltIn });
        entries.push(Catcher { code: 404, is_default: true, handler: CatcherRef::BuiltIn });
        entries.push(Catcher { code: 422, is_default: true, handler: CatcherRef::BuiltIn });
        entries.push(Catcher { code: 500, is_default: true, handler: CatcherRef::BuiltIn });
        entries.push(Catcher { code: 503, is_default: true, handler: CatcherRef::BuiltIn });
        let r = CatcherTable { entries };
        proof {
            assert(r@[3].code == 500);
            assert forall|c: u16| has_code(r@, c) == is_default_code(c) by {
                if is_default_code(c) {
                    if c == 400 {
                        assert(r@[0].code == c);
                    } else if c == 404 {
                        assert(r@[1].code == c);
                    } else if c == 422 {
                        assert(r@[2].code == c);
                    } else if c == 500 {
                        assert(r@[3].code == c);
                    } else {
                        assert(r@[4].code == c);
                    }
                }
            }
        }
        r
    }

    /// Registers a catcher: a new code is added, an existing code — default
    /// or not — is overwritten.
    pub fn register(&mut self, c: Catcher)
        requires
            old(self).wf(),
        ensures
            final(self).wf(),
            final(self)@ == register_one(old(self)@, c),
            has_code(final(self)@, c.code),
            forall|k: int|
                0 <= k < final(self)@.len() ==> (#[trigger] final(self)@[k]) == c || (old(self)@
                    .contains(final(self)@[k]) && final(self)@[k].code != c.code),
            forall|k: int|
                0 <= k < old(self)@.len() && (#[trigger] old(self)@[k].code) != c.code
                    ==> final(self)@.contains(old(self)@[k]),
    {
        let mut i: usize = 0;
        while i < self.entries.len()
            invariant
                *self == *old(self),
                old(self).wf(),
                i <= self.entries@.len(),
                forall|j: int| 0 <= j < i ==> (#[trigger] self.entries@[j].code) != c.code,
            decreases self.entries@.len() - i,
        {
            if self.entries[i].code == c.code {
                let ghost prev = self.entries@;
                self.entries.set(i, c);
                proof {
                    lemma_find_code(prev, c.code);
                    match find_code(prev, c.code) {
                        Some(w) => {
                            if w < i {
                                assert(prev[w].code != c.code);
                            }
                            if w > i {
                                assert(prev[i as int].code != c.code);
                            }
                        },
                        None => {
                            assert(prev[i as int].code != c.code);
                        },
                    }
                    assert(self.entries@ =~= prev.update(i as int, c));
                    assert(self.entries@[i as int].code == c.code);
                    assert forall|k: int|
                        0 <= k < prev.len() && (#[trigger] prev[k].code)
                            != c.code implies self.entries@.contains(prev[k]) by {
                        assert(self.entries@[k] == prev[k]);
                    }
                    if prev[i as int].code == 500 && c.code != 500 {
                        assert(false);
                    }
                    let w = choose|w: int| 0 <= w < prev.len() && (#[trigger] prev[w].code) == 500;
                    assert(self.entries@[w].code == 500);
                }
                return ;
            }
            i += 1;
        }
        let ghost prev = self.entries@;
        self.entries.push(c);
        proof {
            lemma_find_code(prev, c.code);
            match find_code(prev, c.code) {
                Some(w) => {
                    assert(prev[w].code != c.code);
                },
                None => {},
            }
            assert(self.entries@[self.entries@.len() - 1] == c);
            assert forall|k: int|
                0 <= k < prev.len() && (#[trigger] prev[k].code)
                    != c.code implies self.entries@.contains(prev[k]) by {
                assert(self.entries@[k] == prev[k]);
            }
            let w = choose|w: int| 0 <= w < prev.len() && (#[trigger] prev[w].code) == 500;
            assert(self.entries@[w].code == 500);
            assert forall|k: int|
                0 <= k < self.entries@.len() implies (#[trigger] self.entries@[k]) == c || (
            prev.contains(self.entries@[k]) && self.entries@[k].code != c.code) by {
                if k < prev.len() {
                    assert(self.entries@[k] == prev[k]);
                }
            }
        }
    }

    /// The catcher that handles an error with the given status: the entry
    /// for that exact code, or, where none exists, the 500 entry.
    pub fn lookup_for_error(&self, status: u16) -> (r: &Catcher)
        requires
            self.wf(),
        ensures
            has_code(self@, status) ==> self@.contains(*r) && r.code == status,
            !has_code(self@, status) ==> self@.contains(*r) && r.code == 500,
    {
        let mut i: usize = 0;
        while i < self.entries.len()
            invariant
                self.wf(),
                i <= self.entries@.len(),
                forall|j: int| 0 <= j < i ==> (#[trigger] self.entries@[j].code) != status,
            decreases self.entries@.len() - i,
        {
            if self.entries[i].code == status {
                return &self.entries[i];
            }
            i += 1;
        }
        let mut k: usize = 0;
        while k < self.entries.len()
            invariant
                self.wf(),
                !has_code(self@, status),
                k <= self.entries@.len(),
                forall|j: int| 0 <= j < k ==> (#[trigger] self.entries@[j].code) != 500,
            decreases self.entries@.len() - k,
        {
            if self.entries[k].code == 500 {
                return &self.entries[k];
            }
            k += 1;
        }
        proof {
            assert(!has_code(self@, 500));
            assert(false);
        }
        unreached()
    }
}

/// The decimal digits of `n`, most significant first, as ASCII bytes.
pub open spec fn dec_bytes(n: int) -> Seq<u8>
    decreases n,
{
    if n < 10 {
        seq![(48 + n) as u8]
    } else {
        dec_bytes(n / 10).push((48 + n % 10) as u8)
    }
}

/// Renders a status code as decimal ASCII bytes.
pub fn dec_bytes_exec(n: u16) -> (r: Vec<u8>)
    ensures
        r@ == dec_bytes(n as int),
    decreases n,
{
    if n < 10 {
        let mut v: Vec<u8> = Vec::new();
        v.push(48 + (n as u8));
        v
    } else {
        let mut v = dec_bytes_exec(n / 10);
        v.push(48 + ((n % 10) as u8));
        v
    }
}

/// The body every built-in default catcher responds with: the status code
/// in decimal.
pub open spec fn default_body(code: u16) -> Seq<u8> {
    dec_bytes(code as int)
}

/// The response of the built-in default catcher for a status code: that
/// status, a plain-text content type, and the default body. Default
/// catchers cannot fail.
pub fn default_response(code: u16) -> (r: Response)
    ensures
        r.status == code,
        r.headers@.len() == 1,
        r.headers@[0].name@ == "Content-Type"@,
        r.headers@[0].value@ == "text/plain; charset=utf-8"@,
        r.body matches Body::Sized(b) && b@ == default_body(code),
{
    let mut headers: Vec<Header> = Vec::new();
    headers.push(
        Header {
            name: String::from_str("Content-Type"),
            value: String::from_str("text/plain; charset=utf-8"),
        },
    );
    Response { status: code, headers, body: Body::Sized(dec_bytes_exec(code)) }
}

} // verus!
