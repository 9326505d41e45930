//! Basic HTTP values: methods, status codes and headers.

use vstd::prelude::*;

verus! {

use vstd::string::StrSliceExecFns;

/// An HTTP request method.
#[derive(Clone, Copy, PartialEq, Eq, Structural, Debug)]
pub enum Method {
    Get,
    Put,
    Post,
    Delete,
    Options,
    Head,
    Trace,
    Connect,
    Patch,
}

/// Lower-cases one ASCII byte; other bytes are unchanged.
pub open spec fn lower_byte(b: u8) -> u8 {
    if 65 <= b && b <= 90 {
        (b + 32) as u8
    } else {
        b
    }
}

/// Lower-cases a byte sequence, ASCII-wise.
pub open spec fn lower_bytes(s: Seq<u8>) -> Seq<u8> {
    s.map_values(|b: u8| lower_byte(b))
}

/// The method whose name, ignoring ASCII case, is `s`; `None` if there is none.
pub open spec fn method_of_name(s: Seq<u8>) -> Option<Method> {
    let l = lower_bytes(s);
    if l == seq![103u8, 101u8, 116u8] {
        Some(Method::Get)
    } else if l == seq![112u8, 117u8, 116u8] {
        Some(Method::Put)
    } else if l == seq![112u8, 111u8, 115u8, 116u8] {
        Some(Method::Post)
    } else if l == seq![100u8, 101u8, 108u8, 101u8, 116u8, 101u8] {
        Some(Method::Delete)
    } else if l == seq![111u8, 112u8, 116u8, 105u8, 111u8, 110u8, 115u8] {
        Some(Method::Options)
    } else if l == seq![104u8, 101u8, 97u8, 100u8] {
        Some(Method::Head)
    } else if l == seq![116u8, 114u8, 97u8, 99u8, 101u8] {
        Some(Method::Trace)
    } else if l == seq![99u8, 111u8, 110u8, 110u8, 101u8, 99u8, 116u8] {
        Some(Method::Connect)
    } else if l == seq![112u8, 97u8, 116u8, 99u8, 104u8] {
        Some(Method::Patch)
    } else {
        None
    }
}

/// Lower-cases a byte vector, ASCII-wise.
pub fn lower_bytes_exec(s: &[u8]) -> (r: Vec<u8>)
    ensures
        r@ == lower_bytes(s@),
{
    let mut out: Vec<u8> = Vec::new();
    let mut i: usize = 0;
    while i < s.len()
        invariant
            i <= s.len(),
            out@ == lower_bytes(s@.take(i as int)),
        decreases s.len() - i,
    {
        let b = s[i];
        let l: u8 = if 65 <= b && b <= 90 {
            b + 32
        } else {
            b
        };
        out.push(l);
        proof {
            assert(s@.take(i + 1).map_values(|b: u8| lower_byte(b)) =~= s@.take(i as int)
                .map_values(|b: u8| lower_byte(b)).push(lower_byte(s@[i as int])));
        }
        i += 1;
    }
    proof {
        assert(s@.take(s@.len() as int) =~= s@);
    }
    out
}

impl Method {
    /// Parses a method name, ignoring ASCII case.
    pub fn parse(name: &[u8]) -> (r: Option<Method>)
        ensures
            r == method_of_name(name@),
    {
        let l = lower_bytes_exec(name);
        if bytes_eq(&l, &[103u8, 101u8, 116u8]) {
            Some(Method::Get)
        } else if bytes_eq(&l, &[112u8, 117u8, 116u8]) {
            Some(Method::Put)
        } else if bytes_eq(&l, &[112u8, 111u8, 115u8, 116u8]) {
            Some(Method::Post)
        } else if bytes_eq(&l, &[100u8, 101u8, 108u8, 101u8, 116u8, 101u8]) {
            Some(Method::Delete)
        } else if bytes_eq(&l, &[111u8, 112u8, 116u8, 105u8, 111u8, 110u8, 115u8]) {
            Some(Method::Options)
        } else if bytes_eq(&l, &[104u8, 101u8, 97u8, 100u8]) {
            Some(Method::Head)
        } else if bytes_eq(&l, &[116u8, 114u8, 97u8, 99u8, 101u8]) {
            Some(Method::Trace)
        } else if bytes_eq(&l, &[99u8, 111u8, 110u8, 110u8, 101u8, 99u8, 116u8]) {
            Some(Method::Connect)
        } else if bytes_eq(&l, &[112u8, 97u8, 116u8, 99u8, 104u8]) {
            Some(Method::Patch)
        } else {
            None
        }
    }
}

/// Compares two byte slices for equality.
pub fn bytes_eq(a: &[u8], b: &[u8]) -> (r: bool)
    ensures
        r == (a@ == b@),
{
    if a.len() != b.len() {
        proof {
            assert(a@ != b@);
        }
        return false;
    }
    let mut i: usize = 0;
    while i < a.len()
        invariant
            i <= a.len(),
            a@.len() == b@.len(),
            forall|j: int| 0 <= j < i ==> a@[j] == b@[j],
        decreases a.len() - i,
    {
        if a[i] != b[i] {
            proof {
                assert(a@ != b@);
            }
            return false;
        }
        i += 1;
    }
    proof {
        assert(a@ =~= b@);
    }
    true
}

/// Whether `s` starts with `prefix`.
pub open spec fn starts_with(s: Seq<char>, prefix: Seq<char>) -> bool {
    s.len() >= prefix.len() && s.subrange(0, prefix.len() as int) == prefix
}

/// Decides whether a string starts with a prefix.
pub fn str_starts_with(s: &str, prefix: &str) -> (r: bool)
    ensures
        r == starts_with(s@, prefix@),
{
    let slen = s.unicode_len();
    let plen = prefix.unicode_len();
    if slen < plen {
        return false;
    }
    let mut i: usize = 0;
    while i < plen
        invariant
            i <= plen,
            slen == s@.len(),
            plen == prefix@.len(),
            plen <= slen,
            forall|j: int| 0 <= j < i ==> s@[j] == prefix@[j],
        decreases plen - i,
    {
        if s.get_char(i) != prefix.get_char(i) {
            proof {
                assert(s@.subrange(0, prefix@.len() as int)[i as int] != prefix@[i as int]);
            }
            return false;
        }
        i += 1;
    }
    proof {
        assert(s@.subrange(0, prefix@.len() as int) =~= prefix@);
    }
    true
}

/// The position of the first occurrence of a byte, if any.
pub open spec fn find_byte(s: Seq<u8>, b: u8) -> Option<int>
    decreases s.len(),
{
    if s.len() == 0 {
        None
    } else if s[0] == b {
        Some(0int)
    } else {
        match find_byte(s.drop_first(), b) {
            Some(i) => Some(i + 1),
            None => None,
        }
    }
}

/// `find_byte` finds exactly the first occurrence.
pub proof fn lemma_find_byte(s: Seq<u8>, b: u8)
    ensures
        match find_byte(s, b) {
            Some(i) => 0 <= i < s.len() && s[i] == b && forall|j: int| 0 <= j < i ==> s[j] != b,
            None => forall|j: int| 0 <= j < s.len() ==> s[j] != b,
        },
    decreases s.len(),
{
    if s.len() > 0 && s[0] != b {
        lemma_find_byte(s.drop_first(), b);
        match find_byte(s.drop_first(), b) {
            Some(i) => {
                assert forall|j: int| 0 <= j < i + 1 implies s[j] != b by {
                    if j > 0 {
                        assert(s.drop_first()[j - 1] != b);
                    }
                }
            },
            None => {
                assert forall|j: int| 0 <= j < s.len() implies s[j] != b by {
                    if j > 0 {
                        assert(s.drop_first()[j - 1] != b);
                    }
                }
            },
        }
    }
}

/// Scans for the first occurrence of a byte.
pub fn find_byte_exec(s: &[u8], b: u8) -> (r: Option<usize>)
    ensures
        match r {
            Some(i) => i < s@.len() && find_byte(s@, b) == Some(i as int),
            None => find_byte(s@, b) is None,
        },
{
    proof {
        lemma_find_byte(s@, b);
    }
    let mut i: usize = 0;
    while i < s.len()
        invariant
            i <= s@.len(),
            forall|j: int| 0 <= j < i ==> s@[j] != b,
            match find_byte(s@, b) {
                Some(k) => 0 <= k < s@.len() && s@[k] == b && forall|j: int|
                    0 <= j < k ==> s@[j] != b,
                None => forall|j: int| 0 <= j < s@.len() ==> s@[j] != b,
            },
        decreases s@.len() - i,
    {
        if s[i] == b {
            proof {
                match find_byte(s@, b) {
                    Some(k) => {
                        if k < i {
                            assert(s@[k] != b);
                        }
                        if k > i {
                            assert(s@[i as int] != b);
                        }
                    },
                    None => {
                        assert(s@[i as int] != b);
                    },
                }
            }
            return Some(i);
        }
        i += 1;
    }
    proof {
        match find_byte(s@, b) {
            Some(k) => {
                assert(s@[k] != b);
            },
            None => {},
        }
    }
    None
}

/// Whether a byte is a UTF-8 continuation byte.
pub open spec fn is_utf8_cont(b: u8) -> bool {
    128 <= b <= 191
}

/// Whether a byte sequence is well-formed UTF-8: ASCII bytes stand alone,
/// and each multi-byte lead is followed by continuation bytes in the
/// ranges that exclude overlong forms, surrogates and values beyond the
/// last code point.
pub open spec fn valid_utf8(s: Seq<u8>) -> bool
    decreases s.len(),
{
    if s.len() == 0 {
        true
    } else {
        let b = s[0];
        if b < 128 {
            valid_utf8(s.drop_first())
        } else if 194 <= b && b <= 223 {
            s.len() >= 2 && is_utf8_cont(s[1]) && valid_utf8(s.skip(2))
        } else if b == 224 {
            s.len() >= 3 && 160 <= s[1] <= 191 && is_utf8_cont(s[2]) && valid_utf8(s.skip(3))
        } else if 225 <= b && b <= 236 {
            s.len() >= 3 && is_utf8_cont(s[1]) && is_utf8_cont(s[2]) && valid_utf8(s.skip(3))
        } else if b == 237 {
            s.len() >= 3 && 128 <= s[1] <= 159 && is_utf8_cont(s[2]) && valid_utf8(s.skip(3))
        } else if 238 <= b && b <= 239 {
            s.len() >= 3 && is_utf8_cont(s[1]) && is_utf8_cont(s[2]) && valid_utf8(s.skip(3))
        } else if b == 240 {
            s.len() >= 4 && 144 <= s[1] <= 191 && is_utf8_cont(s[2]) && is_utf8_cont(s[3])
                && valid_utf8(s.skip(4))
        } else if 241 <= b && b <= 243 {
            s.len() >= 4 && is_utf8_cont(s[1]) && is_utf8_cont(s[2]) && is_utf8_cont(s[3])
                && valid_utf8(s.skip(4))
        } else if b == 244 {
            s.len() >= 4 && 128 <= s[1] <= 143 && is_utf8_cont(s[2]) && is_utf8_cont(s[3])
                && valid_utf8(s.skip(4))
        } else {
            false
        }
    }
}

/// Decides whether a byte slice is well-formed UTF-8.
pub fn valid_utf8_exec(s: &[u8]) -> (r: bool)
    ensures
        r == valid_utf8(s@),
    decreases s@.len(),
{
    if s.len() == 0 {
        return true;
    }
    let b = s[0];
    if b < 128 {
        let (_, rest) = s.split_at(1);
        proof {
            assert(rest@ =~= s@.drop_first());
        }
        valid_utf8_exec(rest)
    } else if 194 <= b && b <= 223 {
        if s.len() < 2 || !(128 <= s[1] && s[1] <= 191) {
            return false;
        }
        let (_, rest) = s.split_at(2);
        proof {
            assert(rest@ =~= s@.skip(2));
        }
        valid_utf8_exec(rest)
    } else if b == 224 {
        if s.len() < 3 || !(160 <= s[1] && s[1] <= 191) || !(128 <= s[2] && s[2] <= 191) {
            return false;
        }
        let (_, rest) = s.split_at(3);
        proof {
            assert(rest@ =~= s@.skip(3));
        }
        valid_utf8_exec(rest)
    } else if (225 <= b && b <= 236) || b == 238 || b == 239 {
        if s.len() < 3 || !(128 <= s[1] && s[1] <= 191) || !(128 <= s[2] && s[2] <= 191) {
            return false;
        }
        let (_, rest) = s.split_at(3);
        proof {
            assert(rest@ =~= s@.skip(3));
        }
        valid_utf8_exec(rest)
    } else if b == 237 {
        if s.len() < 3 || !(128 <= s[1] && s[1] <= 159) || !(128 <= s[2] && s[2] <= 191) {
            return false;
        }
        let (_, rest) = s.split_at(3);
        proof {
            assert(rest@ =~= s@.skip(3));
        }
        valid_utf8_exec(rest)
    } else if b == 240 {
        if s.len() < 4 || !(144 <= s[1] && s[1] <= 191) || !(128 <= s[2] && s[2] <= 191) || !(128
            <= s[3] && s[3] <= 191) {
            return false;
        }
        let (_, rest) = s.split_at(4);
        proof {
            assert(rest@ =~= s@.skip(4));
        }
        valid_utf8_exec(rest)
    } else if 241 <= b && b <= 243 {
        if s.len() < 4 || !(128 <= s[1] && s[1] <= 191) || !(128 <= s[2] && s[2] <= 191) || !(128
            <= s[3] && s[3] <= 191) {
            return false;
        }
        let (_, rest) = s.split_at(4);
        proof {
            assert(rest@ =~= s@.skip(4));
        }
        valid_utf8_exec(rest)
    } else if b == 244 {
        if s.len() < 4 || !(128 <= s[1] && s[1] <= 143) || !(128 <= s[2] && s[2] <= 191) || !(128
            <= s[3] && s[3] <= 191) {
            return false;
        }
        let (_, rest) = s.split_at(4);
        proof {
            assert(rest@ =~= s@.skip(4));
        }
        valid_utf8_exec(rest)
    } else {
        false
    }
}

/// An HTTP status code, in the range `100..600`.
#[derive(Clone, Copy, PartialEq, Eq, Structural, Debug)]
pub struct Status {
    pub code: u16,
}

impl Status {
    /// Whether the code lies in the valid status range.
    pub open spec fn wf(self) -> bool {
        100 <= self.code < 600
    }

    pub fn new(code: u16) -> (r: Status)
        requires
            100 <= code < 600,
        ensures
            r.code == code,
            r.wf(),
    {
        Status { code }
    }
}

/// A response or request header: a name (compared ignoring ASCII case) and a value.
pub struct Header {
    pub name: String,
    pub value: String,
}

impl Header {
    pub fn new(name: String, value: String) -> (r: Header)
        ensures
            r.name == name,
            r.value == value,
    {
        Header { name, value }
    }
}

/// Lower-cases one character, ASCII-wise.
pub open spec fn lower_char(c: char) -> char {
    if 'A' <= c && c <= 'Z' {
        ((c as u8) + 32) as char
    } else {
        c
    }
}

/// Lower-cases a character sequence, ASCII-wise.
pub open spec fn lower_chars(s: Seq<char>) -> Seq<char> {
    s.map_values(|c: char| lower_char(c))
}

/// Whether two header names are the same, ignoring ASCII case.
pub open spec fn name_eq(a: Seq<char>, b: Seq<char>) -> bool {
    lower_chars(a) == lower_chars(b)
}

/// Lower-cases one character, ASCII-wise.
pub fn lower_char_exec(c: char) -> (r: char)
    ensures
        r == lower_char(c),
{
    if 'A' <= c && c <= 'Z' {
        ((c as u8) + 32) as char
    } else {
        c
    }
}

/// Compares two header names, ignoring ASCII case.
pub fn name_eq_exec(a: &str, b: &str) -> (r: bool)
    ensures
        r == name_eq(a@, b@),
{
    let alen = a.unicode_len();
    let blen = b.unicode_len();
    if alen != blen {
        proof {
            assert(lower_chars(a@).len() != lower_chars(b@).len());
        }
        return false;
    }
    let mut i: usize = 0;
    while i < alen
        invariant
            i <= alen,
            alen == a@.len(),
            blen == b@.len(),
            alen == blen,
            forall|j: int| 0 <= j < i ==> lower_char(a@[j]) == lower_char(b@[j]),
        decreases alen - i,
    {
        let x = a.get_char(i);
        let y = b.get_char(i);
        if lower_char_exec(x) != lower_char_exec(y) {
            proof {
                assert(lower_chars(a@)[i as int] != lower_chars(b@)[i as int]);
            }
            return false;
        }
        i += 1;
    }
    proof {
        assert(lower_chars(a@) =~= lower_chars(b@));
    }
    true
}

/// Clones a byte vector.
pub fn clone_bytes(v: &Vec<u8>) -> (r: Vec<u8>)
    ensures
        r@ == v@,
{
    let mut out: Vec<u8> = Vec::new();
    let mut i: usize = 0;
    while i < v.len()
        invariant
            i <= v@.len(),
            out@ == v@.take(i as int),
        decreases v@.len() - i,
    {
        out.push(v[i]);
        proof {
            assert(v@.take(i + 1) =~= v@.take(i as int).push(v@[i as int]));
        }
        i += 1;
    }
    proof {
        assert(v@.take(v@.len() as int) =~= v@);
    }
    out
}

/// Clones a vector of strings.
pub fn clone_strings(v: &Vec<String>) -> (r: Vec<String>)
    ensures
        r@ == v@,
{
    let mut out: Vec<String> = Vec::new();
    let mut i: usize = 0;
    while i < v.len()
        invariant
            i <= v@.len(),
            out@ == v@.take(i as int),
        decreases v@.len() - i,
    {
        out.push(v[i].clone());
        proof {
            assert(v@.take(i + 1) =~= v@.take(i as int).push(v@[i as int]));
        }
        i += 1;
    }
    proof {
        assert(v@.take(v@.len() as int) =~= v@);
    }
    out
}

/// Compares two strings for (case-sensitive) equality.
pub fn str_eq(a: &str, b: &str) -> (r: bool)
    ensures
        r == (a@ == b@),
{
    let alen = a.unicode_len();
    let blen = b.unicode_len();
    if alen != blen {
        return false;
    }
    let mut i: usize = 0;
    while i < alen
        invariant
            i <= alen,
            alen == a@.len(),
            blen == b@.len(),
            alen == blen,
            forall|j: int| 0 <= j < i ==> a@[j] == b@[j],
        decreases alen - i,
    {
        if a.get_char(i) != b.get_char(i) {
            return false;
        }
        i += 1;
    }
    proof {
        assert(a@ =~= b@);
    }
    true
}

/// Whether a header list holds an entry named `name`, ignoring ASCII case.
pub open spec fn headers_contain(hs: Seq<Header>, name: Seq<char>) -> bool {
    exists|i: int| 0 <= i < hs.len() && name_eq(hs[i].name@, name)
}

/// Looks a header up by name, ignoring ASCII case; returns the first match.
pub fn find_header<'a>(hs: &'a Vec<Header>, name: &str) -> (r: Option<&'a Header>)
    ensures
        match r {
            Some(h) => headers_contain(hs@, name@) && exists|i: int|
                0 <= i < hs@.len() && hs@[i] == *h && name_eq(hs@[i].name@, name@) && (forall|
                j: int| 0 <= j < i ==> !name_eq(#[trigger] hs@[j].name@, name@)),
            None => !headers_contain(hs@, name@),
        },
{
    let mut i: usize = 0;
    while i < hs.len()
        invariant
            i <= hs.len(),
            forall|j: int| 0 <= j < i ==> !name_eq(hs@[j].name@, name@),
        decreases hs.len() - i,
    {
        if name_eq_exec(hs[i].name.as_str(), name) {
            return Some(&hs[i]);
        }
        i += 1;
    }
    None
}

} // verus!
