//! Text normalization shared by the attribute readers.
//!
//! The flat key files this system reads (power status, control policy,
//! vendor identifiers, process names) carry a short token followed by a
//! trailing newline, so every reader trims ASCII whitespace from both ends
//! of whatever it read.  Process argument lists arrive as raw bytes, so the
//! same trimming is also provided at the byte level.

use vstd::prelude::*;

verus! {

/// ASCII whitespace as it occurs in flat attribute files.
pub open spec fn is_space_char(c: char) -> bool {
    c == ' ' || c == '\n' || c == '\t' || c == '\r'
}

/// ASCII whitespace, byte-level counterpart of [`is_space_char`].
pub open spec fn is_space_byte(b: u8) -> bool {
    b == 32 || b == 10 || b == 9 || b == 13
}

pub open spec fn space_char_pred() -> spec_fn(char) -> bool {
    |c: char| is_space_char(c)
}

pub open spec fn space_byte_pred() -> spec_fn(u8) -> bool {
    |b: u8| is_space_byte(b)
}

/// The sequence with its longest all-`p` prefix removed.
pub open spec fn drop_leading<T>(s: Seq<T>, p: spec_fn(T) -> bool) -> Seq<T>
    decreases s.len(),
{
    if s.len() > 0 && p(s.first()) {
        drop_leading(s.drop_first(), p)
    } else {
        s
    }
}

/// The sequence with its longest all-`p` suffix removed.
pub open spec fn drop_trailing<T>(s: Seq<T>, p: spec_fn(T) -> bool) -> Seq<T>
    decreases s.len(),
{
    if s.len() > 0 && p(s.last()) {
        drop_trailing(s.drop_last(), p)
    } else {
        s
    }
}

/// The sequence with every leading and trailing `p` element removed.
pub open spec fn spec_trimmed<T>(s: Seq<T>, p: spec_fn(T) -> bool) -> Seq<T> {
    drop_trailing(drop_leading(s, p), p)
}

/// A character sequence trimmed of ASCII whitespace at both ends.
pub open spec fn spec_trim_str(s: Seq<char>) -> Seq<char> {
    spec_trimmed(s, space_char_pred())
}

/// A byte sequence trimmed of ASCII whitespace at both ends.
pub open spec fn spec_trim_bytes(s: Seq<u8>) -> Seq<u8> {
    spec_trimmed(s, space_byte_pred())
}

proof fn lemma_drop_leading_subrange<T>(s: Seq<T>, p: spec_fn(T) -> bool, i: int)
    requires
        0 <= i <= s.len(),
        forall|j: int| 0 <= j < i ==> p(s[j]),
        i == s.len() || !p(s[i]),
    ensures
        drop_leading(s, p) == s.subrange(i, s.len() as int),
    decreases i,
{
    if i == 0 {
        assert(s =~= s.subrange(0, s.len() as int));
    } else {
        let t = s.drop_first();
        assert(forall|j: int| 0 <= j < i - 1 ==> p(t[j]));
        lemma_drop_leading_subrange(t, p, i - 1);
        assert(t.subrange(i - 1, t.len() as int) =~= s.subrange(i, s.len() as int));
    }
}

proof fn lemma_drop_trailing_subrange<T>(s: Seq<T>, p: spec_fn(T) -> bool, k: int)
    requires
        0 <= k <= s.len(),
        forall|j: int| k <= j < s.len() ==> p(s[j]),
        k == 0 || !p(s[k - 1]),
    ensures
        drop_trailing(s, p) == s.subrange(0, k),
    decreases s.len() - k,
{
    if k == s.len() {
        assert(s =~= s.subrange(0, k));
    } else {
        let t = s.drop_last();
        assert(forall|j: int| k <= j < t.len() ==> p(t[j]));
        lemma_drop_trailing_subrange(t, p, k);
        assert(t.subrange(0, k) =~= s.subrange(0, k));
    }
}

/// Whether `c` is ASCII whitespace.
pub fn is_ascii_space(c: char) -> (b: bool)
    ensures
        b == is_space_char(c),
{
    c == ' ' || c == '\n' || c == '\t' || c == '\r'
}

/// Whether `b` is ASCII whitespace.
pub fn is_ascii_space_byte(b: u8) -> (r: bool)
    ensures
        r == is_space_byte(b),
{
    b == 32 || b == 10 || b == 9 || b == 13
}

/// A copy of `s` with ASCII whitespace removed from both ends.
pub fn trimmed(s: &str) -> (r: String)
    ensures
        r@ == spec_trim_str(s@),
{
    let n = s.unicode_len();
    let mut start: usize = 0;
    while start < n && is_ascii_space(s.get_char(start))
        invariant
            0 <= start <= n,
            n == s@.len(),
            forall|j: int| 0 <= j < start ==> is_space_char(s@[j]),
        decreases n - start,
    {
        start = start + 1;
    }
    let mut end: usize = n;
    while end > start && is_ascii_space(s.get_char(end - 1))
        invariant
            start <= end <= n,
            n == s@.len(),
            forall|j: int| end <= j < n ==> is_space_char(s@[j]),
        decreases end,
    {
        end = end - 1;
    }
    let t = s.substring_char(start, end);
    proof {
        let p = space_char_pred();
        assert(forall|j: int| 0 <= j < start ==> p(s@[j]));
        assert(start == s@.len() || !p(s@[start as int]));
        lemma_drop_leading_subrange(s@, p, start as int);
        let u = s@.subrange(start as int, s@.len() as int);
        let k = end - start;
        assert(forall|j: int| k <= j < u.len() ==> p(u[j]));
        assert(k == 0 || !p(u[k - 1]));
        lemma_drop_trailing_subrange(u, p, k as int);
        assert(u.subrange(0, k as int) =~= s@.subrange(start as int, end as int));
    }
    String::from_str(t)
}

/// A copy of `v` with ASCII whitespace removed from both ends.
pub fn trim_bytes(v: &Vec<u8>) -> (r: Vec<u8>)
    ensures
        r@ == spec_trim_bytes(v@),
{
    let n = v.len();
    let mut start: usize = 0;
    while start < n && is_ascii_space_byte(v[start])
        invariant
            0 <= start <= n,
            n == v@.len(),
            forall|j: int| 0 <= j < start ==> is_space_byte(v@[j]),
        decreases n - start,
    {
        start = start + 1;
    }
    let mut end: usize = n;
    while end > start && is_ascii_space_byte(v[end - 1])
        invariant
            start <= end <= n,
            n == v@.len(),
            forall|j: int| end <= j < n ==> is_space_byte(v@[j]),
        decreases end,
    {
        end = end - 1;
    }
    let mut r: Vec<u8> = Vec::new();
    let mut i: usize = start;
    while i < end
        invariant
            start <= i <= end <= n,
            n == v@.len(),
            r@ == v@.subrange(start as int, i as int),
        decreases end - i,
    {
        r.push(v[i]);
        proof {
            assert(v@.subrange(start as int, i + 1 as int) =~= v@.subrange(
                start as int,
                i as int,
            ).push(v@[i as int]));
        }
        i = i + 1;
    }
    proof {
        let p = space_byte_pred();
        assert(forall|j: int| 0 <= j < start ==> p(v@[j]));
        assert(start == v@.len() || !p(v@[start as int]));
        lemma_drop_leading_subrange(v@, p, start as int);
        let u = v@.subrange(start as int, v@.len() as int);
        let k = end - start;
        assert(forall|j: int| k <= j < u.len() ==> p(u[j]));
        assert(k == 0 || !p(u[k - 1]));
        lemma_drop_trailing_subrange(u, p, k as int);
        assert(u.subrange(0, k as int) =~= v@.subrange(start as int, end as int));
    }
    r
}

/// Whether `a` holds exactly the text `b`.
pub fn str_eq(a: &String, b: &str) -> (r: bool)
    ensures
        r == (a@ == b@),
{
    *a == String::from_str(b)
}

} // verus!
