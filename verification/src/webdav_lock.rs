//! WebDAV (RFC 4918) lock policy: timeout parsing, and the decisions of
//! acquiring, refreshing and releasing locks over a path-keyed lock table
//! with a token-keyed reverse index.

use vstd::prelude::*;
use crate::decimal::{decimal_text, parse_u64, parsed_u64, push_decimal};
use crate::fs_path::split_on;
use crate::text::{push_char, str_chars, string_from_chars};

verus! {

/// Lock timeout when the client gives none (30 minutes).
pub const DEFAULT_LOCK_TIMEOUT_SECS: u64 = 1800;

/// Longest lock timeout a client may obtain (24 hours).
pub const MAX_LOCK_TIMEOUT_SECS: u64 = 86_400;

/// Lock scope.
#[derive(Debug, Clone, Copy, PartialEq, Eq)]
pub enum LockScope {
    Exclusive,
    Shared,
}

/// Lock type (WebDAV defines only write locks).
#[derive(Debug, Clone, Copy, PartialEq, Eq)]
pub enum LockType {
    Write,
}

/// What a LOCK request asks for.
#[derive(Debug, Clone)]
pub struct LockInfo {
    pub token: String,
    pub owner: Option<String>,
    pub depth: String,
    pub timeout: Option<String>,
    pub scope: LockScope,
    pub type_: LockType,
}

/// A stored lock.
#[derive(Debug, Clone)]
pub struct LockEntry {
    pub info: LockInfo,
    pub path: String,
    /// The user who acquired the lock, when known.
    pub caller_user_id: Option<u128>,
}

/// `char::is_whitespace`: the Unicode `White_Space` characters.
pub open spec fn is_ws(c: char) -> bool {
    ||| ('\u{9}' <= c && c <= '\u{d}')
    ||| c == ' '
    ||| c == '\u{85}'
    ||| c == '\u{a0}'
    ||| c == '\u{1680}'
    ||| ('\u{2000}' <= c && c <= '\u{200a}')
    ||| c == '\u{2028}'
    ||| c == '\u{2029}'
    ||| c == '\u{202f}'
    ||| c == '\u{205f}'
    ||| c == '\u{3000}'
}

/// Index of the first non-whitespace character from `i` on.
pub open spec fn trim_start_index(s: Seq<char>, i: int) -> int
    decreases s.len() - i,
{
    if i >= s.len() || !is_ws(s[i]) {
        i
    } else {
        trim_start_index(s, i + 1)
    }
}

/// One past the last non-whitespace character before `j`.
pub open spec fn trim_end_index(s: Seq<char>, lo: int, j: int) -> int
    decreases j - lo,
{
    if j <= lo || !is_ws(s[j - 1]) {
        j
    } else {
        trim_end_index(s, lo, j - 1)
    }
}

/// `str::trim`.
pub open spec fn trimmed(s: Seq<char>) -> Seq<char> {
    let lo = trim_start_index(s, 0);
    s.subrange(lo, trim_end_index(s, lo, s.len() as int))
}

pub open spec fn ascii_lower(c: char) -> char {
    if 'A' <= c && c <= 'Z' {
        ((c as int) + 32) as char
    } else {
        c
    }
}

/// `str::eq_ignore_ascii_case`.
pub open spec fn eq_ignore_ascii_case(a: Seq<char>, b: Seq<char>) -> bool {
    a.len() == b.len() && forall|i: int| 0 <= i < a.len() ==> ascii_lower(#[trigger] a[i]) == ascii_lower(b[i])
}

/// The timeout, in seconds, that a `Timeout` header asks for: the first
/// entry of a comma-separated list, `Infinite` (any case) meaning the
/// maximum, `Second-N` meaning `N` capped at the maximum, and anything else
/// (or no header) the default.
pub open spec fn timeout_secs(header: Option<Seq<char>>) -> u64 {
    match header {
        None => DEFAULT_LOCK_TIMEOUT_SECS,
        Some(h) => if h.len() == 0 {
            DEFAULT_LOCK_TIMEOUT_SECS
        } else {
            let first = trimmed(split_on(h, ',')[0]);
            if eq_ignore_ascii_case(first, "Infinite"@) {
                MAX_LOCK_TIMEOUT_SECS
            } else if first.len() >= 7 && first.take(7) == "Second-"@ && parsed_u64(
                trimmed(first.skip(7)),
            ) is Some {
                let n = parsed_u64(trimmed(first.skip(7)))->0;
                if n <= MAX_LOCK_TIMEOUT_SECS {
                    n
                } else {
                    MAX_LOCK_TIMEOUT_SECS
                }
            } else {
                DEFAULT_LOCK_TIMEOUT_SECS
            }
        },
    }
}

pub(crate) fn trim_chars(v: &Vec<char>, from: usize, to: usize) -> (r: Vec<char>)
    requires
        from <= to <= v@.len(),
    ensures
        r@ == trimmed(v@.subrange(from as int, to as int)),
{
    let ghost s = v@.subrange(from as int, to as int);
    let mut lo: usize = from;
    while lo < to && is_ws_char(v[lo])
        invariant
            from <= lo <= to,
            to <= v@.len(),
            s == v@.subrange(from as int, to as int),
            trim_start_index(s, 0) == trim_start_index(s, lo - from),
        decreases to - lo,
    {
        lo += 1;
    }
    let mut hi: usize = to;
    while hi > lo && is_ws_char(v[hi - 1])
        invariant
            from <= lo <= hi <= to,
            to <= v@.len(),
            s == v@.subrange(from as int, to as int),
            trim_start_index(s, 0) == lo - from,
            trim_end_index(s, lo - from, s.len() as int) == trim_end_index(s, lo - from, hi - from),
        decreases hi - lo,
    {
        hi -= 1;
    }
    let mut r: Vec<char> = Vec::new();
    let mut k = lo;
    while k < hi
        invariant
            lo <= k <= hi,
            hi <= v@.len(),
            r@ == v@.subrange(lo as int, k as int),
        decreases hi - k,
    {
        r.push(v[k]);
        assert(v@.subrange(lo as int, k + 1) =~= v@.subrange(lo as int, k as int).push(v@[k as int]));
        k += 1;
    }
    assert(r@ =~= s.subrange(lo - from, hi - from));
    r
}

fn is_ws_char(c: char) -> (b: bool)
    ensures
        b == is_ws(c),
{
    ('\u{9}' <= c && c <= '\u{d}') || c == ' ' || c == '\u{85}' || c == '\u{a0}' || c == '\u{1680}'
        || ('\u{2000}' <= c && c <= '\u{200a}') || c == '\u{2028}' || c == '\u{2029}' || c
        == '\u{202f}' || c == '\u{205f}' || c == '\u{3000}'
}

fn lower(c: char) -> (r: char)
    ensures
        r == ascii_lower(c),
{
    if 'A' <= c && c <= 'Z' {
        upper_to_lower(c)
    } else {
        c
    }
}

fn upper_to_lower(c: char) -> (r: char)
    requires
        'A' <= c && c <= 'Z',
    ensures
        r == ((c as int) + 32) as char,
{
    let table: [char; 26] = [
        'a', 'b', 'c', 'd', 'e', 'f', 'g', 'h', 'i', 'j', 'k', 'l', 'm', 'n', 'o', 'p', 'q', 'r',
        's', 't', 'u', 'v', 'w', 'x', 'y', 'z',
    ];
    let i = (c as u32 - 'A' as u32) as usize;
    let r = table[i];
    assert(r == ((c as int) + 32) as char) by {
        assert(table@ =~= seq![
            'a', 'b', 'c', 'd', 'e', 'f', 'g', 'h', 'i', 'j', 'k', 'l', 'm', 'n', 'o', 'p', 'q', 'r',
            's', 't', 'u', 'v', 'w', 'x', 'y', 'z',
        ]);
    }
    r
}

/// Parse a WebDAV `Timeout` header into seconds.
pub fn parse_timeout(header: Option<&str>) -> (secs: u64)
    ensures
        secs == timeout_secs(
            match header {
                Some(h) => Some(h@),
                None => None,
            },
        ),
{
    let h = match header {
        None => return DEFAULT_LOCK_TIMEOUT_SECS,
        Some(h) => h,
    };
    let v = str_chars(h);
    if v.len() == 0 {
        return DEFAULT_LOCK_TIMEOUT_SECS;
    }
    let mut comma: usize = 0;
    while comma < v.len() && v[comma] != ','
        invariant
            comma <= v@.len(),
            forall|j: int| 0 <= j < comma ==> v@[j] != ',',
        decreases v@.len() - comma,
    {
        comma += 1;
    }
    proof {
        lemma_first_piece(v@, ',', comma as int);
    }
    let first = trim_chars(&v, 0, comma);
    let infinite: Vec<char> = vec!['I', 'n', 'f', 'i', 'n', 'i', 't', 'e'];
    proof {
        reveal_strlit("Infinite");
        reveal_strlit("Second-");
        assert(infinite@ =~= "Infinite"@);
    }
    if eq_ignore_case(&first, &infinite) {
        return MAX_LOCK_TIMEOUT_SECS;
    }
    if first.len() >= 7 && first[0] == 'S' && first[1] == 'e' && first[2] == 'c' && first[3] == 'o'
        && first[4] == 'n' && first[5] == 'd' && first[6] == '-' {
        assert(first@.take(7) =~= "Second-"@);
        let rest = trim_chars(&first, 7, first.len());
        assert(first@.subrange(7, first@.len() as int) =~= first@.skip(7));
        match parse_u64(&rest) {
            Some(n) => {
                return if n <= MAX_LOCK_TIMEOUT_SECS {
                    n
                } else {
                    MAX_LOCK_TIMEOUT_SECS
                };
            },
            None => {},
        }
    } else {
        proof {
            if first@.len() >= 7 && first@.take(7) == "Second-"@ {
                assert(first@.take(7)[0] == 'S');
                assert(first@.take(7)[1] == 'e');
                assert(first@.take(7)[2] == 'c');
                assert(first@.take(7)[3] == 'o');
                assert(first@.take(7)[4] == 'n');
                assert(first@.take(7)[5] == 'd');
                assert(first@.take(7)[6] == '-');
            }
        }
    }
    DEFAULT_LOCK_TIMEOUT_SECS
}

fn eq_ignore_case(a: &Vec<char>, b: &Vec<char>) -> (r: bool)
    ensures
        r == eq_ignore_ascii_case(a@, b@),
{
    if a.len() != b.len() {
        return false;
    }
    let mut i: usize = 0;
    while i < a.len()
        invariant
            i <= a@.len(),
            a@.len() == b@.len(),
            forall|j: int| 0 <= j < i ==> ascii_lower(#[trigger] a@[j]) == ascii_lower(b@[j]),
        decreases a@.len() - i,
    {
        if lower(a[i]) != lower(b[i]) {
            return false;
        }
        i += 1;
    }
    true
}

/// The first piece of `s` split at `sep` runs up to the first `sep`.
pub proof fn lemma_first_piece(s: Seq<char>, sep: char, k: int)
    requires
        0 <= k <= s.len(),
        forall|j: int| 0 <= j < k ==> s[j] != sep,
        k < s.len() ==> s[k] == sep,
    ensures
        split_on(s, sep)[0] == s.subrange(0, k),
        k < s.len() ==> split_on(s, sep).len() >= 2,
    decreases s.len(),
{
    crate::fs_path::lemma_split_on_nonempty(s, sep);
    if k == s.len() {
        lemma_single_piece(s, sep);
        assert(s.subrange(0, k) =~= s);
    } else if k == s.len() - 1 {
        lemma_single_piece(s.drop_last(), sep);
        assert(s.subrange(0, k) =~= s.drop_last());
    } else {
        lemma_first_piece(s.drop_last(), sep, k);
        assert(s.drop_last().subrange(0, k) =~= s.subrange(0, k));
    }
}

/// Text with no separator splits into a single piece.
pub proof fn lemma_single_piece(s: Seq<char>, sep: char)
    requires
        forall|j: int| 0 <= j < s.len() ==> s[j] != sep,
    ensures
        split_on(s, sep).len() == 1,
        split_on(s, sep)[0] == s,
    decreases s.len(),
{
    if s.len() > 0 {
        lemma_single_piece(s.drop_last(), sep);
        assert(s.drop_last().push(s.last()) =~= s);
    }
}

/// The timeout text a refreshed lock stores: `Second-N`.
pub open spec fn second_timeout_text(n: u64) -> Seq<char> {
    "Second-"@ + decimal_text(n as nat)
}

/// `Second-N`.
pub fn second_timeout(n: u64) -> (s: String)
    ensures
        s@ == second_timeout_text(n),
{
    let mut s = "Second-".to_string();
    proof {
        reveal_strlit("Second-");
    }
    push_decimal(&mut s, n);
    s
}

/// What a LOCK request does, given the lock (if any) already on the path.
#[derive(Debug, Clone, Copy, PartialEq, Eq)]
pub enum AcquireDecision {
    /// Refused: the returned existing lock blocks it.
    Conflict,
    /// Both shared: the first holder stays the path's lock; the new token
    /// only joins the reverse index.
    JoinShared,
    /// No lock on the path: store the new lock under both indexes.
    Insert,
}

/// An exclusive lock blocks every other lock, and a new exclusive lock is
/// blocked by any existing lock.
pub open spec fn acquire_decision_of(existing: Option<LockScope>, requested: LockScope) -> AcquireDecision {
    match existing {
        None => AcquireDecision::Insert,
        Some(LockScope::Exclusive) => AcquireDecision::Conflict,
        Some(LockScope::Shared) => match requested {
            LockScope::Exclusive => AcquireDecision::Conflict,
            LockScope::Shared => AcquireDecision::JoinShared,
        },
    }
}

pub fn acquire_decision(existing: Option<&LockScope>, requested: &LockScope) -> (d: AcquireDecision)
    ensures
        d == acquire_decision_of(
            match existing {
                Some(s) => Some(*s),
                None => None,
            },
            *requested,
        ),
{
    match existing {
        None => AcquireDecision::Insert,
        Some(LockScope::Exclusive) => AcquireDecision::Conflict,
        Some(LockScope::Shared) => match requested {
            LockScope::Exclusive => AcquireDecision::Conflict,
            LockScope::Shared => AcquireDecision::JoinShared,
        },
    }
}

/// Refresh `entry` (the lock stored under the path the token maps to) for
/// `token`: refused when the stored lock carries another token; otherwise
/// its timeout is recomputed from the new header (or, without one, its own)
/// and stored normalised as `Second-N`.
pub fn refresh_entry(entry: LockEntry, token: &str, new_timeout: Option<&str>) -> (r: Option<LockEntry>)
    ensures
        r is Some <==> entry.info.token@ == token@,
        r matches Some(e) ==> {
            &&& e.info.timeout is Some
            &&& e.info.timeout->0@ == second_timeout_text(
                timeout_secs(
                    match new_timeout {
                        Some(t) => Some(t@),
                        None => match entry.info.timeout {
                            Some(t) => Some(t@),
                            None => None,
                        },
                    },
                ),
            )
            &&& e.info.token == entry.info.token
            &&& e.path == entry.path
            &&& e.caller_user_id == entry.caller_user_id
            &&& e.info.scope == entry.info.scope
            &&& e.info.owner == entry.info.owner
            &&& e.info.depth == entry.info.depth
        },
{
    let tv = str_chars(token);
    let et = str_chars(entry.info.token.as_str());
    if !crate::text::chars_equal(&et, &tv) {
        return None;
    }
    let ttl = match new_timeout {
        Some(t) => parse_timeout(Some(t)),
        None => match &entry.info.timeout {
            Some(t) => parse_timeout(Some(t.as_str())),
            None => parse_timeout(None),
        },
    };
    let mut e = entry;
    e.info.timeout = Some(second_timeout(ttl));
    Some(e)
}

/// What releasing a token does.
#[derive(Debug, Clone, Copy, PartialEq, Eq)]
pub struct ReleaseDecision {
    /// Remove the path's lock: it exists and carries this very token.
    pub remove_lock: bool,
    /// What the release reports: whether a lock existed and was removed.
    pub released: bool,
    /// Drop the token from the token index: the index knew it.
    pub forget_token: bool,
}

/// Releasing `token`, when the token index does (`token_known`) or does not
/// know it, and the lock currently stored under its path carries
/// `stored_token` (`None`: no lock there, e.g. it expired).
pub open spec fn release_decision_of(token_known: bool, stored_token: Option<Seq<char>>, token: Seq<char>) -> ReleaseDecision {
    let remove = token_known && stored_token == Some(token);
    ReleaseDecision { remove_lock: remove, released: remove, forget_token: token_known }
}

pub fn release_decision(token_known: bool, stored_token: Option<&String>, token: &str) -> (r: ReleaseDecision)
    ensures
        r == release_decision_of(
            token_known,
            match stored_token {
                Some(t) => Some(t@),
                None => None,
            },
            token@,
        ),
{
    if !token_known {
        return ReleaseDecision { remove_lock: false, released: false, forget_token: false };
    }
    let remove = match stored_token {
        Some(t) => {
            let a = str_chars(t.as_str());
            let b = str_chars(token);
            crate::text::chars_equal(&a, &b)
        },
        None => false,
    };
    ReleaseDecision { remove_lock: remove, released: remove, forget_token: true }
}

/// A second shared holder joins without replacing the first holder's lock,
/// and releasing the second holder's token leaves the first holder's lock in
/// place (and reports no lock removed), while the second token leaves the
/// token index.
pub proof fn law_secondary_release_keeps_first_holder(first: Seq<char>, second: Seq<char>)
    requires
        first != second,
    ensures
        acquire_decision_of(Some(LockScope::Shared), LockScope::Shared) == AcquireDecision::JoinShared,
        !release_decision_of(true, Some(first), second).remove_lock,
        !release_decision_of(true, Some(first), second).released,
        release_decision_of(true, Some(first), second).forget_token,
        release_decision_of(true, Some(first), first).remove_lock,
{
}

/// No `Timeout` header obtains more than the maximum lock timeout.
pub proof fn law_timeout_bounded(header: Option<Seq<char>>)
    ensures
        timeout_secs(header) <= MAX_LOCK_TIMEOUT_SECS,
{
}

proof fn lemma_trimmed_unchanged(s: Seq<char>)
    requires
        s.len() > 0,
        !is_ws(s[0]),
        !is_ws(s.last()),
    ensures
        trimmed(s) == s,
{
    assert(trim_start_index(s, 0) == 0);
    assert(trim_end_index(s, 0, s.len() as int) == s.len());
    assert(s.subrange(0, s.len() as int) =~= s);
}

/// The `Second-N` text a refreshed lock stores reads back as `N`: a lock
/// refreshed to a timeout keeps exactly that timeout.
pub proof fn law_normalized_timeout_roundtrip(n: u64)
    requires
        n <= MAX_LOCK_TIMEOUT_SECS,
    ensures
        timeout_secs(Some(second_timeout_text(n))) == n,
{
    reveal_strlit("Second-");
    reveal_strlit("Infinite");
    let d = decimal_text(n as nat);
    crate::decimal::lemma_decimal_text(n as nat);
    crate::decimal::law_decimal_roundtrip(n);
    let t = second_timeout_text(n);
    let pre = "Second-"@;
    assert(pre.len() == 7);
    assert(t.len() == 7 + d.len());
    assert forall|j: int| 0 <= j < t.len() implies t[j] != ',' by {
        if j >= 7 {
            assert(t[j] == d[j - 7]);
            assert(crate::decimal::is_digit(d[j - 7]));
        }
    }
    lemma_single_piece(t, ',');
    assert(t[0] == 'S');
    assert(t.last() == d.last());
    assert(crate::decimal::is_digit(d[d.len() - 1]));
    lemma_trimmed_unchanged(t);
    let first = trimmed(split_on(t, ',')[0]);
    assert(first == t);
    assert(!eq_ignore_ascii_case(first, "Infinite"@)) by {
        if first.len() == "Infinite"@.len() {
            assert(ascii_lower(first[0]) != ascii_lower("Infinite"@[0]));
        }
    }
    assert(t.take(7) =~= pre);
    assert(t.skip(7) =~= d);
    assert(crate::decimal::is_digit(d[0]));
    lemma_trimmed_unchanged(d);
}

} // verus!
