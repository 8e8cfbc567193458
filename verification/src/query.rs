use vstd::prelude::*;
use vstd::string::StrSliceExecFns;

use crate::strmap::StrMap;
use crate::text::push_char;

verus! {

// An HTTP query string `k1=v1&k2=v2` is parsed into a map. Policy, fixed
// here and relied on by the contracts below:
//  - tokens are split on `&`; a token without `=` or with an empty key is
//    dropped, not an error;
//  - keys and values are percent-decoded; a token whose key or value holds a
//    malformed percent sequence (`%` not followed by two hex digits, or a
//    decoded byte outside the ASCII range) is dropped as a whole;
//  - when one key occurs twice, the later occurrence wins;
//  - an empty query string is reported as absent rather than as an empty map.

/// Whether the character is an ASCII hexadecimal digit.
pub open spec fn is_hex_digit(c: char) -> bool {
    ('0' as u32 <= c as u32 && c as u32 <= '9' as u32)
    || ('a' as u32 <= c as u32 && c as u32 <= 'f' as u32)
    || ('A' as u32 <= c as u32 && c as u32 <= 'F' as u32)
}

/// The numeric value of an ASCII hexadecimal digit.
pub open spec fn hex_val(c: char) -> int {
    if '0' as u32 <= c as u32 && c as u32 <= '9' as u32 {
        c as u32 - '0' as u32
    } else if 'a' as u32 <= c as u32 && c as u32 <= 'f' as u32 {
        c as u32 - 'a' as u32 + 10
    } else {
        c as u32 - 'A' as u32 + 10
    }
}

/// The character a two-digit percent sequence decodes to.
pub open spec fn pct_char(h: char, l: char) -> char {
    ((16 * hex_val(h) + hex_val(l)) as u8) as char
}

/// Percent-decoding of a character sequence; `None` when a `%` is not
/// followed by two hex digits that give an ASCII byte.
pub open spec fn pct_decode(s: Seq<char>) -> Option<Seq<char>>
    decreases s.len(),
{
    if s.len() == 0 {
        Some(Seq::empty())
    } else if s[0] == '%' {
        if s.len() >= 3 && is_hex_digit(s[1]) && is_hex_digit(s[2])
            && 16 * hex_val(s[1]) + hex_val(s[2]) < 0x80 {
            match pct_decode(s.skip(3)) {
                Some(r) => Some(seq![pct_char(s[1], s[2])] + r),
                None => None,
            }
        } else {
            None
        }
    } else {
        match pct_decode(s.skip(1)) {
            Some(r) => Some(seq![s[0]] + r),
            None => None,
        }
    }
}

/// The index of the first occurrence of `c`, or the length when absent.
pub open spec fn find_char(s: Seq<char>, c: char) -> int
    decreases s.len(),
{
    if s.len() == 0 {
        0
    } else if s[0] == c {
        0
    } else {
        1 + find_char(s.skip(1), c)
    }
}

/// `find_char` points at the first occurrence: everything before it differs
/// from `c`, and it holds `c` unless it is the length.
pub proof fn lemma_find_char(s: Seq<char>, c: char)
    ensures
        0 <= find_char(s, c) <= s.len(),
        forall|k: int| 0 <= k < find_char(s, c) ==> s[k] != c,
        find_char(s, c) < s.len() ==> s[find_char(s, c)] == c,
    decreases s.len(),
{
    if s.len() == 0 {
    } else if s[0] == c {
    } else {
        let s1 = s.skip(1);
        lemma_find_char(s1, c);
        let f = find_char(s, c);
        assert(f == 1 + find_char(s1, c));
        assert forall|k: int| 0 <= k < f implies s[k] != c by {
            if k > 0 {
                assert(s1[k - 1] == s[k]);
                assert(s1[k - 1] != c);
            }
        }
        if f < s.len() {
            assert(s1[f - 1] == s[f]);
        }
    }
}

/// One `key=value` token: `None` when there is no `=`, the key is empty, or
/// a percent sequence is malformed.
pub open spec fn parse_token(t: Seq<char>) -> Option<(Seq<char>, Seq<char>)> {
    let e = find_char(t, '=');
    if e == t.len() || e == 0 {
        None
    } else {
        match (pct_decode(t.take(e)), pct_decode(t.skip(e + 1))) {
            (Some(k), Some(v)) => Some((k, v)),
            _ => None,
        }
    }
}

/// Folds one token into the accumulated map; a dropped token leaves it as is.
pub open spec fn insert_token(
    acc: Map<Seq<char>, Seq<char>>,
    t: Seq<char>,
) -> Map<Seq<char>, Seq<char>> {
    match parse_token(t) {
        Some(kv) => acc.insert(kv.0, kv.1),
        None => acc,
    }
}

/// Folds every `&`-separated token of `s` into `acc`, left to right.
pub open spec fn query_fold(
    s: Seq<char>,
    acc: Map<Seq<char>, Seq<char>>,
) -> Map<Seq<char>, Seq<char>>
    decreases s.len(),
    via query_fold_dec
{
    let j = find_char(s, '&');
    let acc2 = insert_token(acc, s.take(j));
    if j == s.len() {
        acc2
    } else {
        query_fold(s.skip(j + 1), acc2)
    }
}

#[via_fn]
proof fn query_fold_dec(s: Seq<char>, acc: Map<Seq<char>, Seq<char>>) {
    lemma_find_char(s, '&');
}

/// The map a whole query string describes.
pub open spec fn query_spec(s: Seq<char>) -> Map<Seq<char>, Seq<char>> {
    query_fold(s, Map::empty())
}

/// The value of an ASCII hexadecimal digit, or `None`.
fn hex_digit_val(c: char) -> (r: Option<u8>)
    ensures
        match r {
            Some(v) => is_hex_digit(c) && v == hex_val(c),
            None => !is_hex_digit(c),
        },
{
    let u = c as u32;
    if '0' as u32 <= u && u <= '9' as u32 {
        Some((u - '0' as u32) as u8)
    } else if 'a' as u32 <= u && u <= 'f' as u32 {
        Some((u - 'a' as u32 + 10) as u8)
    } else if 'A' as u32 <= u && u <= 'F' as u32 {
        Some((u - 'A' as u32 + 10) as u8)
    } else {
        None
    }
}

/// The index of the first occurrence of `c` in `s`, or the length.
pub fn find_in(s: &str, c: char) -> (j: usize)
    ensures
        j == find_char(s@, c),
        j <= s@.len(),
{
    let n = s.unicode_len();
    proof {
        lemma_find_char(s@, c);
    }
    let mut j: usize = 0;
    while j < n
        invariant
            n == s@.len(),
            j <= n,
            forall|k: int| 0 <= k < j ==> s@[k] != c,
        decreases n - j,
    {
        if s.get_char(j) == c {
            proof {
                lemma_find_char(s@, c);
                let f = find_char(s@, c);
                if f < j {
                    assert(s@[f] != c);
                } else if j < f {
                    assert(s@[j as int] != c);
                }
            }
            return j;
        }
        j += 1;
    }
    proof {
        lemma_find_char(s@, c);
        let f = find_char(s@, c);
        if f < n {
            assert(s@[f] != c);
        }
    }
    n
}

/// Percent-decodes a string; `None` on a malformed or non-ASCII sequence.
pub fn pct_decode_str(s: &str) -> (r: Option<String>)
    ensures
        match r {
            Some(out) => pct_decode(s@) == Some(out@),
            None => pct_decode(s@) is None,
        },
{
    let n = s.unicode_len();
    let mut out = String::new();
    let mut p: usize = 0;
    proof {
        assert(s@.skip(0) =~= s@);
    }
    while p < n
        invariant
            n == s@.len(),
            p <= n,
            pct_decode(s@) == (match pct_decode(s@.skip(p as int)) {
                Some(rest) => Some(out@ + rest),
                None => None::<Seq<char>>,
            }),
        decreases n - p,
    {
        let ghost rem = s@.skip(p as int);
        let c = s.get_char(p);
        proof {
            assert(rem[0] == s@[p as int]);
        }
        if c == '%' {
            if n - p >= 3 {
                let hr = hex_digit_val(s.get_char(p + 1));
                let lr = hex_digit_val(s.get_char(p + 2));
                proof {
                    assert(rem[1] == s@[p as int + 1]);
                    assert(rem[2] == s@[p as int + 2]);
                }
                match (hr, lr) {
                    (Some(h), Some(l)) => {
                        let v: u8 = 16 * h + l;
                        if v < 0x80 {
                            let d = v as char;
                            proof {
                                assert(d == pct_char(rem[1], rem[2]));
                            }
                            push_char(&mut out, d);
                            p = p + 3;
                            proof {
                                assert(s@.skip(p as int) =~= rem.skip(3));
                                match pct_decode(rem.skip(3)) {
                                    Some(r2) => {
                                        assert(pct_decode(rem) == Some(seq![d] + r2));
                                        assert(out@ + r2 =~= out@.drop_last() + (seq![d] + r2));
                                    },
                                    None => {},
                                }
                            }
                        } else {
                            proof {
                                assert(pct_decode(rem) is None);
                            }
                            return None;
                        }
                    },
                    _ => {
                        proof {
                            assert(pct_decode(rem) is None);
                        }
                        return None;
                    },
                }
            } else {
                proof {
                    assert(rem.len() < 3);
                    assert(pct_decode(rem) is None);
                }
                return None;
            }
        } else {
            push_char(&mut out, c);
            p = p + 1;
            proof {
                assert(s@.skip(p as int) =~= rem.skip(1));
                match pct_decode(rem.skip(1)) {
                    Some(r2) => {
                        assert(pct_decode(rem) == Some(seq![c] + r2));
                        assert(out@ + r2 =~= out@.drop_last() + (seq![c] + r2));
                    },
                    None => {},
                }
            }
        }
    }
    proof {
        assert(s@.skip(n as int) =~= Seq::<char>::empty());
        assert(pct_decode(s@.skip(n as int)) == Some(Seq::<char>::empty()));
        assert(out@ + Seq::<char>::empty() =~= out@);
    }
    Some(out)
}

/// Parses HTTP query strings into argument maps.
pub trait QueryAnalysis {
    /// Parses `query` by the policy stated above; absent for an empty string,
    /// otherwise exactly the map `query_spec` describes.
    fn analysis(&self, query: &str) -> (r: Option<StrMap>)
        ensures
            match r {
                None => query@.len() == 0,
                Some(m) => query@.len() > 0 && m.wf() && m@ == query_spec(query@),
            },
    ;
}

/// The one parsing policy this crate ships.
pub struct QueryAnalysisDefaultImpl;

impl QueryAnalysis for QueryAnalysisDefaultImpl {
    fn analysis(&self, query: &str) -> (r: Option<StrMap>) {
        let n = query.unicode_len();
        if n == 0 {
            return None;
        }
        let mut m = StrMap::new();
        let mut i: usize = 0;
        proof {
            assert(query@.skip(0) =~= query@);
        }
        loop
            invariant
                n == query@.len(),
                i <= n,
                m.wf(),
                query_spec(query@) == query_fold(query@.skip(i as int), m@),
            ensures
                m.wf(),
                query_spec(query@) == m@,
            decreases n - i,
        {
            let ghost rem = query@.skip(i as int);
            let s_rem = query.substring_char(i, n);
            proof {
                assert(s_rem@ =~= rem);
            }
            let j = find_in(s_rem, '&');
            let token = s_rem.substring_char(0, j);
            proof {
                lemma_find_char(rem, '&');
                assert(token@ =~= rem.take(find_char(rem, '&')));
            }
            let ghost m_before = m@;
            let tn = token.unicode_len();
            let e = find_in(token, '=');
            if e != tn && e != 0 {
                let key_raw = token.substring_char(0, e);
                let val_raw = token.substring_char(e + 1, tn);
                proof {
                    assert(key_raw@ =~= token@.take(find_char(token@, '=')));
                    assert(val_raw@ =~= token@.skip(find_char(token@, '=') + 1));
                }
                if let Some(kk) = pct_decode_str(key_raw) {
                    if let Some(vv) = pct_decode_str(val_raw) {
                        m.insert(kk, vv);
                    }
                }
            }
            proof {
                assert(m@ == insert_token(m_before, token@));
            }
            if i + j == n {
                proof {
                    assert(find_char(rem, '&') == rem.len());
                    assert(query_fold(rem, m_before) == m@);
                }
                break;
            }
            i = i + j + 1;
            proof {
                assert(query@.skip(i as int) =~= rem.skip(find_char(rem, '&') + 1));
                assert(query_fold(rem, m_before) == query_fold(query@.skip(i as int), m@));
            }
        }
        Some(m)
    }
}

} // verus!
