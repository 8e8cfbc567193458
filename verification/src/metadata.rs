use vstd::prelude::*;
use vstd::string::StrSliceExecFns;

use crate::strmap::StrMap;
use crate::strmap::lemma_pairs_to_map;
use crate::strmap::pairs_has_key;
use crate::text::push_char;
use crate::text::str_eq;

verus! {

// Header filtering. A header passes in either direction only when its
// lowercased name stands in the configured allow-list, and transport-specific
// names never pass, whatever the allow-list says. The allow-lists are fixed
// when the filter is built and immutable thereafter.

/// ASCII lowercasing of one character.
pub open spec fn lower_char(c: char) -> char {
    if 'A' as u32 <= c as u32 && c as u32 <= 'Z' as u32 {
        ((c as u32 + 32) as u8) as char
    } else {
        c
    }
}

/// ASCII lowercasing of a character sequence.
pub open spec fn lower_seq(s: Seq<char>) -> Seq<char> {
    s.map_values(|c: char| lower_char(c))
}

/// Whether a lowercased header name is transport-specific and so never
/// forwarded in either direction.
pub open spec fn is_transport_header(k: Seq<char>) -> bool {
    ||| k == "host"@
    ||| k == "content-length"@
    ||| k == "connection"@
    ||| k == "keep-alive"@
    ||| k == "proxy-authenticate"@
    ||| k == "proxy-authorization"@
    ||| k == "te"@
    ||| k == "trailer"@
    ||| k == "transfer-encoding"@
    ||| k == "upgrade"@
}

/// Whether the (lowercased) name `k` stands in the stored list.
pub open spec fn in_list(l: Seq<String>, k: Seq<char>) -> bool {
    exists|i: int| 0 <= i < l.len() && (#[trigger] l[i])@ == k
}

/// Whether `k` is the lowercasing of some entry of the list.
pub open spec fn in_list_lowered(l: Seq<String>, k: Seq<char>) -> bool {
    exists|i: int| 0 <= i < l.len() && lower_seq((#[trigger] l[i])@) == k
}

/// ASCII-lowercases a string.
pub fn lower_str(s: &str) -> (r: String)
    ensures
        r@ == lower_seq(s@),
{
    let n = s.unicode_len();
    let mut out = String::new();
    let mut p: usize = 0;
    while p < n
        invariant
            n == s@.len(),
            p <= n,
            out@ == lower_seq(s@.take(p as int)),
        decreases n - p,
    {
        let c = s.get_char(p);
        let u = c as u32;
        let d: char = if 'A' as u32 <= u && u <= 'Z' as u32 {
            ((u + 32) as u8) as char
        } else {
            c
        };
        proof {
            assert(d == lower_char(c));
        }
        push_char(&mut out, d);
        p = p + 1;
        proof {
            assert(s@.take(p as int) =~= s@.take(p - 1).push(c));
            assert(lower_seq(s@.take(p as int)) =~= lower_seq(s@.take(p - 1)).push(lower_char(c)));
        }
    }
    proof {
        assert(s@.take(n as int) =~= s@);
    }
    out
}

/// Whether the list holds `k`, compared character by character.
fn list_contains(l: &Vec<String>, k: &str) -> (r: bool)
    ensures
        r == in_list(l@, k@),
{
    let n = l.len();
    let mut i: usize = 0;
    while i < n
        invariant
            n == l@.len(),
            i <= n,
            forall|j: int| 0 <= j < i ==> (#[trigger] l@[j])@ != k@,
        decreases n - i,
    {
        if str_eq(l[i].as_str(), k) {
            return true;
        }
        i += 1;
    }
    false
}

/// Whether the lowercased name is transport-specific.
fn is_transport_str(k: &str) -> (r: bool)
    ensures
        r == is_transport_header(k@),
{
    str_eq(k, "host") || str_eq(k, "content-length") || str_eq(k, "connection")
        || str_eq(k, "keep-alive") || str_eq(k, "proxy-authenticate")
        || str_eq(k, "proxy-authorization") || str_eq(k, "te") || str_eq(k, "trailer")
        || str_eq(k, "transfer-encoding") || str_eq(k, "upgrade")
}

/// What passes a filter with allow-list `allow`: the name, lowercased, is
/// allowed and is not transport-specific.
pub open spec fn passes(allow: Seq<String>, k: Seq<char>) -> bool {
    in_list(allow, lower_seq(k)) && !is_transport_header(lower_seq(k))
}

/// Keeps exactly the entries whose name passes the allow-list.
fn filter_allowed(allow: &Vec<String>, header: &StrMap) -> (r: StrMap)
    requires
        header.wf(),
    ensures
        r.wf(),
        forall|k: Seq<char>| #[trigger] r@.contains_key(k)
            <==> header@.contains_key(k) && passes(allow@, k),
        forall|k: Seq<char>| #[trigger] r@.contains_key(k) ==> r@[k] == header@[k],
{
    proof {
        lemma_pairs_to_map(header.pairs());
    }
    let mut r = StrMap::new();
    let n = header.len();
    let mut i: usize = 0;
    while i < n
        invariant
            header.wf(),
            r.wf(),
            n == header.pairs().len(),
            i <= n,
            forall|k: Seq<char>| #[trigger] r@.contains_key(k)
                <==> pairs_has_key(header.pairs().take(i as int), k) && passes(allow@, k),
            forall|k: Seq<char>| #[trigger] r@.contains_key(k) ==> r@[k] == header@[k],
        decreases n - i,
    {
        let ghost pre = header.pairs().take(i as int);
        let ghost post = header.pairs().take(i as int + 1);
        proof {
            assert(post =~= pre.push(header.pairs()[i as int]));
            assert forall|k: Seq<char>| #[trigger] pairs_has_key(post, k)
                implies pairs_has_key(pre, k) || header.pairs()[i as int].0 == k by {
                let x = choose|x: int| 0 <= x < post.len() && (#[trigger] post[x]).0 == k;
                if x < pre.len() {
                    assert(pre[x].0 == k);
                }
            }
            assert forall|k: Seq<char>|
                pairs_has_key(pre, k) || header.pairs()[i as int].0 == k
                implies #[trigger] pairs_has_key(post, k) by {
                if pairs_has_key(pre, k) {
                    let x = choose|x: int| 0 <= x < pre.len() && (#[trigger] pre[x]).0 == k;
                    assert(post[x].0 == k);
                } else {
                    assert(post[post.len() - 1].0 == k);
                }
            }
        }
        let name = header.key_at(i);
        let low = lower_str(name.as_str());
        if list_contains(allow, low.as_str()) && !is_transport_str(low.as_str()) {
            let value = header.val_at(i);
            proof {
                lemma_pairs_to_map(header.pairs());
                assert(header@[name@] == header.pairs()[i as int].1);
            }
            r.insert(name.clone(), value.clone());
        }
        i += 1;
    }
    proof {
        assert(header.pairs().take(n as int) =~= header.pairs());
        lemma_pairs_to_map(header.pairs());
    }
    r
}

/// Filters HTTP headers into call metadata, and call-result metadata back
/// into HTTP headers, through two independently configured allow-lists.
pub trait MetadataAnalysis {
    /// Whether the filter forwards an inbound header with this lowercased name.
    spec fn request_allowed(&self, name: Seq<char>) -> bool;

    /// Whether the filter emits an outbound header with this lowercased name.
    spec fn response_allowed(&self, name: Seq<char>) -> bool;

    /// Keeps exactly the inbound headers whose lowercased name is allowed and
    /// not transport-specific; values pass unchanged.
    fn request(&self, header: &StrMap) -> (r: StrMap)
        requires
            header.wf(),
        ensures
            r.wf(),
            forall|k: Seq<char>| #[trigger] r@.contains_key(k)
                <==> header@.contains_key(k)
                    && self.request_allowed(lower_seq(k))
                    && !is_transport_header(lower_seq(k)),
            forall|k: Seq<char>| #[trigger] r@.contains_key(k) ==> r@[k] == header@[k],
    ;

    /// The same filtering, from call-result metadata into outbound headers.
    fn response(&self, header: StrMap) -> (r: StrMap)
        requires
            header.wf(),
        ensures
            r.wf(),
            forall|k: Seq<char>| #[trigger] r@.contains_key(k)
                <==> header@.contains_key(k)
                    && self.response_allowed(lower_seq(k))
                    && !is_transport_header(lower_seq(k)),
            forall|k: Seq<char>| #[trigger] r@.contains_key(k) ==> r@[k] == header@[k],
    ;
}

/// The filter this crate ships: declarative allow-lists, lowercased once at
/// construction and immutable thereafter.
pub struct MetadataAnalysisDefaultImpl {
    request_allow: Vec<String>,
    response_allow: Vec<String>,
}

impl MetadataAnalysisDefaultImpl {
    /// Builds the filter from the two configured name lists; matching is
    /// case-insensitive, so each entry is stored lowercased.
    pub fn from_lists(request_names: Vec<String>, response_names: Vec<String>) -> (r: Self)
        ensures
            forall|k: Seq<char>| #[trigger] r.request_allowed(k)
                <==> in_list_lowered(request_names@, k),
            forall|k: Seq<char>| #[trigger] r.response_allowed(k)
                <==> in_list_lowered(response_names@, k),
    {
        let request_allow = lower_all(&request_names);
        let response_allow = lower_all(&response_names);
        let r = MetadataAnalysisDefaultImpl { request_allow, response_allow };
        proof {
            lemma_lower_all_membership(request_allow@, request_names@);
            lemma_lower_all_membership(response_allow@, response_names@);
        }
        r
    }
}

/// Lowercases every entry of a name list.
fn lower_all(names: &Vec<String>) -> (r: Vec<String>)
    ensures
        r@.len() == names@.len(),
        forall|j: int| 0 <= j < names@.len() ==> (#[trigger] r@[j])@ == lower_seq(names@[j]@),
{
    let n = names.len();
    let mut out: Vec<String> = Vec::new();
    let mut i: usize = 0;
    while i < n
        invariant
            n == names@.len(),
            i <= n,
            out@.len() == i,
            forall|j: int| 0 <= j < i ==> (#[trigger] out@[j])@ == lower_seq(names@[j]@),
        decreases n - i,
    {
        let low = lower_str(names[i].as_str());
        out.push(low);
        i += 1;
    }
    out
}

/// Membership in an element-wise lowered list is membership-after-lowering
/// in the original.
proof fn lemma_lower_all_membership(lowered: Seq<String>, names: Seq<String>)
    requires
        lowered.len() == names.len(),
        forall|j: int| 0 <= j < names.len() ==> (#[trigger] lowered[j])@ == lower_seq(names[j]@),
    ensures
        forall|k: Seq<char>| #[trigger] in_list(lowered, k) <==> in_list_lowered(names, k),
{
    assert forall|k: Seq<char>| #[trigger] in_list(lowered, k)
        implies in_list_lowered(names, k) by {
        let i = choose|i: int| 0 <= i < lowered.len() && (#[trigger] lowered[i])@ == k;
        assert(lower_seq(names[i]@) == k);
    }
    assert forall|k: Seq<char>| in_list_lowered(names, k)
        implies #[trigger] in_list(lowered, k) by {
        let i = choose|i: int| 0 <= i < names.len() && lower_seq((#[trigger] names[i])@) == k;
        assert(lowered[i]@ == k);
    }
}

impl MetadataAnalysis for MetadataAnalysisDefaultImpl {
    closed spec fn request_allowed(&self, name: Seq<char>) -> bool {
        in_list(self.request_allow@, name)
    }

    closed spec fn response_allowed(&self, name: Seq<char>) -> bool {
        in_list(self.response_allow@, name)
    }

    fn request(&self, header: &StrMap) -> (r: StrMap) {
        filter_allowed(&self.request_allow, header)
    }

    fn response(&self, header: StrMap) -> (r: StrMap) {
        filter_allowed(&self.response_allow, &header)
    }
}

/// A transport-specific header never reaches the filtered result, whatever
/// the allow-lists hold: of any result that meets the `request` or `response`
/// contract, the blocked name is absent.
pub proof fn lemma_transport_never_forwarded(
    filtered: Map<Seq<char>, Seq<char>>,
    source: Map<Seq<char>, Seq<char>>,
    allowed: spec_fn(Seq<char>) -> bool,
    k: Seq<char>,
)
    requires
        forall|x: Seq<char>| #[trigger] filtered.contains_key(x)
            <==> source.contains_key(x) && allowed(lower_seq(x)) && !is_transport_header(lower_seq(x)),
        is_transport_header(lower_seq(k)),
    ensures
        !filtered.contains_key(k),
{
}

} // verus!
