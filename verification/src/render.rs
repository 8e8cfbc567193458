use vstd::prelude::*;
use vstd::string::StrSliceExecFns;
use vstd::string::StringExecFns;

use crate::schema::DynValue;
use crate::schema::SpecValue;
use crate::schema::message_view;
use crate::text::push_char;

verus! {

// Rendering of response bodies: a flat field map, or a structured
// `{code, message}` error, serialized as one JSON object. Only the two JSON
// metacharacters, the quote and the backslash, are escaped; field values are
// expected to carry printable text.

/// The decimal digits of a non-negative number, most significant first.
pub open spec fn dec_digits(n: int) -> Seq<char>
    decreases n,
{
    if n < 10 {
        seq![((n + '0' as u32) as u8) as char]
    } else {
        dec_digits(n / 10).push((((n % 10) + '0' as u32) as u8) as char)
    }
}

/// The decimal rendering of an integer.
pub open spec fn int_str(v: int) -> Seq<char> {
    if v < 0 {
        seq!['-'] + dec_digits(-v)
    } else {
        dec_digits(v)
    }
}

/// A sequence reversed.
pub open spec fn rev_seq(s: Seq<char>) -> Seq<char> {
    Seq::new(s.len(), |k: int| s[s.len() - 1 - k])
}

/// Renders a 64-bit number in decimal.
pub fn u64_to_string(n: u64) -> (r: String)
    ensures
        r@ == dec_digits(n as int),
{
    let mut digits: Vec<char> = Vec::new();
    let mut cur: u64 = n;
    proof {
        assert(rev_seq(digits@) =~= Seq::<char>::empty());
        assert(dec_digits(n as int) =~= dec_digits(cur as int) + rev_seq(digits@));
    }
    loop
        invariant_except_break
            dec_digits(n as int) =~= dec_digits(cur as int) + rev_seq(digits@),
        ensures
            dec_digits(n as int) =~= rev_seq(digits@),
        decreases cur,
    {
        let ghost prev = cur;
        let ghost old_digits = digits@;
        let d: u64 = cur % 10;
        let c: char = ((d as u32 + '0' as u32) as u8) as char;
        digits.push(c);
        cur = cur / 10;
        proof {
            assert(rev_seq(digits@) =~= seq![c] + rev_seq(old_digits));
            if prev < 10 {
                assert(cur == 0);
                assert(dec_digits(prev as int) =~= seq![c]);
            } else {
                assert(dec_digits(prev as int) == dec_digits(prev as int / 10).push(c));
                assert(dec_digits(prev as int) =~= dec_digits(cur as int) + seq![c]);
            }
            assert(dec_digits(cur as int) + rev_seq(digits@)
                =~= (dec_digits(cur as int) + seq![c]) + rev_seq(old_digits));
        }
        if cur == 0 {
            proof {
                assert(dec_digits(0) =~= seq!['0']);
                if prev >= 10 {
                    assert(dec_digits(n as int) =~= dec_digits(cur as int) + rev_seq(digits@));
                }
                assert(dec_digits(n as int) =~= rev_seq(digits@));
            }
            break;
        }
    }
    let m = digits.len();
    let mut out = String::new();
    let mut i: usize = m;
    while i > 0
        invariant
            m == digits@.len(),
            i <= m,
            out@ =~= rev_seq(digits@).take(m - i),
        decreases i,
    {
        i = i - 1;
        push_char(&mut out, digits[i]);
        proof {
            assert(out@ =~= rev_seq(digits@).take(m - i));
        }
    }
    proof {
        assert(rev_seq(digits@).take(m as int) =~= rev_seq(digits@));
    }
    out
}

/// Renders a signed 64-bit number in decimal.
pub fn i64_to_string(v: i64) -> (r: String)
    ensures
        r@ == int_str(v as int),
{
    if v >= 0 {
        u64_to_string(v as u64)
    } else {
        // the magnitude; i64::MIN has none of its own in i64
        let m: u64 = if v == i64::MIN {
            9223372036854775808u64
        } else {
            (-v) as u64
        };
        let mut out = String::new();
        push_char(&mut out, '-');
        let ds = u64_to_string(m);
        out.append(ds.as_str());
        proof {
            assert(out@ =~= seq!['-'] + dec_digits(m as int));
        }
        out
    }
}

/// JSON escaping: the quote and the backslash, nothing else.
pub open spec fn json_escape(s: Seq<char>) -> Seq<char>
    decreases s.len(),
{
    if s.len() == 0 {
        Seq::empty()
    } else {
        (if s[0] == '"' {
            seq!['\\', '"']
        } else if s[0] == '\\' {
            seq!['\\', '\\']
        } else {
            seq![s[0]]
        }) + json_escape(s.skip(1))
    }
}

/// Escapes a string for a JSON literal.
pub fn escape_str(s: &str) -> (r: String)
    ensures
        r@ == json_escape(s@),
{
    let n = s.unicode_len();
    let mut out = String::new();
    let mut p: usize = 0;
    proof {
        assert(s@.skip(0) =~= s@);
    }
    while p < n
        invariant
            n == s@.len(),
            p <= n,
            json_escape(s@) =~= out@ + json_escape(s@.skip(p as int)),
        decreases n - p,
    {
        let ghost rem = s@.skip(p as int);
        let c = s.get_char(p);
        proof {
            assert(rem[0] == s@[p as int]);
            assert(rem.skip(1) =~= s@.skip(p as int + 1));
        }
        if c == '"' {
            push_char(&mut out, '\\');
            push_char(&mut out, '"');
            proof {
                assert(out@ =~= out@.subrange(0, out@.len() - 2) + seq!['\\', '"']);
            }
        } else if c == '\\' {
            push_char(&mut out, '\\');
            push_char(&mut out, '\\');
            proof {
                assert(out@ =~= out@.subrange(0, out@.len() - 2) + seq!['\\', '\\']);
            }
        } else {
            push_char(&mut out, c);
            proof {
                assert(out@ =~= out@.subrange(0, out@.len() - 1) + seq![c]);
            }
        }
        p = p + 1;
        proof {
            assert(json_escape(s@) =~= out@ + json_escape(s@.skip(p as int)));
        }
    }
    proof {
        assert(s@.skip(n as int) =~= Seq::<char>::empty());
    }
    out
}

/// The JSON rendering of one value.
pub open spec fn json_value(v: SpecValue) -> Seq<char> {
    match v {
        SpecValue::Text(s) => seq!['"'] + json_escape(s) + seq!['"'],
        SpecValue::Integer(i) => int_str(i),
        SpecValue::Boolean(b) => if b {
            "true"@
        } else {
            "false"@
        },
    }
}

/// One `"name":value` member.
pub open spec fn json_member(p: (Seq<char>, SpecValue)) -> Seq<char> {
    seq!['"'] + json_escape(p.0) + seq!['"', ':'] + json_value(p.1)
}

/// The members after the first, each preceded by a comma.
pub open spec fn json_tail(fields: Seq<(Seq<char>, SpecValue)>) -> Seq<char>
    decreases fields.len(),
{
    if fields.len() == 0 {
        Seq::empty()
    } else {
        seq![','] + json_member(fields[0]) + json_tail(fields.skip(1))
    }
}

/// A flat field map as one JSON object, fields in order.
pub open spec fn json_object(fields: Seq<(Seq<char>, SpecValue)>) -> Seq<char> {
    if fields.len() == 0 {
        seq!['{', '}']
    } else {
        seq!['{'] + json_member(fields[0]) + json_tail(fields.skip(1)) + seq!['}']
    }
}

/// Appends one rendered value.
fn append_value(out: &mut String, v: &DynValue)
    ensures
        final(out)@ == old(out)@ + json_value(v@),
{
    match v {
        DynValue::Text(s) => {
            push_char(out, '"');
            let e = escape_str(s.as_str());
            out.append(e.as_str());
            push_char(out, '"');
            proof {
                assert(out@ =~= old(out)@ + json_value(v@));
            }
        },
        DynValue::Integer(i) => {
            let ds = i64_to_string(*i);
            out.append(ds.as_str());
        },
        DynValue::Boolean(b) => {
            if *b {
                out.append("true");
            } else {
                out.append("false");
            }
        },
    }
}

/// Appends one rendered member.
fn append_member(out: &mut String, name: &String, v: &DynValue)
    ensures
        final(out)@ == old(out)@ + json_member((name@, v@)),
{
    push_char(out, '"');
    let e = escape_str(name.as_str());
    out.append(e.as_str());
    push_char(out, '"');
    push_char(out, ':');
    append_value(out, v);
    proof {
        assert(out@ =~= old(out)@ + json_member((name@, v@)));
    }
}

/// Renders a field map as one JSON object, as `json_object` states.
pub fn render_object(fields: &Vec<(String, DynValue)>) -> (r: String)
    ensures
        r@ == json_object(message_view(fields@)),
{
    let ghost mv = message_view(fields@);
    let n = fields.len();
    let mut out = String::new();
    push_char(&mut out, '{');
    if n == 0 {
        push_char(&mut out, '}');
        proof {
            assert(out@ =~= json_object(mv));
        }
        return out;
    }
    proof {
        assert(mv[0] == (fields@[0].0@, fields@[0].1@));
    }
    append_member(&mut out, &fields[0].0, &fields[0].1);
    let mut i: usize = 1;
    while i < n
        invariant
            n == fields@.len(),
            mv == message_view(fields@),
            n >= 1,
            1 <= i <= n,
            out@ + json_tail(mv.skip(i as int)) + seq!['}'] =~= json_object(mv),
        decreases n - i,
    {
        let ghost rem = mv.skip(i as int);
        proof {
            assert(rem[0] == (fields@[i as int].0@, fields@[i as int].1@));
            assert(rem.skip(1) =~= mv.skip(i as int + 1));
        }
        push_char(&mut out, ',');
        append_member(&mut out, &fields[i].0, &fields[i].1);
        i = i + 1;
        proof {
            assert(out@ + json_tail(mv.skip(i as int)) + seq!['}'] =~= json_object(mv));
        }
    }
    push_char(&mut out, '}');
    proof {
        assert(mv.skip(n as int) =~= Seq::<(Seq<char>, SpecValue)>::empty());
        assert(out@ =~= json_object(mv));
    }
    out
}

/// The structured error body: `{"code":c,"message":"m"}`.
pub open spec fn json_error(code: int, message: Seq<char>) -> Seq<char> {
    "{\"code\":"@ + int_str(code) + ",\"message\":\""@ + json_escape(message) + "\"}"@
}

/// Renders the structured error body, as `json_error` states.
pub fn render_error(code: u16, message: &str) -> (r: String)
    ensures
        r@ == json_error(code as int, message@),
{
    let mut out = String::new();
    out.append("{\"code\":");
    let ds = u64_to_string(code as u64);
    out.append(ds.as_str());
    out.append(",\"message\":\"");
    let e = escape_str(message);
    out.append(e.as_str());
    out.append("\"}");
    proof {
        assert(out@ =~= json_error(code as int, message@));
    }
    out
}

} // verus!
