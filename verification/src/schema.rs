use vstd::prelude::*;
use vstd::string::StrSliceExecFns;

use crate::strmap::StrMap;
use crate::text::str_eq;

verus! {

// Runtime message schemas. A backend's methods are described at reflection
// time by ordered field lists; every message value is built from and read
// back through such a list, never through a compiled type.

/// The scalar kinds a dynamic field can take.
#[derive(Clone, Copy, PartialEq, Eq, Structural, Debug)]
pub enum FieldKind {
    Text,
    Integer,
    Boolean,
}

/// Unary or streaming call.
#[derive(Clone, Copy, PartialEq, Eq, Structural, Debug)]
pub enum CallKind {
    Unary,
    Streaming,
}

/// One field of a message schema.
pub struct FieldSchema {
    pub name: String,
    pub kind: FieldKind,
}

/// The mathematical image of a field schema.
pub struct SpecField {
    pub name: Seq<char>,
    pub kind: FieldKind,
}

impl View for FieldSchema {
    type V = SpecField;

    open spec fn view(&self) -> SpecField {
        SpecField { name: self.name@, kind: self.kind }
    }
}

/// The image of an ordered field list.
pub open spec fn fields_view(s: Seq<FieldSchema>) -> Seq<SpecField> {
    s.map_values(|f: FieldSchema| f@)
}

/// A dynamically typed field value.
#[derive(Clone, PartialEq, Eq, Debug)]
pub enum DynValue {
    Text(String),
    Integer(i64),
    Boolean(bool),
}

/// The mathematical image of a dynamic value.
pub enum SpecValue {
    Text(Seq<char>),
    Integer(int),
    Boolean(bool),
}

impl View for DynValue {
    type V = SpecValue;

    open spec fn view(&self) -> SpecValue {
        match self {
            DynValue::Text(s) => SpecValue::Text(s@),
            DynValue::Integer(i) => SpecValue::Integer(*i as int),
            DynValue::Boolean(b) => SpecValue::Boolean(*b),
        }
    }
}

/// The kind a value inhabits.
pub open spec fn kind_of(v: SpecValue) -> FieldKind {
    match v {
        SpecValue::Text(_) => FieldKind::Text,
        SpecValue::Integer(_) => FieldKind::Integer,
        SpecValue::Boolean(_) => FieldKind::Boolean,
    }
}

/// The value an absent field takes.
pub open spec fn default_spec(kind: FieldKind) -> SpecValue {
    match kind {
        FieldKind::Text => SpecValue::Text(Seq::empty()),
        FieldKind::Integer => SpecValue::Integer(0),
        FieldKind::Boolean => SpecValue::Boolean(false),
    }
}

/// Whether the character is a decimal digit.
pub open spec fn is_dec_digit(c: char) -> bool {
    '0' as u32 <= c as u32 && c as u32 <= '9' as u32
}

/// Whether every character is a decimal digit.
pub open spec fn all_dec_digits(s: Seq<char>) -> bool {
    forall|i: int| 0 <= i < s.len() ==> is_dec_digit(#[trigger] s[i])
}

/// The number a digit string denotes.
pub open spec fn digits_val(s: Seq<char>) -> int
    decreases s.len(),
{
    if s.len() == 0 {
        0
    } else {
        digits_val(s.drop_last()) * 10 + (s.last() as u32 - '0' as u32)
    }
}

/// The integer a decimal string denotes: an optional leading minus sign and
/// at least one digit; `None` otherwise.
pub open spec fn int_of_str(s: Seq<char>) -> Option<int> {
    if s.len() == 0 {
        None
    } else if s[0] == '-' {
        if s.len() >= 2 && all_dec_digits(s.skip(1)) {
            Some(-digits_val(s.skip(1)))
        } else {
            None
        }
    } else {
        if all_dec_digits(s) {
            Some(digits_val(s))
        } else {
            None
        }
    }
}

/// A digit string never denotes a negative number.
pub proof fn lemma_digits_val_nonneg(s: Seq<char>)
    requires
        all_dec_digits(s),
    ensures
        digits_val(s) >= 0,
    decreases s.len(),
{
    if s.len() > 0 {
        let s0 = s.drop_last();
        assert(forall|i: int| 0 <= i < s0.len() ==> s0[i] == s[i]);
        lemma_digits_val_nonneg(s0);
    }
}

/// Extending a digit string never shrinks its value.
pub proof fn lemma_digits_val_prefix(s: Seq<char>, m: int)
    requires
        all_dec_digits(s),
        0 <= m <= s.len(),
    ensures
        digits_val(s) >= digits_val(s.take(m)),
    decreases s.len() - m,
{
    if m < s.len() {
        let t = s.take(m + 1);
        assert(t.drop_last() =~= s.take(m));
        assert(all_dec_digits(t)) by {
            assert(forall|i: int| 0 <= i < t.len() ==> t[i] == s[i]);
        }
        assert(all_dec_digits(s.take(m))) by {
            assert(forall|i: int| 0 <= i < m ==> s.take(m)[i] == s[i]);
        }
        lemma_digits_val_nonneg(s.take(m));
        assert(digits_val(t) == digits_val(s.take(m)) * 10 + (t.last() as u32 - '0' as u32));
        assert(is_dec_digit(s[m]));
        assert(digits_val(t) >= digits_val(s.take(m)));
        lemma_digits_val_prefix(s, m + 1);
    } else {
        assert(s.take(m) =~= s);
    }
}

/// Parses the digits of `s` from position `from` on, bounded by `limit`;
/// `None` when a non-digit occurs or the value exceeds `limit`.
fn parse_digits(s: &str, from: usize, limit: u64) -> (r: Option<u64>)
    requires
        from <= s@.len(),
    ensures
        match r {
            Some(v) => all_dec_digits(s@.skip(from as int))
                && v as int == digits_val(s@.skip(from as int))
                && v <= limit,
            None => !all_dec_digits(s@.skip(from as int))
                || digits_val(s@.skip(from as int)) > limit,
        },
{
    let ghost digits = s@.skip(from as int);
    let n = s.unicode_len();
    let mut acc: u64 = 0;
    let mut p: usize = from;
    proof {
        assert(digits.take(0) =~= Seq::<char>::empty());
    }
    while p < n
        invariant
            from <= p <= n,
            n == s@.len(),
            digits == s@.skip(from as int),
            all_dec_digits(digits.take(p - from)),
            acc as int == digits_val(digits.take(p - from)),
            acc <= limit,
        decreases n - p,
    {
        let c = s.get_char(p);
        proof {
            assert(digits[p - from] == s@[p as int]);
        }
        let u = c as u32;
        if !('0' as u32 <= u && u <= '9' as u32) {
            proof {
                assert(!is_dec_digit(digits[p - from]));
            }
            return None;
        }
        let d: u64 = (u - '0' as u32) as u64;
        proof {
            assert(d <= 9);
            assert(digits.take(p - from + 1).drop_last() =~= digits.take(p - from));
            assert(digits.take(p - from + 1).last() == digits[p - from]);
            assert(all_dec_digits(digits.take(p - from + 1))) by {
                let t = digits.take(p - from + 1);
                assert(forall|i: int| 0 <= i < t.len() - 1 ==> t[i] == digits.take(p - from)[i]);
            }
        }
        if acc > limit / 10 || (acc == limit / 10 && d > limit % 10) {
            proof {
                let y = limit as int;
                assert(y == 10 * (y / 10) + y % 10 && 0 <= y % 10 < 10);
                assert(10 * (acc as int) + d > limit);
                assert(digits_val(digits.take(p - from + 1)) > limit);
                if all_dec_digits(digits) {
                    lemma_digits_val_prefix(digits, p - from + 1);
                }
            }
            return None;
        }
        proof {
            let y = limit as int;
            assert(y == 10 * (y / 10) + y % 10 && 0 <= y % 10 < 10);
            assert(10 * (acc as int) + d <= limit);
        }
        acc = 10 * acc + d;
        p = p + 1;
    }
    proof {
        assert(digits.take(n - from) =~= digits);
    }
    Some(acc)
}

/// Parses a decimal string into a 64-bit integer; `None` when the string is
/// not a decimal number or its value does not fit.
pub fn parse_i64(s: &str) -> (r: Option<i64>)
    ensures
        match r {
            Some(v) => int_of_str(s@) == Some(v as int),
            None => match int_of_str(s@) {
                Some(v) => v < i64::MIN || v > i64::MAX,
                None => true,
            },
        },
{
    let n = s.unicode_len();
    if n == 0 {
        return None;
    }
    if s.get_char(0) == '-' {
        if n == 1 {
            proof {
                assert(s@.len() < 2);
            }
            return None;
        }
        // 2^63, the magnitude of i64::MIN
        match parse_digits(s, 1, 9223372036854775808u64) {
            Some(v) => {
                proof {
                    lemma_digits_val_nonneg(s@.skip(1));
                }
                if v == 9223372036854775808u64 {
                    Some(i64::MIN)
                } else {
                    Some(-(v as i64))
                }
            },
            None => None,
        }
    } else {
        match parse_digits(s, 0, i64::MAX as u64) {
            Some(v) => {
                proof {
                    assert(s@.skip(0) =~= s@);
                    lemma_digits_val_nonneg(s@);
                }
                Some(v as i64)
            },
            None => {
                proof {
                    assert(s@.skip(0) =~= s@);
                    if int_of_str(s@) is Some {
                        lemma_digits_val_nonneg(s@);
                    }
                }
                None
            },
        }
    }
}

/// The value a raw textual argument takes at a field of the given kind;
/// `None` when the text cannot be read at that kind.
pub open spec fn coerce_spec(kind: FieldKind, raw: Seq<char>) -> Option<SpecValue> {
    match kind {
        FieldKind::Text => Some(SpecValue::Text(raw)),
        FieldKind::Boolean => if raw == "true"@ {
            Some(SpecValue::Boolean(true))
        } else if raw == "false"@ {
            Some(SpecValue::Boolean(false))
        } else {
            None
        },
        FieldKind::Integer => match int_of_str(raw) {
            Some(v) => if i64::MIN <= v <= i64::MAX {
                Some(SpecValue::Integer(v))
            } else {
                None
            },
            None => None,
        },
    }
}

/// Coerces one raw argument to the kind the schema asks for.
pub fn coerce(kind: FieldKind, raw: String) -> (r: Option<DynValue>)
    ensures
        match r {
            Some(v) => coerce_spec(kind, raw@) == Some(v@),
            None => coerce_spec(kind, raw@) is None,
        },
{
    match kind {
        FieldKind::Text => Some(DynValue::Text(raw)),
        FieldKind::Boolean => {
            if str_eq(raw.as_str(), "true") {
                Some(DynValue::Boolean(true))
            } else if str_eq(raw.as_str(), "false") {
                Some(DynValue::Boolean(false))
            } else {
                None
            }
        },
        FieldKind::Integer => {
            match parse_i64(raw.as_str()) {
                Some(v) => Some(DynValue::Integer(v)),
                None => None,
            }
        },
    }
}

/// The value field `f` takes under argument map `args`: coerced from the
/// matching argument, or the kind's default when the argument is absent.
pub open spec fn field_value(f: SpecField, args: Map<Seq<char>, Seq<char>>) -> Option<SpecValue> {
    if args.contains_key(f.name) {
        coerce_spec(f.kind, args[f.name])
    } else {
        Some(default_spec(f.kind))
    }
}

/// The whole message an argument map builds against a schema, field by field
/// in schema order; `None` as soon as one field cannot be coerced.
pub open spec fn build_fields(
    schema: Seq<SpecField>,
    args: Map<Seq<char>, Seq<char>>,
) -> Option<Seq<(Seq<char>, SpecValue)>>
    decreases schema.len(),
{
    if schema.len() == 0 {
        Some(Seq::empty())
    } else {
        match (build_fields(schema.drop_last(), args), field_value(schema.last(), args)) {
            (Some(m), Some(v)) => Some(m.push((schema.last().name, v))),
            _ => None,
        }
    }
}

/// The image of a built message.
pub open spec fn message_view(m: Seq<(String, DynValue)>) -> Seq<(Seq<char>, SpecValue)> {
    m.map_values(|p: (String, DynValue)| (p.0@, p.1@))
}

/// Builds the message an argument map describes against a schema; the error
/// names the first field whose argument cannot be coerced.
pub fn build_message(schema: &Vec<FieldSchema>, args: &StrMap) -> (r: Result<
    Vec<(String, DynValue)>,
    String,
>)
    requires
        args.wf(),
    ensures
        match r {
            Ok(m) => build_fields(fields_view(schema@), args@) == Some(message_view(m@)),
            Err(name) => build_fields(fields_view(schema@), args@) is None && (exists|i: int|
                0 <= i < schema@.len()
                && field_value(fields_view(schema@)[i], args@) is None
                && (forall|j: int| 0 <= j < i
                    ==> field_value(#[trigger] fields_view(schema@)[j], args@) is Some)
                && name@ == fields_view(schema@)[i].name),
        },
{
    let ghost sv = fields_view(schema@);
    let n = schema.len();
    let mut out: Vec<(String, DynValue)> = Vec::new();
    let mut i: usize = 0;
    proof {
        assert(sv.take(0) =~= Seq::<SpecField>::empty());
        assert(message_view(out@) =~= Seq::<(Seq<char>, SpecValue)>::empty());
    }
    while i < n
        invariant
            args.wf(),
            n == schema@.len(),
            sv == fields_view(schema@),
            i <= n,
            build_fields(sv.take(i as int), args@) == Some(message_view(out@)),
        decreases n - i,
    {
        let f = &schema[i];
        proof {
            assert(sv[i as int] == f@);
        }
        let raw = args.get(f.name.as_str());
        let value: DynValue = match raw {
            Some(text) => {
                match coerce(f.kind, text) {
                    Some(v) => v,
                    None => {
                        proof {
                            assert(field_value(sv[i as int], args@) is None);
                            lemma_build_fields_failure(sv, args@, i as int);
                            assert forall|j: int| 0 <= j < i
                                implies field_value(#[trigger] sv[j], args@) is Some by {
                                lemma_build_fields_success(sv.take(i as int), args@, j);
                            }
                        }
                        return Err(f.name.clone());
                    },
                }
            },
            None => {
                match f.kind {
                    FieldKind::Text => DynValue::Text(String::new()),
                    FieldKind::Integer => DynValue::Integer(0),
                    FieldKind::Boolean => DynValue::Boolean(false),
                }
            },
        };
        proof {
            assert(field_value(sv[i as int], args@) == Some(value@));
        }
        out.push((f.name.clone(), value));
        i = i + 1;
        proof {
            assert(sv.take(i as int).drop_last() =~= sv.take(i - 1));
            assert(sv.take(i as int).last() == sv[i - 1]);
            assert(message_view(out@) =~= message_view(out@.drop_last()).push((sv[i - 1].name, out@.last().1@)));
        }
    }
    proof {
        assert(sv.take(n as int) =~= sv);
    }
    Ok(out)
}

/// When one field of a schema cannot be built, the whole message cannot.
proof fn lemma_build_fields_failure(schema: Seq<SpecField>, args: Map<Seq<char>, Seq<char>>, i: int)
    requires
        0 <= i < schema.len(),
        field_value(schema[i], args) is None,
    ensures
        build_fields(schema, args) is None,
    decreases schema.len(),
{
    if schema.len() > 0 {
        if i == schema.len() - 1 {
        } else {
            assert(schema.drop_last()[i] == schema[i]);
            lemma_build_fields_failure(schema.drop_last(), args, i);
        }
    }
}

/// When a whole message builds, each of its fields does.
proof fn lemma_build_fields_success(schema: Seq<SpecField>, args: Map<Seq<char>, Seq<char>>, j: int)
    requires
        0 <= j < schema.len(),
        build_fields(schema, args) is Some,
    ensures
        field_value(schema[j], args) is Some,
    decreases schema.len(),
{
    if schema.len() > 0 {
        if j == schema.len() - 1 {
        } else {
            assert(schema.drop_last()[j] == schema[j]);
            lemma_build_fields_success(schema.drop_last(), args, j);
        }
    }
}

/// The value the reply holds for an output field: the first reply field with
/// the right name and kind, or the kind's default.
pub open spec fn lookup_value(
    raw: Seq<(Seq<char>, SpecValue)>,
    name: Seq<char>,
    kind: FieldKind,
) -> SpecValue
    decreases raw.len(),
{
    if raw.len() == 0 {
        default_spec(kind)
    } else if raw[0].0 == name && kind_of(raw[0].1) == kind {
        raw[0].1
    } else {
        lookup_value(raw.skip(1), name, kind)
    }
}

/// The reply mirrored through an output schema, field by field in schema
/// order.
pub open spec fn decode_fields(
    schema: Seq<SpecField>,
    raw: Seq<(Seq<char>, SpecValue)>,
) -> Seq<(Seq<char>, SpecValue)> {
    Seq::new(schema.len(), |i: int| (schema[i].name, lookup_value(raw, schema[i].name, schema[i].kind)))
}

/// The kind of an executable value.
fn exec_kind_of(v: &DynValue) -> (k: FieldKind)
    ensures
        k == kind_of(v@),
{
    match v {
        DynValue::Text(_) => FieldKind::Text,
        DynValue::Integer(_) => FieldKind::Integer,
        DynValue::Boolean(_) => FieldKind::Boolean,
    }
}

/// Copies an executable value.
fn copy_value(v: &DynValue) -> (r: DynValue)
    ensures
        r@ == v@,
{
    match v {
        DynValue::Text(s) => DynValue::Text(s.clone()),
        DynValue::Integer(i) => DynValue::Integer(*i),
        DynValue::Boolean(b) => DynValue::Boolean(*b),
    }
}

/// The default executable value of a kind.
fn default_value(kind: FieldKind) -> (r: DynValue)
    ensures
        r@ == default_spec(kind),
{
    match kind {
        FieldKind::Text => DynValue::Text(String::new()),
        FieldKind::Integer => DynValue::Integer(0),
        FieldKind::Boolean => DynValue::Boolean(false),
    }
}

/// Finds the reply value for one output field, as `lookup_value` states.
fn lookup_field(raw: &Vec<(String, DynValue)>, name: &str, kind: FieldKind) -> (r: DynValue)
    ensures
        r@ == lookup_value(message_view(raw@), name@, kind),
{
    let n = raw.len();
    let mut i: usize = 0;
    proof {
        assert(message_view(raw@).skip(0) =~= message_view(raw@));
    }
    while i < n
        invariant
            n == raw@.len(),
            i <= n,
            lookup_value(message_view(raw@), name@, kind)
                == lookup_value(message_view(raw@).skip(i as int), name@, kind),
        decreases n - i,
    {
        let ghost rem = message_view(raw@).skip(i as int);
        proof {
            assert(rem[0] == (raw@[i as int].0@, raw@[i as int].1@));
            assert(rem.skip(1) =~= message_view(raw@).skip(i as int + 1));
        }
        if str_eq(raw[i].0.as_str(), name) && exec_kind_of(&raw[i].1) == kind {
            return copy_value(&raw[i].1);
        }
        i = i + 1;
    }
    proof {
        assert(message_view(raw@).skip(n as int) =~= Seq::<(Seq<char>, SpecValue)>::empty());
    }
    default_value(kind)
}

/// Mirrors a reply through the output schema, as `decode_fields` states.
pub fn decode_message(schema: &Vec<FieldSchema>, raw: &Vec<(String, DynValue)>) -> (r: Vec<
    (String, DynValue),
>)
    ensures
        message_view(r@) == decode_fields(fields_view(schema@), message_view(raw@)),
{
    let ghost sv = fields_view(schema@);
    let n = schema.len();
    let mut out: Vec<(String, DynValue)> = Vec::new();
    let mut i: usize = 0;
    while i < n
        invariant
            n == schema@.len(),
            sv == fields_view(schema@),
            i <= n,
            out@.len() == i,
            message_view(out@) =~= decode_fields(sv, message_view(raw@)).take(i as int),
        decreases n - i,
    {
        let f = &schema[i];
        proof {
            assert(sv[i as int] == f@);
        }
        let v = lookup_field(raw, f.name.as_str(), f.kind);
        out.push((f.name.clone(), v));
        i = i + 1;
        proof {
            assert(message_view(out@) =~= decode_fields(sv, message_view(raw@)).take(i as int));
        }
    }
    proof {
        assert(decode_fields(sv, message_view(raw@)).take(n as int) =~= decode_fields(sv, message_view(raw@)));
    }
    out
}

} // verus!
