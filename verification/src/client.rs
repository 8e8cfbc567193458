use vstd::prelude::*;

use crate::schema::CallKind;
use crate::schema::DynValue;
use crate::schema::FieldSchema;
use crate::schema::SpecField;
use crate::schema::build_fields;
use crate::schema::build_message;
use crate::schema::decode_fields;
use crate::schema::decode_message;
use crate::schema::field_value;
use crate::schema::fields_view;
use crate::schema::message_view;
use crate::status::CallFailure;
use crate::strmap::StrMap;
use crate::text::str_eq;

verus! {

// The dynamic client: one backend's identity and the method descriptors a
// reflection session produced, cached once and never mutated in place. A
// refresh builds a new instance; holders of an old one keep a fully working
// value. The network call itself is not made here: `begin_invoke` turns a
// request into a transport-ready plan, and `finish` turns what the
// transport brought back into the call's result, so every decision around
// the wire is checked while the wire stays outside.

/// One method discovered by reflection.
pub struct MethodSchema {
    /// The method path, unique within a client.
    pub path: String,
    /// The input message type name, for diagnostics.
    pub input_type: String,
    /// The output message type name, for diagnostics.
    pub output_type: String,
    /// The ordered input field schema.
    pub input: Vec<FieldSchema>,
    /// The ordered output field schema.
    pub output: Vec<FieldSchema>,
    /// Whether the method is unary or streaming.
    pub kind: CallKind,
}

/// The mathematical image of a method descriptor.
pub struct SpecMethod {
    pub path: Seq<char>,
    pub input_type: Seq<char>,
    pub output_type: Seq<char>,
    pub input: Seq<SpecField>,
    pub output: Seq<SpecField>,
    pub kind: CallKind,
}

impl View for MethodSchema {
    type V = SpecMethod;

    open spec fn view(&self) -> SpecMethod {
        SpecMethod {
            path: self.path@,
            input_type: self.input_type@,
            output_type: self.output_type@,
            input: fields_view(self.input@),
            output: fields_view(self.output@),
            kind: self.kind,
        }
    }
}

/// The image of a descriptor list.
pub open spec fn methods_view(s: Seq<MethodSchema>) -> Seq<SpecMethod> {
    s.map_values(|m: MethodSchema| m@)
}

/// No two descriptors share a path.
pub open spec fn paths_unique(s: Seq<SpecMethod>) -> bool {
    forall|i: int, j: int| 0 <= i < j < s.len()
        ==> (#[trigger] s[i]).path != (#[trigger] s[j]).path
}

/// A dynamic client: backend name and address, and the cached descriptors.
pub struct DynClient {
    name: String,
    addr: String,
    methods: Vec<MethodSchema>,
}

impl DynClient {
    /// The backend's name.
    pub closed spec fn spec_name(&self) -> Seq<char> {
        self.name@
    }

    /// The backend's address.
    pub closed spec fn spec_addr(&self) -> Seq<char> {
        self.addr@
    }

    /// The cached descriptors, in reflection order.
    pub closed spec fn methods(&self) -> Seq<SpecMethod> {
        methods_view(self.methods@)
    }

    /// Well-formed: no two descriptors share a path.
    pub open spec fn wf(&self) -> bool {
        paths_unique(self.methods())
    }

    /// Whether some descriptor has this path.
    pub open spec fn has_method(&self, path: Seq<char>) -> bool {
        exists|i: int| 0 <= i < self.methods().len() && (#[trigger] self.methods()[i]).path == path
    }

    /// The index of the descriptor with this path.
    pub open spec fn method_index(&self, path: Seq<char>) -> int {
        choose|i: int| 0 <= i < self.methods().len() && (#[trigger] self.methods()[i]).path == path
    }

    /// The descriptor with this path.
    pub open spec fn method_for(&self, path: Seq<char>) -> SpecMethod {
        self.methods()[self.method_index(path)]
    }

    /// Builds a client over the descriptors a reflection session produced;
    /// `None` when two descriptors share a path.
    pub fn new(name: String, addr: String, methods: Vec<MethodSchema>) -> (r: Option<DynClient>)
        ensures
            match r {
                Some(c) => c.wf() && c.spec_name() == name@ && c.spec_addr() == addr@
                    && c.methods() == methods_view(methods@),
                None => !paths_unique(methods_view(methods@)),
            },
    {
        if check_paths_unique(&methods) {
            Some(DynClient { name, addr, methods })
        } else {
            None
        }
    }

    /// The backend's name.
    pub fn name(&self) -> (r: &String)
        ensures
            r@ == self.spec_name(),
    {
        &self.name
    }

    /// The backend's address.
    pub fn addr(&self) -> (r: &String)
        ensures
            r@ == self.spec_addr(),
    {
        &self.addr
    }

    /// The cached `(path, input type, output type)` triples, for diagnostics.
    pub fn method_list(&self) -> (r: Vec<(String, String, String)>)
        ensures
            r@.len() == self.methods().len(),
            forall|i: int| 0 <= i < r@.len()
                ==> (#[trigger] r@[i]).0@ == self.methods()[i].path
                    && r@[i].1@ == self.methods()[i].input_type
                    && r@[i].2@ == self.methods()[i].output_type,
    {
        let n = self.methods.len();
        let mut out: Vec<(String, String, String)> = Vec::new();
        let mut i: usize = 0;
        while i < n
            invariant
                n == self.methods@.len(),
                i <= n,
                out@.len() == i,
                forall|j: int| 0 <= j < i
                    ==> (#[trigger] out@[j]).0@ == self.methods()[j].path
                        && out@[j].1@ == self.methods()[j].input_type
                        && out@[j].2@ == self.methods()[j].output_type,
            decreases n - i,
        {
            let m = &self.methods[i];
            proof {
                assert(self.methods()[i as int] == m@);
            }
            out.push((m.path.clone(), m.input_type.clone(), m.output_type.clone()));
            i += 1;
        }
        out
    }

    /// Looks the cached descriptor up and builds the schema-typed message
    /// from the arguments: the transport-ready plan of one call. Fails with
    /// `MethodNotFound` when no descriptor has the path, and with
    /// `FieldTypeMismatch`, naming the first offending field, when an
    /// argument cannot be coerced.
    pub fn begin_invoke(&self, path: &str, args: &StrMap, metadata: StrMap) -> (r: Result<
        CallPlan,
        CallFailure,
    >)
        requires
            self.wf(),
            args.wf(),
            metadata.wf(),
        ensures
            match r {
                Ok(plan) => self.has_method(path@)
                    && plan.path@ == path@
                    && plan.kind == self.method_for(path@).kind
                    && build_fields(self.method_for(path@).input, args@)
                        == Some(message_view(plan.message@))
                    && fields_view(plan.output@) == self.method_for(path@).output
                    && plan.metadata == metadata,
                Err(CallFailure::MethodNotFound) => !self.has_method(path@),
                Err(CallFailure::FieldTypeMismatch(name)) => self.has_method(path@)
                    && build_fields(self.method_for(path@).input, args@) is None
                    && (exists|i: int| 0 <= i < self.method_for(path@).input.len()
                        && field_value(#[trigger] self.method_for(path@).input[i], args@) is None
                        && name@ == self.method_for(path@).input[i].name),
                Err(_) => false,
            },
    {
        let found = self.find_method(path);
        match found {
            None => Err(CallFailure::MethodNotFound),
            Some(ix) => {
                let m = &self.methods[ix];
                proof {
                    assert(self.methods()[ix as int] == m@);
                    lemma_method_index_unique(self, path@, ix as int);
                }
                match build_message(&m.input, args) {
                    Ok(message) => {
                        let output = copy_fields(&m.output);
                        Ok(CallPlan {
                            path: m.path.clone(),
                            kind: m.kind,
                            message,
                            output,
                            metadata,
                        })
                    },
                    Err(name) => Err(CallFailure::FieldTypeMismatch(name)),
                }
            },
        }
    }

    /// The index of the descriptor with this path, if any.
    fn find_method(&self, path: &str) -> (r: Option<usize>)
        requires
            self.wf(),
        ensures
            match r {
                Some(ix) => ix < self.methods().len() && self.methods()[ix as int].path == path@,
                None => !self.has_method(path@),
            },
    {
        let n = self.methods.len();
        let mut i: usize = 0;
        while i < n
            invariant
                n == self.methods@.len(),
                i <= n,
                forall|j: int| 0 <= j < i ==> (#[trigger] self.methods()[j]).path != path@,
            decreases n - i,
        {
            proof {
                assert(self.methods()[i as int] == self.methods@[i as int]@);
            }
            if str_eq(self.methods[i].path.as_str(), path) {
                return Some(i);
            }
            i += 1;
        }
        None
    }
}

/// When a descriptor with the path exists in a well-formed client, it is the
/// one `method_index` picks.
pub proof fn lemma_method_index_unique(c: &DynClient, path: Seq<char>, ix: int)
    requires
        c.wf(),
        0 <= ix < c.methods().len(),
        c.methods()[ix].path == path,
    ensures
        c.has_method(path),
        c.method_index(path) == ix,
{
    assert(c.has_method(path));
    let other = c.method_index(path);
    if other != ix {
        if other < ix {
            assert(c.methods()[other].path != c.methods()[ix].path);
        } else {
            assert(c.methods()[ix].path != c.methods()[other].path);
        }
    }
}

/// Whether any two descriptors share a path.
fn check_paths_unique(methods: &Vec<MethodSchema>) -> (r: bool)
    ensures
        r == paths_unique(methods_view(methods@)),
{
    let ghost mv = methods_view(methods@);
    let n = methods.len();
    let mut i: usize = 0;
    while i < n
        invariant
            n == methods@.len(),
            mv == methods_view(methods@),
            i <= n,
            forall|a: int, b: int| 0 <= a < b < n && a < i
                ==> (#[trigger] mv[a]).path != (#[trigger] mv[b]).path,
        decreases n - i,
    {
        let mut j: usize = i + 1;
        while j < n
            invariant
                n == methods@.len(),
                mv == methods_view(methods@),
                i < j <= n,
                i < n,
                forall|b: int| i < b < j ==> (#[trigger] mv[b]).path != mv[i as int].path,
            decreases n - j,
        {
            proof {
                assert(mv[i as int] == methods@[i as int]@);
                assert(mv[j as int] == methods@[j as int]@);
            }
            if str_eq(methods[i].path.as_str(), methods[j].path.as_str()) {
                return false;
            }
            j += 1;
        }
        i += 1;
    }
    true
}

/// Copies an ordered field schema.
fn copy_fields(v: &Vec<FieldSchema>) -> (r: Vec<FieldSchema>)
    ensures
        fields_view(r@) == fields_view(v@),
{
    let n = v.len();
    let mut out: Vec<FieldSchema> = Vec::new();
    let mut i: usize = 0;
    while i < n
        invariant
            n == v@.len(),
            i <= n,
            out@.len() == i,
            forall|j: int| 0 <= j < i ==> (#[trigger] out@[j])@ == v@[j]@,
        decreases n - i,
    {
        let f = &v[i];
        out.push(FieldSchema { name: f.name.clone(), kind: f.kind });
        i += 1;
    }
    proof {
        assert(fields_view(out@) =~= fields_view(v@));
    }
    out
}

/// Everything one call needs on the wire: the method path and kind, the
/// built message, the metadata to carry, and the output schema to mirror
/// the reply through.
pub struct CallPlan {
    pub path: String,
    pub kind: CallKind,
    pub message: Vec<(String, DynValue)>,
    pub output: Vec<FieldSchema>,
    pub metadata: StrMap,
}

/// What the transport brought back: a reply with its metadata, a backend
/// status, or a connection failure.
pub enum CallOutcome {
    Reply { fields: Vec<(String, DynValue)>, metadata: StrMap },
    Status { code: u32, message: String },
    Transport,
}

impl CallPlan {
    /// Completes the call from the transport's outcome, whatever it was: a
    /// reply is mirrored through the output schema and handed back with its
    /// metadata; a backend status surfaces as `Invoke` with its code and
    /// message; a connection failure surfaces as `Transport`.
    pub fn finish(&self, outcome: CallOutcome) -> (r: Result<(Vec<(String, DynValue)>, StrMap), CallFailure>)
        ensures
            match outcome {
                CallOutcome::Reply { fields, metadata } => match r {
                    Ok(p) => message_view(p.0@)
                        == decode_fields(fields_view(self.output@), message_view(fields@))
                        && p.1 == metadata,
                    Err(_) => false,
                },
                CallOutcome::Status { code, message } => r == Err::<
                    (Vec<(String, DynValue)>, StrMap),
                    CallFailure,
                >(CallFailure::Invoke { code, message }),
                CallOutcome::Transport => r == Err::<
                    (Vec<(String, DynValue)>, StrMap),
                    CallFailure,
                >(CallFailure::Transport),
            },
    {
        match outcome {
            CallOutcome::Reply { fields, metadata } => {
                let decoded = decode_message(&self.output, &fields);
                Ok((decoded, metadata))
            },
            CallOutcome::Status { code, message } => Err(CallFailure::Invoke { code, message }),
            CallOutcome::Transport => Err(CallFailure::Transport),
        }
    }
}

} // verus!
