use std::sync::Arc;

use vstd::prelude::*;
use vstd::string::StrSliceExecFns;
use vstd::string::StringExecFns;

use crate::client::CallOutcome;
use crate::client::CallPlan;
use crate::client::DynClient;
use crate::metadata::MetadataAnalysis;
use crate::metadata::is_transport_header;
use crate::metadata::lower_seq;
use crate::query::QueryAnalysis;
use crate::query::find_char;
use crate::query::find_in;
use crate::query::query_spec;
use crate::registry::DynMap;
use crate::render::json_error;
use crate::render::json_object;
use crate::render::render_error;
use crate::render::render_object;
use crate::schema::build_fields;
use crate::schema::decode_fields;
use crate::schema::field_value;
use crate::schema::fields_view;
use crate::schema::message_view;
use crate::status::CallFailure;
use crate::status::spec_status_of_failure;
use crate::status::status_of_code;
use crate::status::status_of_failure;
use crate::strmap::StrMap;
use crate::strmap::pairs_to_map;

verus! {

// The per-request lifecycle. A request runs
//   received -> route resolved -> query parsed -> metadata mapped
//     -> invoked -> response mapped,
// and any step may fall directly to an error response. `prepare` walks the
// states up to the outbound call and either hands back the transport-ready
// dispatch or the finished error response; `complete` walks the rest from
// whatever the transport returned. The caller in between performs the one
// side effect, the outbound call; `prepare` itself takes the registry, the
// translators and the headers by shared reference and mutates nothing.

/// One HTTP response: status, filtered headers, rendered body.
pub struct HttpResponse {
    pub status: u16,
    pub headers: StrMap,
    pub body: String,
}

/// What `prepare` decides: send this plan on this client, or answer at once.
pub enum HandleStep {
    Dispatch { client: Arc<DynClient>, plan: CallPlan },
    Respond { response: HttpResponse },
}

/// The route key a request path resolves to: its first segment, the
/// backend's name by convention.
pub open spec fn route_key_spec(path: Seq<char>) -> Seq<char> {
    let s = if path.len() > 0 && path[0] == '/' {
        path.skip(1)
    } else {
        path
    };
    s.take(find_char(s, '/'))
}

/// Derives the route key from the request path, as `route_key_spec` states.
pub fn route_key(path: &str) -> (r: String)
    ensures
        r@ == route_key_spec(path@),
{
    let n = path.unicode_len();
    let start: usize = if n > 0 && path.get_char(0) == '/' {
        1
    } else {
        0
    };
    let rest = path.substring_char(start, n);
    proof {
        if start == 1 {
            assert(rest@ =~= path@.skip(1));
        } else {
            assert(rest@ =~= path@);
        }
    }
    let j = find_in(rest, '/');
    let key = rest.substring_char(0, j);
    String::from_str(key)
}

/// The invocation arguments: body-decoded fields overridden by query fields.
pub open spec fn args_of(
    query: Seq<char>,
    body: Map<Seq<char>, Seq<char>>,
) -> Map<Seq<char>, Seq<char>> {
    if query.len() == 0 {
        body
    } else {
        body.union_prefer_right(query_spec(query))
    }
}

/// Merges the parsed query fields over the body-decoded fields; on a name
/// held by both, the query's value wins.
fn merge_args(query_fields: Option<StrMap>, body_fields: &StrMap) -> (r: StrMap)
    requires
        body_fields.wf(),
        match query_fields {
            Some(q) => q.wf(),
            None => true,
        },
    ensures
        r.wf(),
        r@ == (match query_fields {
            Some(q) => body_fields@.union_prefer_right(q@),
            None => body_fields@,
        }),
{
    let mut r = copy_map(body_fields);
    match query_fields {
        None => r,
        Some(q) => {
            let n = q.len();
            let mut i: usize = 0;
            proof {
                assert(q.pairs().take(0) =~= Seq::<(Seq<char>, Seq<char>)>::empty());
                assert(body_fields@.union_prefer_right(pairs_to_map(q.pairs().take(0)))
                    =~= body_fields@);
            }
            while i < n
                invariant
                    q.wf(),
                    r.wf(),
                    n == q.pairs().len(),
                    i <= n,
                    r@ == body_fields@.union_prefer_right(pairs_to_map(q.pairs().take(i as int))),
                decreases n - i,
            {
                let ghost pre = q.pairs().take(i as int);
                let name = q.key_at(i);
                let value = q.val_at(i);
                r.insert(name.clone(), value.clone());
                i += 1;
                proof {
                    assert(q.pairs().take(i as int).drop_last() =~= pre);
                    assert(pairs_to_map(q.pairs().take(i as int))
                        == pairs_to_map(pre).insert(q.pairs()[i - 1].0, q.pairs()[i - 1].1));
                    assert(r@ =~= body_fields@.union_prefer_right(
                        pairs_to_map(q.pairs().take(i as int)),
                    ));
                }
            }
            proof {
                assert(q.pairs().take(n as int) =~= q.pairs());
            }
            r
        },
    }
}

/// Copies an association.
fn copy_map(m: &StrMap) -> (r: StrMap)
    requires
        m.wf(),
    ensures
        r.wf(),
        r@ == m@,
{
    let n = m.len();
    let mut r = StrMap::new();
    let mut i: usize = 0;
    proof {
        assert(m.pairs().take(0) =~= Seq::<(Seq<char>, Seq<char>)>::empty());
    }
    while i < n
        invariant
            m.wf(),
            r.wf(),
            n == m.pairs().len(),
            i <= n,
            r@ == pairs_to_map(m.pairs().take(i as int)),
        decreases n - i,
    {
        let ghost pre = m.pairs().take(i as int);
        let name = m.key_at(i);
        let value = m.val_at(i);
        r.insert(name.clone(), value.clone());
        i += 1;
        proof {
            assert(m.pairs().take(i as int).drop_last() =~= pre);
        }
    }
    proof {
        assert(m.pairs().take(n as int) =~= m.pairs());
    }
    r
}

/// Whether `name` names an input field of the method that the arguments
/// cannot fill.
pub open spec fn failing_named(
    c: DynClient,
    path: Seq<char>,
    args: Map<Seq<char>, Seq<char>>,
    name: Seq<char>,
) -> bool {
    exists|i: int| 0 <= i < c.method_for(path).input.len()
        && field_value(#[trigger] c.method_for(path).input[i], args) is None
        && name == c.method_for(path).input[i].name
}

/// The message an error response carries.
pub open spec fn failure_message(f: CallFailure) -> Seq<char> {
    match f {
        CallFailure::MethodNotFound => "method not found"@,
        CallFailure::FieldTypeMismatch(name) => "cannot coerce argument: "@ + name@,
        CallFailure::Invoke { code: _, message } => message@,
        CallFailure::Transport => "transport failure"@,
    }
}

/// The message of one failure, as `failure_message` states.
fn failure_text(f: &CallFailure) -> (r: String)
    ensures
        r@ == failure_message(*f),
{
    match f {
        CallFailure::MethodNotFound => String::from_str("method not found"),
        CallFailure::FieldTypeMismatch(name) => {
            let mut out = String::from_str("cannot coerce argument: ");
            out.append(name.as_str());
            out
        },
        CallFailure::Invoke { code: _, message } => message.clone(),
        CallFailure::Transport => String::from_str("transport failure"),
    }
}

/// The finished error response of one failure: the fixed status translation
/// and the structured `{code, message}` body; no headers.
pub fn error_response(f: &CallFailure) -> (r: HttpResponse)
    ensures
        r.status == spec_status_of_failure(*f),
        r.headers.wf(),
        r.headers@ == Map::<Seq<char>, Seq<char>>::empty(),
        r.body@ == json_error(spec_status_of_failure(*f) as int, failure_message(*f)),
{
    let status = status_of_failure(f);
    let text = failure_text(f);
    let body = render_error(status, text.as_str());
    HttpResponse { status, headers: StrMap::new(), body }
}

/// The request handler: the registry and the two translators, injected once
/// at construction.
pub struct AppEntity<M: DynMap, Q: QueryAnalysis, A: MetadataAnalysis> {
    pub map: M,
    pub query: Q,
    pub metadata: A,
}

impl<M: DynMap, Q: QueryAnalysis, A: MetadataAnalysis> AppEntity<M, Q, A> {
    /// Wires the handler up.
    pub fn new(map: M, query: Q, metadata: A) -> (r: Self)
        ensures
            r.map == map,
            r.query == query,
            r.metadata == metadata,
    {
        AppEntity { map, query, metadata }
    }

    /// What `prepare` guarantees of its decision.
    pub open spec fn prepare_post(
        &self,
        path: Seq<char>,
        query: Seq<char>,
        headers: Map<Seq<char>, Seq<char>>,
        body: Map<Seq<char>, Seq<char>>,
        r: HandleStep,
    ) -> bool {
        match r {
            HandleStep::Dispatch { client, plan } => {
                let key = route_key_spec(path);
                let args = args_of(query, body);
                &&& self.map.entries_map().contains_key(key)
                &&& *client == self.map.entries_map()[key].1
                &&& client.wf()
                &&& client.has_method(path)
                &&& plan.path@ == path
                &&& plan.kind == client.method_for(path).kind
                &&& build_fields(client.method_for(path).input, args)
                    == Some(message_view(plan.message@))
                &&& fields_view(plan.output@) == client.method_for(path).output
                &&& plan.metadata.wf()
                &&& (forall|k: Seq<char>| #[trigger] plan.metadata@.contains_key(k)
                    <==> headers.contains_key(k)
                        && self.metadata.request_allowed(lower_seq(k))
                        && !is_transport_header(lower_seq(k)))
                &&& (forall|k: Seq<char>| #[trigger] plan.metadata@.contains_key(k)
                    ==> plan.metadata@[k] == headers[k])
            },
            HandleStep::Respond { response } => {
                let key = route_key_spec(path);
                let args = args_of(query, body);
                &&& response.headers.wf()
                &&& response.headers@ == Map::<Seq<char>, Seq<char>>::empty()
                &&& {
                    ||| (!self.map.entries_map().contains_key(key)
                        && response.status == 404
                        && response.body@ == json_error(404, "route not found"@))
                    ||| (self.map.entries_map().contains_key(key)
                        && !self.map.entries_map()[key].1.has_method(path)
                        && response.status == 404
                        && response.body@ == json_error(404, "method not found"@))
                    ||| (self.map.entries_map().contains_key(key)
                        && self.map.entries_map()[key].1.has_method(path)
                        && build_fields(
                            self.map.entries_map()[key].1.method_for(path).input,
                            args,
                        ) is None
                        && response.status == 400
                        && (exists|name: Seq<char>|
                            #[trigger] failing_named(
                                self.map.entries_map()[key].1,
                                path,
                                args,
                                name,
                            ) && response.body@ == json_error(
                                400,
                                "cannot coerce argument: "@ + name,
                            )))
                }
            },
        }
    }

    /// Walks one request up to the outbound call: resolves the route (a miss
    /// answers 404 and contacts no backend), parses the query, merges it over
    /// the body-decoded fields, filters the headers into call metadata, and
    /// builds the schema-typed message. Touches nothing: the registry is read
    /// once and left as it is.
    pub fn prepare(&self, path: &str, query: &str, headers: &StrMap, body_fields: &StrMap) -> (r:
        HandleStep)
        requires
            self.map.inv(),
            headers.wf(),
            body_fields.wf(),
        ensures
            self.prepare_post(path@, query@, headers@, body_fields@, r),
    {
        let key = route_key(path);
        match self.map.get(key) {
            None => {
                let body = render_error(404, "route not found");
                HandleStep::Respond {
                    response: HttpResponse { status: 404, headers: StrMap::new(), body },
                }
            },
            Some(client) => {
                let query_fields = self.query.analysis(query);
                let args = merge_args(query_fields, body_fields);
                let call_metadata = self.metadata.request(headers);
                proof {
                    assert(args@ == args_of(query@, body_fields@));
                }
                match client.begin_invoke(path, &args, call_metadata) {
                    Ok(plan) => HandleStep::Dispatch { client, plan },
                    Err(f) => {
                        let response = error_response(&f);
                        proof {
                            match &f {
                                CallFailure::FieldTypeMismatch(name) => {
                                    assert(failing_named(
                                        *client,
                                        path@,
                                        args_of(query@, body_fields@),
                                        name@,
                                    ));
                                    assert(response.body@ == json_error(
                                        400,
                                        "cannot coerce argument: "@ + name@,
                                    ));
                                },
                                _ => {},
                            }
                        }
                        HandleStep::Respond { response }
                    },
                }
            },
        }
    }

    /// What `complete` guarantees of the finished response.
    pub open spec fn complete_post(
        &self,
        plan: &CallPlan,
        outcome: CallOutcome,
        r: HttpResponse,
    ) -> bool {
        match outcome {
            CallOutcome::Reply { fields, metadata } => {
                &&& r.status == 200
                &&& r.body@ == json_object(decode_fields(
                    fields_view(plan.output@),
                    message_view(fields@),
                ))
                &&& r.headers.wf()
                &&& (forall|k: Seq<char>| #[trigger] r.headers@.contains_key(k)
                    <==> metadata@.contains_key(k)
                        && self.metadata.response_allowed(lower_seq(k))
                        && !is_transport_header(lower_seq(k)))
                &&& (forall|k: Seq<char>| #[trigger] r.headers@.contains_key(k)
                    ==> r.headers@[k] == metadata@[k])
            },
            CallOutcome::Status { code, message } => {
                &&& r.status == status_of_code(code)
                &&& r.headers.wf()
                &&& r.headers@ == Map::<Seq<char>, Seq<char>>::empty()
                &&& r.body@ == json_error(status_of_code(code) as int, message@)
            },
            CallOutcome::Transport => {
                &&& r.status == 502
                &&& r.headers.wf()
                &&& r.headers@ == Map::<Seq<char>, Seq<char>>::empty()
                &&& r.body@ == json_error(502, "transport failure"@)
            },
        }
    }

    /// Walks one request from what the transport returned to the response:
    /// a reply is mirrored through the output schema, rendered as the body,
    /// its metadata filtered into outbound headers, status 200; a backend
    /// status and a transport failure go through the fixed status table with
    /// a structured error body.
    pub fn complete(&self, plan: &CallPlan, outcome: CallOutcome) -> (r: HttpResponse)
        requires
            match outcome {
                CallOutcome::Reply { fields: _, metadata } => metadata.wf(),
                _ => true,
            },
        ensures
            self.complete_post(plan, outcome, r),
    {
        match plan.finish(outcome) {
            Ok((fields, call_metadata)) => {
                let headers = self.metadata.response(call_metadata);
                let body = render_object(&fields);
                HttpResponse { status: 200, headers, body }
            },
            Err(f) => error_response(&f),
        }
    }
}

} // verus!
