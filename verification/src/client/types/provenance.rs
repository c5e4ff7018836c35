//! Provenance of a context: who started it and on whose behalf, which
//! service and host wrote it, and the trace it belongs to.
//!
//! A provenance is built from a base and a list of options applied in
//! order; each option sets the fields it names.
#![allow(non_upper_case_globals)]
use vstd::prelude::*;
use crate::client::types::conversation::Now;
use crate::text::{owned, str_eq};

verus! {

/// Where a context comes from.
#[derive(Debug, Clone)]
pub struct Provenance {
    pub parent_context_id: Option<u64>,
    pub spawn_reason: String,
    pub root_context_id: Option<u64>,
    pub trace_id: String,
    pub span_id: String,
    pub correlation_id: String,
    pub on_behalf_of: String,
    pub on_behalf_of_source: String,
    pub on_behalf_of_email: String,
    pub writer_method: String,
    pub writer_subject: String,
    pub writer_issuer: String,
    pub service_name: String,
    pub service_version: String,
    pub service_instance_id: String,
    pub process_pid: i64,
    pub process_owner: String,
    pub host_name: String,
    pub host_arch: String,
    pub client_address: String,
    pub client_port: i64,
    /// Captured environment variables, name and value, one per name.
    pub env_vars: Option<Vec<(String, String)>>,
    pub sdk_name: String,
    pub sdk_version: String,
    pub captured_at: i64,
}

/// The empty provenance.
pub open spec fn empty_provenance(p: Provenance) -> bool {
    &&& p.parent_context_id is None
    &&& p.spawn_reason@.len() == 0
    &&& p.root_context_id is None
    &&& p.trace_id@.len() == 0
    &&& p.span_id@.len() == 0
    &&& p.correlation_id@.len() == 0
    &&& p.on_behalf_of@.len() == 0
    &&& p.on_behalf_of_source@.len() == 0
    &&& p.on_behalf_of_email@.len() == 0
    &&& p.writer_method@.len() == 0
    &&& p.writer_subject@.len() == 0
    &&& p.writer_issuer@.len() == 0
    &&& p.service_name@.len() == 0
    &&& p.service_version@.len() == 0
    &&& p.service_instance_id@.len() == 0
    &&& p.process_pid == 0
    &&& p.process_owner@.len() == 0
    &&& p.host_name@.len() == 0
    &&& p.host_arch@.len() == 0
    &&& p.client_address@.len() == 0
    &&& p.client_port == 0
    &&& p.env_vars is None
    &&& p.sdk_name@.len() == 0
    &&& p.sdk_version@.len() == 0
    &&& p.captured_at == 0
}

impl Default for Provenance {
    fn default() -> (p: Provenance)
        ensures
            empty_provenance(p),
    {
        Provenance {
            parent_context_id: None,
            spawn_reason: String::new(),
            root_context_id: None,
            trace_id: String::new(),
            span_id: String::new(),
            correlation_id: String::new(),
            on_behalf_of: String::new(),
            on_behalf_of_source: String::new(),
            on_behalf_of_email: String::new(),
            writer_method: String::new(),
            writer_subject: String::new(),
            writer_issuer: String::new(),
            service_name: String::new(),
            service_version: String::new(),
            service_instance_id: String::new(),
            process_pid: 0,
            process_owner: String::new(),
            host_name: String::new(),
            host_arch: String::new(),
            client_address: String::new(),
            client_port: 0,
            env_vars: None,
            sdk_name: String::new(),
            sdk_version: String::new(),
            captured_at: 0,
        }
    }
}

/// A change to a provenance.
#[derive(Debug, Clone)]
pub enum ProvenanceOption {
    /// Sets the parent context, and the root: the given root, or the parent
    /// when the root is 0.
    ParentContext { parent_id: u64, root_id: u64 },
    SpawnReason(String),
    TraceContext { trace_id: String, span_id: String },
    CorrelationId(String),
    OnBehalfOf { user_id: String, source: String, email: String },
    WriterIdentity { method: String, subject: String, issuer: String },
    /// Sets the captured environment variables (none when the list is empty).
    EnvVars(Vec<(String, String)>),
    Sdk { name: String, version: String },
    /// Sets the service's name and version, and its instance id unless the
    /// given one is empty.
    Service { name: String, version: String, instance_id: String },
}

/// The pairs of a list of string pairs, as characters.
pub open spec fn pairs_view(v: Seq<(String, String)>) -> Seq<(Seq<char>, Seq<char>)> {
    v.map_values(|p: (String, String)| (p.0@, p.1@))
}

/// What applying the option changes, field by field: `q` is `p` with the
/// option applied.
pub open spec fn applied(p: Provenance, opt: ProvenanceOption, q: Provenance) -> bool {
    match opt {
        ProvenanceOption::ParentContext { parent_id, root_id } => q == Provenance {
            parent_context_id: Some(parent_id),
            root_context_id: Some(if root_id == 0 { parent_id } else { root_id }),
            ..p
        },
        ProvenanceOption::SpawnReason(r) => q.spawn_reason@ == r@ && q == Provenance { spawn_reason: q.spawn_reason, ..p },
        ProvenanceOption::TraceContext { trace_id, span_id } => q.trace_id@ == trace_id@ && q.span_id@ == span_id@
            && q == Provenance { trace_id: q.trace_id, span_id: q.span_id, ..p },
        ProvenanceOption::CorrelationId(c) => q.correlation_id@ == c@ && q == Provenance {
            correlation_id: q.correlation_id,
            ..p
        },
        ProvenanceOption::OnBehalfOf { user_id, source, email } => q.on_behalf_of@ == user_id@
            && q.on_behalf_of_source@ == source@ && q.on_behalf_of_email@ == email@ && q == Provenance {
            on_behalf_of: q.on_behalf_of,
            on_behalf_of_source: q.on_behalf_of_source,
            on_behalf_of_email: q.on_behalf_of_email,
            ..p
        },
        ProvenanceOption::WriterIdentity { method, subject, issuer } => q.writer_method@ == method@
            && q.writer_subject@ == subject@ && q.writer_issuer@ == issuer@ && q == Provenance {
            writer_method: q.writer_method,
            writer_subject: q.writer_subject,
            writer_issuer: q.writer_issuer,
            ..p
        },
        ProvenanceOption::EnvVars(vars) => (if vars@.len() == 0 {
            q.env_vars is None
        } else {
            q.env_vars matches Some(e) && pairs_view(e@) == pairs_view(vars@)
        }) && q == Provenance { env_vars: q.env_vars, ..p },
        ProvenanceOption::Sdk { name, version } => q.sdk_name@ == name@ && q.sdk_version@ == version@
            && q == Provenance { sdk_name: q.sdk_name, sdk_version: q.sdk_version, ..p },
        ProvenanceOption::Service { name, version, instance_id } => q.service_name@ == name@
            && q.service_version@ == version@ && (if instance_id@.len() == 0 {
            q.service_instance_id == p.service_instance_id
        } else {
            q.service_instance_id@ == instance_id@
        }) && q == Provenance {
            service_name: q.service_name,
            service_version: q.service_version,
            service_instance_id: q.service_instance_id,
            ..p
        },
    }
}

fn copy_pairs(v: &Vec<(String, String)>) -> (r: Vec<(String, String)>)
    ensures
        pairs_view(r@) == pairs_view(v@),
{
    let mut r: Vec<(String, String)> = Vec::new();
    let mut i: usize = 0;
    while i < v.len()
        invariant
            i <= v@.len(),
            r@.len() == i,
            forall|j: int| 0 <= j < i ==> r@[j].0@ == v@[j].0@ && r@[j].1@ == v@[j].1@,
        decreases v@.len() - i,
    {
        r.push((owned(v[i].0.as_str()), owned(v[i].1.as_str())));
        i = i + 1;
    }
    assert(pairs_view(r@) =~= pairs_view(v@));
    r
}

impl ProvenanceOption {
    /// Applies the option to a provenance.
    pub fn apply(&self, p: &mut Provenance)
        ensures
            applied(*old(p), *self, *final(p)),
    {
        match self {
            ProvenanceOption::ParentContext { parent_id, root_id } => {
                p.parent_context_id = Some(*parent_id);
                p.root_context_id = Some(if *root_id == 0 { *parent_id } else { *root_id });
            },
            ProvenanceOption::SpawnReason(r) => {
                p.spawn_reason = owned(r.as_str());
            },
            ProvenanceOption::TraceContext { trace_id, span_id } => {
                p.trace_id = owned(trace_id.as_str());
                p.span_id = owned(span_id.as_str());
            },
            ProvenanceOption::CorrelationId(c) => {
                p.correlation_id = owned(c.as_str());
            },
            ProvenanceOption::OnBehalfOf { user_id, source, email } => {
                p.on_behalf_of = owned(user_id.as_str());
                p.on_behalf_of_source = owned(source.as_str());
                p.on_behalf_of_email = owned(email.as_str());
            },
            ProvenanceOption::WriterIdentity { method, subject, issuer } => {
                p.writer_method = owned(method.as_str());
                p.writer_subject = owned(subject.as_str());
                p.writer_issuer = owned(issuer.as_str());
            },
            ProvenanceOption::EnvVars(vars) => {
                p.env_vars = if vars.len() == 0 {
                    None
                } else {
                    Some(copy_pairs(vars))
                };
            },
            ProvenanceOption::Sdk { name, version } => {
                p.sdk_name = owned(name.as_str());
                p.sdk_version = owned(version.as_str());
            },
            ProvenanceOption::Service { name, version, instance_id } => {
                p.service_name = owned(name.as_str());
                p.service_version = owned(version.as_str());
                if !instance_id.as_str().is_empty() {
                    p.service_instance_id = owned(instance_id.as_str());
                }
            },
        }
    }
}

/// `q` is `p` with the options applied one after another.
pub open spec fn applied_all(p: Provenance, opts: Seq<ProvenanceOption>, q: Provenance) -> bool
    decreases opts.len(),
{
    if opts.len() == 0 {
        q == p
    } else {
        exists|m: Provenance| applied_all(p, opts.drop_last(), m) && applied(m, opts.last(), q)
    }
}

/// Applies the options in order.
pub fn apply_all(p: &mut Provenance, opts: &Vec<ProvenanceOption>)
    ensures
        applied_all(*old(p), opts@, *final(p)),
{
    let ghost start = *p;
    let mut i: usize = 0;
    while i < opts.len()
        invariant
            i <= opts@.len(),
            applied_all(start, opts@.take(i as int), *p),
        decreases opts@.len() - i,
    {
        let ghost m = *p;
        opts[i].apply(p);
        proof {
            let t = opts@.take(i + 1);
            assert(t.drop_last() =~= opts@.take(i as int));
            assert(t.last() == opts@[i as int]);
            assert(applied_all(start, t.drop_last(), m) && applied(m, t.last(), *p));
        }
        i = i + 1;
    }
    assert(opts@.take(opts@.len() as int) =~= opts@);
}

/// A copy of a provenance.
pub fn copy_provenance(p: &Provenance) -> (r: Provenance)
    ensures
        r.parent_context_id == p.parent_context_id,
        r.root_context_id == p.root_context_id,
        r.spawn_reason@ == p.spawn_reason@,
        r.trace_id@ == p.trace_id@,
        r.span_id@ == p.span_id@,
        r.correlation_id@ == p.correlation_id@,
        r.on_behalf_of@ == p.on_behalf_of@,
        r.on_behalf_of_source@ == p.on_behalf_of_source@,
        r.on_behalf_of_email@ == p.on_behalf_of_email@,
        r.writer_method@ == p.writer_method@,
        r.writer_subject@ == p.writer_subject@,
        r.writer_issuer@ == p.writer_issuer@,
        r.service_name@ == p.service_name@,
        r.service_version@ == p.service_version@,
        r.service_instance_id@ == p.service_instance_id@,
        r.process_pid == p.process_pid,
        r.process_owner@ == p.process_owner@,
        r.host_name@ == p.host_name@,
        r.host_arch@ == p.host_arch@,
        r.client_address@ == p.client_address@,
        r.client_port == p.client_port,
        r.env_vars is Some <==> p.env_vars is Some,
        r.env_vars matches Some(e) ==> pairs_view(e@) == pairs_view(p.env_vars->0@),
        r.sdk_name@ == p.sdk_name@,
        r.sdk_version@ == p.sdk_version@,
        r.captured_at == p.captured_at,
{
    Provenance {
        parent_context_id: p.parent_context_id,
        spawn_reason: owned(p.spawn_reason.as_str()),
        root_context_id: p.root_context_id,
        trace_id: owned(p.trace_id.as_str()),
        span_id: owned(p.span_id.as_str()),
        correlation_id: owned(p.correlation_id.as_str()),
        on_behalf_of: owned(p.on_behalf_of.as_str()),
        on_behalf_of_source: owned(p.on_behalf_of_source.as_str()),
        on_behalf_of_email: owned(p.on_behalf_of_email.as_str()),
        writer_method: owned(p.writer_method.as_str()),
        writer_subject: owned(p.writer_subject.as_str()),
        writer_issuer: owned(p.writer_issuer.as_str()),
        service_name: owned(p.service_name.as_str()),
        service_version: owned(p.service_version.as_str()),
        service_instance_id: owned(p.service_instance_id.as_str()),
        process_pid: p.process_pid,
        process_owner: owned(p.process_owner.as_str()),
        host_name: owned(p.host_name.as_str()),
        host_arch: owned(p.host_arch.as_str()),
        client_address: owned(p.client_address.as_str()),
        client_port: p.client_port,
        env_vars: match &p.env_vars {
            Some(e) => Some(copy_pairs(e)),
            None => None,
        },
        sdk_name: owned(p.sdk_name.as_str()),
        sdk_version: owned(p.sdk_version.as_str()),
        captured_at: p.captured_at,
    }
}

/// Whether `r` is a copy of `p` (strings and captured variables equal as
/// characters).
pub open spec fn same_provenance(r: Provenance, p: Provenance) -> bool {
    &&& r.parent_context_id == p.parent_context_id
    &&& r.root_context_id == p.root_context_id
    &&& r.spawn_reason@ == p.spawn_reason@
    &&& r.trace_id@ == p.trace_id@
    &&& r.span_id@ == p.span_id@
    &&& r.correlation_id@ == p.correlation_id@
    &&& r.on_behalf_of@ == p.on_behalf_of@
    &&& r.on_behalf_of_source@ == p.on_behalf_of_source@
    &&& r.on_behalf_of_email@ == p.on_behalf_of_email@
    &&& r.writer_method@ == p.writer_method@
    &&& r.writer_subject@ == p.writer_subject@
    &&& r.writer_issuer@ == p.writer_issuer@
    &&& r.service_name@ == p.service_name@
    &&& r.service_version@ == p.service_version@
    &&& r.service_instance_id@ == p.service_instance_id@
    &&& r.process_pid == p.process_pid
    &&& r.process_owner@ == p.process_owner@
    &&& r.host_name@ == p.host_name@
    &&& r.host_arch@ == p.host_arch@
    &&& r.client_address@ == p.client_address@
    &&& r.client_port == p.client_port
    &&& (r.env_vars is Some <==> p.env_vars is Some)
    &&& (r.env_vars matches Some(e) ==> pairs_view(e@) == pairs_view(p.env_vars->0@))
    &&& r.sdk_name@ == p.sdk_name@
    &&& r.sdk_version@ == p.sdk_version@
    &&& r.captured_at == p.captured_at
}

/// A provenance derived from `base` (a copy of it, or the empty one),
/// captured at `now`, with the options applied in order.
pub fn new_provenance_at(base: Option<&Provenance>, opts: &Vec<ProvenanceOption>, now: i64) -> (r: Provenance)
    ensures
        exists|start: Provenance|
            #![trigger applied_all(start, opts@, r)]
            applied_all(start, opts@, r) && start.captured_at == now && match base {
                Some(b) => same_provenance(start, Provenance { captured_at: now, ..*b }),
                None => empty_provenance(Provenance { captured_at: 0, ..start }),
            },
{
    let mut p = match base {
        Some(b) => copy_provenance(b),
        None => Provenance::default(),
    };
    p.captured_at = now;
    let ghost start = p;
    apply_all(&mut p, opts);
    proof {
        assert(applied_all(start, opts@, p));
    }
    p
}

/// A provenance derived from `base`, captured now, with the options applied
/// in order.
pub fn new_provenance(base: Option<&Provenance>, opts: Vec<ProvenanceOption>) -> (r: Provenance)
    ensures
        exists|start: Provenance|
            #![trigger applied_all(start, opts@, r)]
            applied_all(start, opts@, r) && match base {
                Some(b) => same_provenance(start, Provenance { captured_at: start.captured_at, ..*b }),
                None => empty_provenance(Provenance { captured_at: 0, ..start }),
            },
{
    new_provenance_at(base, &opts, Now())
}

/// Sets the parent context and the root (the parent when `root_id` is 0).
pub fn with_parent_context(parent_id: u64, root_id: u64) -> (o: ProvenanceOption)
    ensures
        o == (ProvenanceOption::ParentContext { parent_id, root_id }),
{
    ProvenanceOption::ParentContext { parent_id, root_id }
}

/// Sets why the context was spawned.
pub fn with_spawn_reason(reason: &str) -> (o: ProvenanceOption)
    ensures
        o matches ProvenanceOption::SpawnReason(r) && r@ == reason@,
{
    ProvenanceOption::SpawnReason(owned(reason))
}

/// Sets the trace and span.
pub fn with_trace_context(trace_id: &str, span_id: &str) -> (o: ProvenanceOption)
    ensures
        o matches ProvenanceOption::TraceContext { trace_id: t, span_id: s } && t@ == trace_id@ && s@ == span_id@,
{
    ProvenanceOption::TraceContext { trace_id: owned(trace_id), span_id: owned(span_id) }
}

/// Sets the correlation id.
pub fn with_correlation_id(id: &str) -> (o: ProvenanceOption)
    ensures
        o matches ProvenanceOption::CorrelationId(c) && c@ == id@,
{
    ProvenanceOption::CorrelationId(owned(id))
}

/// Sets on whose behalf the context was written.
pub fn with_on_behalf_of(user_id: &str, source: &str, email: &str) -> (o: ProvenanceOption)
    ensures
        o matches ProvenanceOption::OnBehalfOf { user_id: u, source: s, email: e } && u@ == user_id@ && s@
            == source@ && e@ == email@,
{
    ProvenanceOption::OnBehalfOf { user_id: owned(user_id), source: owned(source), email: owned(email) }
}

/// Sets how the writer authenticated.
pub fn with_writer_identity(method: &str, subject: &str, issuer: &str) -> (o: ProvenanceOption)
    ensures
        o matches ProvenanceOption::WriterIdentity { method: m, subject: s, issuer: i } && m@ == method@ && s@
            == subject@ && i@ == issuer@,
{
    ProvenanceOption::WriterIdentity { method: owned(method), subject: owned(subject), issuer: owned(issuer) }
}

/// Sets the SDK's name and version.
pub fn with_sdk(name: &str, version: &str) -> (o: ProvenanceOption)
    ensures
        o matches ProvenanceOption::Sdk { name: n, version: v } && n@ == name@ && v@ == version@,
{
    ProvenanceOption::Sdk { name: owned(name), version: owned(version) }
}

/// Sets the service's name and version, and its instance id unless empty.
pub fn with_service(name: &str, version: &str, instance_id: &str) -> (o: ProvenanceOption)
    ensures
        o matches ProvenanceOption::Service { name: n, version: v, instance_id: i } && n@ == name@ && v@
            == version@ && i@ == instance_id@,
{
    ProvenanceOption::Service { name: owned(name), version: owned(version), instance_id: owned(instance_id) }
}

/// The names of the environment variables captured by default.
pub open spec fn default_env_names() -> Seq<&'static str> {
    seq![
        "K8S_NAMESPACE",
        "K8S_POD_NAME",
        "K8S_NODE_NAME",
        "KUBERNETES_SERVICE_HOST",
        "AWS_REGION",
        "AWS_DEFAULT_REGION",
        "AWS_EXECUTION_ENV",
        "GOOGLE_CLOUD_PROJECT",
        "GCP_PROJECT",
        "DEPLOYMENT",
        "ENVIRONMENT",
        "ENV",
        "STAGE",
        "REGION",
        "HOSTNAME",
        "USER",
        "HOME",
        "GOVERSION",
        "GO_VERSION",
        "SERVICE_NAME",
        "SERVICE_VERSION",
        "APP_NAME",
        "APP_VERSION",
    ]
}

/// The environment variables captured by default.
pub fn default_env_allowlist() -> (v: Vec<String>)
    ensures
        v@.len() == default_env_names().len(),
        forall|i: int| 0 <= i < v@.len() ==> #[trigger] v@[i]@ == default_env_names()[i]@,
{
    let names: Vec<&str> = vec![
        "K8S_NAMESPACE",
        "K8S_POD_NAME",
        "K8S_NODE_NAME",
        "KUBERNETES_SERVICE_HOST",
        "AWS_REGION",
        "AWS_DEFAULT_REGION",
        "AWS_EXECUTION_ENV",
        "GOOGLE_CLOUD_PROJECT",
        "GCP_PROJECT",
        "DEPLOYMENT",
        "ENVIRONMENT",
        "ENV",
        "STAGE",
        "REGION",
        "HOSTNAME",
        "USER",
        "HOME",
        "GOVERSION",
        "GO_VERSION",
        "SERVICE_NAME",
        "SERVICE_VERSION",
        "APP_NAME",
        "APP_VERSION",
    ];
    assert(names@ =~= default_env_names());
    let mut v: Vec<String> = Vec::new();
    let mut i: usize = 0;
    while i < names.len()
        invariant
            i <= names@.len(),
            names@ == default_env_names(),
            v@.len() == i,
            forall|j: int| 0 <= j < i ==> #[trigger] v@[j]@ == names@[j]@,
        decreases names@.len() - i,
    {
        v.push(owned(names[i]));
        i = i + 1;
    }
    v
}

/// The value given for a name, the last one where it is given twice.
pub open spec fn value_of(env: Seq<(String, String)>, name: Seq<char>) -> Option<Seq<char>>
    decreases env.len(),
{
    if env.len() == 0 {
        None
    } else if env.last().0@ == name {
        Some(env.last().1@)
    } else {
        value_of(env.drop_last(), name)
    }
}

/// The variables of the allowlist that have a non-empty value, in the
/// allowlist's order.
pub open spec fn captured(names: Seq<String>, env: Seq<(String, String)>) -> Seq<(Seq<char>, Seq<char>)>
    decreases names.len(),
{
    if names.len() == 0 {
        Seq::empty()
    } else {
        captured(names.drop_last(), env) + match value_of(env, names.last()@) {
            Some(v) => if v.len() > 0 {
                seq![(names.last()@, v)]
            } else {
                Seq::empty()
            },
            None => Seq::empty(),
        }
    }
}

fn lookup_env(env: &Vec<(String, String)>, name: &str) -> (r: Option<String>)
    ensures
        match r {
            Some(v) => value_of(env@, name@) == Some(v@),
            None => value_of(env@, name@) is None,
        },
{
    let mut i: usize = env.len();
    assert(env@.take(i as int) =~= env@);
    while i > 0
        invariant
            i <= env@.len(),
            value_of(env@, name@) == value_of(env@.take(i as int), name@),
        decreases i,
    {
        assert(env@.take(i as int).drop_last() =~= env@.take(i - 1));
        if str_eq(env[i - 1].0.as_str(), name) {
            return Some(owned(env[i - 1].1.as_str()));
        }
        i = i - 1;
    }
    None
}

/// Captures the variables of the allowlist (the default one for `None`)
/// from the values read from the environment; variables without a value or
/// with an empty one are left out.
pub fn with_env_vars_from(allowlist: Option<Vec<String>>, env: &Vec<(String, String)>) -> (o: ProvenanceOption)
    ensures
        o matches ProvenanceOption::EnvVars(vars) && match allowlist {
            Some(names) => pairs_view(vars@) == captured(names@, env@),
            None => exists|names: Seq<String>|
                names.len() == default_env_names().len() && (forall|i: int|
                    0 <= i < names.len() ==> #[trigger] names[i]@ == default_env_names()[i]@) && pairs_view(vars@)
                    == captured(names, env@),
        },
{
    let names = match allowlist {
        Some(n) => n,
        None => default_env_allowlist(),
    };
    let mut vars: Vec<(String, String)> = Vec::new();
    let mut i: usize = 0;
    while i < names.len()
        invariant
            i <= names@.len(),
            pairs_view(vars@) == captured(names@.take(i as int), env@),
        decreases names@.len() - i,
    {
        let ghost t = names@.take(i + 1);
        assert(t.drop_last() =~= names@.take(i as int));
        assert(t.last() == names@[i as int]);
        match lookup_env(env, names[i].as_str()) {
            Some(v) => {
                if !v.as_str().is_empty() {
                    vars.push((owned(names[i].as_str()), v));
                } else {
                    proof {
                        assert(v@.len() == 0);
                    }
                }
            },
            None => {},
        }
        assert(pairs_view(vars@) =~= captured(t, env@));
        i = i + 1;
    }
    assert(names@.take(names@.len() as int) =~= names@);
    ProvenanceOption::EnvVars(vars)
}

/// The architecture name used for a Rust target architecture: `amd64` for
/// `x86_64`, `arm64` for `aarch64`, others unchanged.
pub fn normalize_arch(arch: &str) -> (r: String)
    ensures
        r@ == (if arch@ == "x86_64"@ {
            "amd64"@
        } else if arch@ == "aarch64"@ {
            "arm64"@
        } else {
            arch@
        }),
{
    if str_eq(arch, "x86_64") {
        owned("amd64")
    } else if str_eq(arch, "aarch64") {
        owned("arm64")
    } else {
        owned(arch)
    }
}

/// The provenance of this process: its service, instance, process id, user,
/// host and architecture as the program read them, captured at `now`, with
/// the options applied in order.
pub fn process_provenance(
    service_name: &str,
    service_version: &str,
    instance_id: &str,
    pid: i64,
    owner: &str,
    host_name: &str,
    arch: &str,
    now: i64,
    opts: &Vec<ProvenanceOption>,
) -> (r: Provenance)
    ensures
        exists|start: Provenance|
            #![trigger applied_all(start, opts@, r)]
            applied_all(start, opts@, r) && start.service_name@ == service_name@
                && start.service_version@ == service_version@ && start.service_instance_id@ == instance_id@
                && start.process_pid == pid && start.process_owner@ == owner@ && start.host_name@ == host_name@
                && start.host_arch@ == (if arch@ == "x86_64"@ {
                "amd64"@
            } else if arch@ == "aarch64"@ {
                "arm64"@
            } else {
                arch@
            }) && start.captured_at == now,
{
    let mut p = Provenance::default();
    p.service_name = owned(service_name);
    p.service_version = owned(service_version);
    p.service_instance_id = owned(instance_id);
    p.process_pid = pid;
    p.process_owner = owned(owner);
    p.host_name = owned(host_name);
    p.host_arch = normalize_arch(arch);
    p.captured_at = now;
    let ghost start = p;
    apply_all(&mut p, opts);
    proof {
        assert(applied_all(start, opts@, p));
    }
    p
}

/// The parent option makes the root the parent itself when no root is
/// given, and keeps a given root.
pub proof fn law_parent_sets_root(p: Provenance, q: Provenance, parent_id: u64, root_id: u64)
    requires
        applied(p, ProvenanceOption::ParentContext { parent_id, root_id }, q),
    ensures
        q.parent_context_id == Some(parent_id),
        q.root_context_id == Some(if root_id == 0 { parent_id } else { root_id }),
{
}

/// Options apply in order: of two options that set the same field, the
/// later one wins.
pub proof fn law_later_option_wins(p: Provenance, m: Provenance, q: Provenance, a: Seq<char>, b: Seq<char>, ra: String, rb: String)
    requires
        ra@ == a,
        rb@ == b,
        applied(p, ProvenanceOption::CorrelationId(ra), m),
        applied(m, ProvenanceOption::CorrelationId(rb), q),
    ensures
        q.correlation_id@ == b,
{
}

} // verus!
