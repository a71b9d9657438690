//! The scope a supermemory operation is bound to: which user, agent, run and
//! actor it speaks for, the metadata stamped on what it writes, and the
//! filters applied to what it reads.
use vstd::prelude::*;

use crate::keyed::TextMap;
use crate::memory::json::{json_document, parse_json_document, JsonValue};
use crate::memory::supermemory::SupermemoryKernel;
use crate::text::{chars_of, string_of};

verus! {

/// Who a memory operation speaks for.
#[derive(Debug)]
pub struct MemoryScopeSpec {
    pub user_id: Option<String>,
    pub agent_id: Option<String>,
    pub run_id: Option<String>,
    pub actor_id: Option<String>,
}

/// A scope with the metadata written records carry and the filters reads use.
#[derive(Debug)]
pub struct MemoryScopeContract {
    pub scope: MemoryScopeSpec,
    pub metadata_template: TextMap,
    pub query_filters: TextMap,
    pub metadata_filter_dsl: Option<JsonValue>,
}

/// Why a scope contract could not be built.
#[derive(Debug, Clone, Copy, PartialEq, Eq, Structural)]
pub enum ScopeContractError {
    /// The `metadata_filter_dsl` entry is not JSON.
    InvalidFilterDsl,
}

impl ScopeContractError {
    /// The error's message.
    pub fn message(&self) -> (r: String)
        ensures
            r@ == "invalid metadata_filter_dsl JSON"@,
    {
        string_of(&chars_of("invalid metadata_filter_dsl JSON"))
    }
}

pub open spec fn lookup(m: Map<Seq<char>, Seq<char>>, k: Seq<char>) -> Option<Seq<char>> {
    if m.contains_key(k) {
        Some(m[k])
    } else {
        None
    }
}

pub open spec fn first_some(a: Option<Seq<char>>, b: Option<Seq<char>>) -> Option<Seq<char>> {
    if a is Some {
        a
    } else {
        b
    }
}

pub open spec fn put(m: Map<Seq<char>, Seq<char>>, k: Seq<char>, v: Option<Seq<char>>) -> Map<Seq<char>, Seq<char>> {
    match v {
        Some(x) => m.insert(k, x),
        None => m,
    }
}

pub open spec fn opt_text(o: Option<String>) -> Option<Seq<char>> {
    match o {
        Some(s) => Some(s@),
        None => None,
    }
}

pub open spec fn dsl_key() -> Seq<char> {
    "metadata_filter_dsl"@
}

/// The filter DSL text: taken from the metadata, else from the filters.
pub open spec fn dsl_text(metadata: Map<Seq<char>, Seq<char>>, filters: Map<Seq<char>, Seq<char>>) -> Option<Seq<char>> {
    first_some(lookup(metadata, dsl_key()), lookup(filters, dsl_key()))
}

/// A scope contract as plain values.
pub struct ScopeModel {
    pub user_id: Option<Seq<char>>,
    pub agent_id: Option<Seq<char>>,
    pub run_id: Option<Seq<char>>,
    pub actor_id: Option<Seq<char>>,
    pub metadata_template: Map<Seq<char>, Seq<char>>,
    pub query_filters: Map<Seq<char>, Seq<char>>,
}

/// The scope of a session: the filter DSL is taken out of the metadata (or,
/// failing that, the filters); user, agent and run come from the metadata,
/// else the filters, the run defaulting to the session; all three are
/// written into both maps; the actor comes from the metadata's `actor_id`,
/// `actor_filter` or `scope_actor_filter`, else the filters' `actor_id`, is
/// taken out of the metadata and written into the filters; the metadata is
/// marked with the contract version.
pub open spec fn scope_spec(
    session_id: Seq<char>,
    metadata: Map<Seq<char>, Seq<char>>,
    filters: Map<Seq<char>, Seq<char>>,
) -> ScopeModel {
    let md1 = metadata.remove(dsl_key());
    let qf1 = if metadata.contains_key(dsl_key()) {
        filters
    } else {
        filters.remove(dsl_key())
    };
    let user = first_some(lookup(md1, "user_id"@), lookup(qf1, "user_id"@));
    let agent = first_some(lookup(md1, "agent_id"@), lookup(qf1, "agent_id"@));
    let run = Some(
        match first_some(lookup(md1, "run_id"@), lookup(qf1, "run_id"@)) {
            Some(r) => r,
            None => session_id,
        },
    );
    let md2 = put(put(put(md1, "user_id"@, user), "agent_id"@, agent), "run_id"@, run);
    let qf2 = put(put(put(qf1, "user_id"@, user), "agent_id"@, agent), "run_id"@, run);
    let actor = first_some(
        first_some(first_some(lookup(md2, "actor_id"@), lookup(md2, "actor_filter"@)), lookup(md2, "scope_actor_filter"@)),
        lookup(qf2, "actor_id"@),
    );
    ScopeModel {
        user_id: user,
        agent_id: agent,
        run_id: run,
        actor_id: actor,
        metadata_template: md2.remove("actor_id"@).remove("actor_filter"@).remove("scope_actor_filter"@).insert(
            "scope_contract"@,
            "user_agent_run_actor_v1"@,
        ),
        query_filters: put(qf2, "actor_id"@, actor),
    }
}

pub open spec fn contract_matches(c: MemoryScopeContract, m: ScopeModel) -> bool {
    &&& opt_text(c.scope.user_id) == m.user_id
    &&& opt_text(c.scope.agent_id) == m.agent_id
    &&& opt_text(c.scope.run_id) == m.run_id
    &&& opt_text(c.scope.actor_id) == m.actor_id
    &&& c.metadata_template@ == m.metadata_template
    &&& c.query_filters@ == m.query_filters
}

fn copy_opt(o: Option<&String>) -> (r: Option<String>)
    ensures
        opt_text(r) == match o {
            Some(s) => Some(s@),
            None => None,
        },
{
    match o {
        Some(s) => Some(s.clone()),
        None => None,
    }
}

fn lookup_exec(m: &TextMap, k: &str) -> (r: Option<String>)
    ensures
        opt_text(r) == lookup(m@, k@),
{
    copy_opt(m.get(k))
}

fn put_exec(m: &mut TextMap, k: &str, v: &Option<String>)
    ensures
        final(m)@ == put(old(m)@, k@, opt_text(*v)),
{
    match v {
        Some(x) => m.insert(string_of(&chars_of(k)), x.clone()),
        None => {},
    }
}

impl SupermemoryKernel {
    /// Builds the scope contract of a session from the metadata of what is
    /// written and the filters of what is read (see `scope_spec`). Fails only
    /// when a filter DSL is given that is not JSON; otherwise the DSL, when
    /// given, is kept as read.
    pub fn build_scope_contract(
        &self,
        session_id: &str,
        input_metadata: &TextMap,
        input_filters: &TextMap,
    ) -> (r: Result<MemoryScopeContract, ScopeContractError>)
        ensures
            r is Err <==> (dsl_text(input_metadata@, input_filters@) matches Some(t) && json_document(t) is None),
            r matches Ok(c) ==> contract_matches(c, scope_spec(session_id@, input_metadata@, input_filters@))
                && c.metadata_filter_dsl == match dsl_text(input_metadata@, input_filters@) {
                Some(t) => json_document(t),
                None => None,
            },
    {
        let mut metadata_template = input_metadata.duplicate();
        let mut query_filters = input_filters.duplicate();
        let from_metadata = metadata_template.remove("metadata_filter_dsl");
        let dsl_raw = match from_metadata {
            Some(raw) => Some(raw),
            None => query_filters.remove("metadata_filter_dsl"),
        };
        proof {
            reveal_strlit("metadata_filter_dsl");
        }
        assert(opt_text(dsl_raw) == dsl_text(input_metadata@, input_filters@));
        let metadata_filter_dsl = match &dsl_raw {
            Some(raw) => match parse_json_document(raw.as_str()) {
                Some(v) => Some(v),
                None => {
                    return Err(ScopeContractError::InvalidFilterDsl);
                },
            },
            None => None,
        };
        let md1 = metadata_template.duplicate();
        let qf1 = query_filters.duplicate();

        let user_id = match lookup_exec(&md1, "user_id") {
            Some(v) => Some(v),
            None => lookup_exec(&qf1, "user_id"),
        };
        let agent_id = match lookup_exec(&md1, "agent_id") {
            Some(v) => Some(v),
            None => lookup_exec(&qf1, "agent_id"),
        };
        let run_id = match lookup_exec(&md1, "run_id") {
            Some(v) => Some(v),
            None => match lookup_exec(&qf1, "run_id") {
                Some(v) => Some(v),
                None => Some(string_of(&chars_of(session_id))),
            },
        };

        put_exec(&mut metadata_template, "user_id", &user_id);
        put_exec(&mut query_filters, "user_id", &user_id);
        put_exec(&mut metadata_template, "agent_id", &agent_id);
        put_exec(&mut query_filters, "agent_id", &agent_id);
        put_exec(&mut metadata_template, "run_id", &run_id);
        put_exec(&mut query_filters, "run_id", &run_id);

        let actor_id = match lookup_exec(&metadata_template, "actor_id") {
            Some(v) => Some(v),
            None => match lookup_exec(&metadata_template, "actor_filter") {
                Some(v) => Some(v),
                None => match lookup_exec(&metadata_template, "scope_actor_filter") {
                    Some(v) => Some(v),
                    None => lookup_exec(&query_filters, "actor_id"),
                },
            },
        };

        let _ = metadata_template.remove("actor_id");
        let _ = metadata_template.remove("actor_filter");
        let _ = metadata_template.remove("scope_actor_filter");
        put_exec(&mut query_filters, "actor_id", &actor_id);
        metadata_template.insert(
            string_of(&chars_of("scope_contract")),
            string_of(&chars_of("user_agent_run_actor_v1")),
        );

        Ok(
            MemoryScopeContract {
                scope: MemoryScopeSpec { user_id, agent_id, run_id, actor_id },
                metadata_template,
                query_filters,
                metadata_filter_dsl,
            },
        )
    }
}

} // verus!
