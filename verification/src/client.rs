//! The polling client's verified core. The client holds one tenant's current
//! snapshot: the configuration document and its last-modified timestamp. The
//! host performs the HTTP requests and hands status, body and header to
//! [`Client::new`] and [`Client::refresh`]; every decision about what those
//! responses mean — decoding, snapshot replacement, timestamp monotonicity —
//! is made and proved here.

use vstd::prelude::*;

use crate::codec::{json_parsed, parse_json};
use crate::merge::MergeStrategy;
use crate::resolve::{ctxs_view, eval_cac, spec_eval_cac, Context, SpecContext};
use crate::timefmt::{format_rfc2822_secs, parse_rfc2822_secs, rfc2822_secs_of, rfc2822_text_of, MAX_RFC2822_SECS};
use crate::value::{
    group_sval, keys_view, map_clone, map_get, map_view, om_get, om_project, sval, sval_seq,
    sval_entries, SpecEntries, SpecValue, Value,
};

verus! {

/// One tenant's configuration document.
pub struct Config {
    pub contexts: Vec<Context>,
    pub overrides: Vec<(String, Value)>,
    pub default_configs: Vec<(String, Value)>,
}

/// The mathematical model of a [`Config`].
pub struct SpecConfig {
    pub contexts: Seq<SpecContext>,
    pub overrides: SpecEntries,
    pub default_configs: SpecEntries,
}

impl View for Config {
    type V = SpecConfig;

    open spec fn view(&self) -> SpecConfig {
        SpecConfig {
            contexts: ctxs_view(self.contexts@),
            overrides: map_view(self.overrides),
            default_configs: map_view(self.default_configs),
        }
    }
}

/// The override ids of a context, decoded from an array value: every element
/// must be a string.
pub open spec fn spec_ids_of(vs: Seq<SpecValue>) -> Option<Seq<Seq<char>>> {
    if forall|i: int| 0 <= i < vs.len() ==> (#[trigger] vs[i]) is Str {
        Some(Seq::new(vs.len(), |i: int| vs[i]->Str_0))
    } else {
        None
    }
}

/// A context record: an object holding `condition` and `override_with_keys`.
pub open spec fn spec_context_of(v: SpecValue) -> Option<SpecContext> {
    match v {
        SpecValue::Obj(es) => match (om_get(es, "condition"@), om_get(es, "override_with_keys"@)) {
            (Some(cond), Some(SpecValue::Arr(ids))) => match spec_ids_of(ids) {
                Some(idseq) => Some(
                    SpecContext { condition: cond, override_with_keys: idseq },
                ),
                None => None,
            },
            _ => None,
        },
        _ => None,
    }
}

/// The context list of a document: every element must decode as a context.
pub open spec fn spec_contexts_of(vs: Seq<SpecValue>) -> Option<Seq<SpecContext>> {
    if forall|i: int| 0 <= i < vs.len() ==> spec_context_of(#[trigger] vs[i]) is Some {
        Some(Seq::new(vs.len(), |i: int| spec_context_of(vs[i])->Some_0))
    } else {
        None
    }
}

/// The document schema: an object with a `contexts` array, an `overrides`
/// object and a `default_configs` object.
pub open spec fn spec_config_of(v: SpecValue) -> Option<SpecConfig> {
    match v {
        SpecValue::Obj(es) => match (
            om_get(es, "contexts"@),
            om_get(es, "overrides"@),
            om_get(es, "default_configs"@),
        ) {
            (Some(SpecValue::Arr(cs)), Some(SpecValue::Obj(ovr)), Some(SpecValue::Obj(dc))) => match spec_contexts_of(
                cs,
            ) {
                Some(ctxs) => Some(
                    SpecConfig { contexts: ctxs, overrides: ovr, default_configs: dc },
                ),
                None => None,
            },
            _ => None,
        },
        _ => None,
    }
}

/// Decode one context record.
#[verifier::loop_isolation(false)]
fn context_from_value(v: &Value) -> (r: Result<Context, String>)
    ensures
        match r {
            Ok(c) => spec_context_of(v@) == Some(c@),
            Err(_) => spec_context_of(v@) is None,
        },
{
    broadcast use group_sval;

    let entries = match v {
        Value::Obj(entries) => entries,
        _ => {
            return Err("context is not an object".to_owned());
        },
    };
    let cond = match map_get(entries, &"condition".to_owned()) {
        Some(c) => c,
        None => {
            return Err("context lacks a condition".to_owned());
        },
    };
    let ids_value = match map_get(entries, &"override_with_keys".to_owned()) {
        Some(x) => x,
        None => {
            return Err("context lacks override_with_keys".to_owned());
        },
    };
    let ids = match ids_value {
        Value::Arr(ids) => ids,
        _ => {
            return Err("override_with_keys is not an array".to_owned());
        },
    };
    let ghost idv = sval_seq(ids@);
    proof {
        crate::value::lemma_sval_seq_len(ids@);
    }
    let mut out: Vec<String> = Vec::new();
    let mut i: usize = 0;
    while i < ids.len()
        invariant
            i <= ids.len(),
            out@.len() == i,
            forall|j: int| 0 <= j < i ==> (#[trigger] idv[j]) is Str && out@[j]@ == idv[j]->Str_0,
        decreases ids.len() - i,
    {
        proof {
            crate::value::lemma_sval_seq_index(ids@, i as int);
        }
        match &ids[i] {
            Value::Str(s) => {
                out.push(s.clone());
            },
            _ => {
                return Err("override_with_keys holds a non-string".to_owned());
            },
        }
        i += 1;
    }
    let c = Context { condition: cond.deep_clone(), override_with_keys: out };
    proof {
        assert(spec_ids_of(idv) is Some);
        assert(c@.override_with_keys =~= spec_ids_of(idv)->Some_0);
    }
    Ok(c)
}

/// Decode a configuration document from a value tree, checking the document
/// schema exactly.
#[verifier::loop_isolation(false)]
pub fn config_from_value(v: &Value) -> (r: Result<Config, String>)
    ensures
        match r {
            Ok(c) => spec_config_of(v@) == Some(c@),
            Err(_) => spec_config_of(v@) is None,
        },
{
    broadcast use group_sval;

    let entries = match v {
        Value::Obj(entries) => entries,
        _ => {
            return Err("document is not an object".to_owned());
        },
    };
    let cs = match map_get(entries, &"contexts".to_owned()) {
        Some(Value::Arr(cs)) => cs,
        _ => {
            return Err("document lacks a contexts array".to_owned());
        },
    };
    let ovr = match map_get(entries, &"overrides".to_owned()) {
        Some(Value::Obj(ovr)) => ovr,
        _ => {
            return Err("document lacks an overrides object".to_owned());
        },
    };
    let dc = match map_get(entries, &"default_configs".to_owned()) {
        Some(Value::Obj(dc)) => dc,
        _ => {
            return Err("document lacks a default_configs object".to_owned());
        },
    };
    let ghost csv = sval_seq(cs@);
    proof {
        crate::value::lemma_sval_seq_len(cs@);
    }
    let mut contexts: Vec<Context> = Vec::new();
    let mut i: usize = 0;
    while i < cs.len()
        invariant
            i <= cs.len(),
            contexts@.len() == i,
            forall|j: int|
                0 <= j < i ==> spec_context_of(#[trigger] csv[j]) == Some(contexts@[j]@),
        decreases cs.len() - i,
    {
        proof {
            crate::value::lemma_sval_seq_index(cs@, i as int);
        }
        match context_from_value(&cs[i]) {
            Ok(c) => {
                contexts.push(c);
            },
            Err(e) => {
                return Err(e);
            },
        }
        i += 1;
    }
    let c = Config {
        contexts,
        overrides: map_clone(ovr),
        default_configs: map_clone(dc),
    };
    proof {
        assert(spec_contexts_of(csv) is Some);
        assert(c@.contexts =~= spec_contexts_of(csv)->Some_0);
    }
    Ok(c)
}

impl Context {
    /// A deep copy with the same model.
    pub fn deep_clone(&self) -> (r: Context)
        ensures
            r@ == self@,
    {
        let mut ids: Vec<String> = Vec::new();
        let mut i: usize = 0;
        while i < self.override_with_keys.len()
            invariant
                i <= self.override_with_keys.len(),
                ids@.len() == i,
                forall|j: int| 0 <= j < i ==> ids@[j]@ == self.override_with_keys@[j]@,
            decreases self.override_with_keys.len() - i,
        {
            ids.push(self.override_with_keys[i].clone());
            i += 1;
        }
        let r = Context { condition: self.condition.deep_clone(), override_with_keys: ids };
        proof {
            assert(r@.override_with_keys =~= self@.override_with_keys);
        }
        r
    }
}

impl Config {
    /// A deep copy with the same model.
    pub fn deep_clone(&self) -> (r: Config)
        ensures
            r@ == self@,
    {
        let mut contexts: Vec<Context> = Vec::new();
        let mut i: usize = 0;
        while i < self.contexts.len()
            invariant
                i <= self.contexts.len(),
                contexts@.len() == i,
                forall|j: int| 0 <= j < i ==> contexts@[j]@ == self.contexts@[j]@,
            decreases self.contexts.len() - i,
        {
            contexts.push(self.contexts[i].deep_clone());
            i += 1;
        }
        let r = Config {
            contexts,
            overrides: map_clone(&self.overrides),
            default_configs: map_clone(&self.default_configs),
        };
        proof {
            assert(r@.contexts =~= self@.contexts);
        }
        r
    }
}

/// The view of an optional header text.
pub open spec fn opt_text(h: Option<&str>) -> Option<Seq<char>> {
    match h {
        Some(s) => Some(s@),
        None => None,
    }
}

/// What a `Last-Modified` header contributes: its parsed timestamp, when it
/// parses and lies in the representable range; otherwise nothing.
pub open spec fn spec_header_ts(h: Option<Seq<char>>) -> Option<i64> {
    match h {
        Some(s) => match rfc2822_secs_of(s) {
            Some(t) => if 0 <= t <= MAX_RFC2822_SECS {
                Some(t)
            } else {
                None
            },
            None => None,
        },
        None => None,
    }
}

/// The timestamp after a successful refresh: the header's instant when it
/// parses and is newer, the previous one otherwise. The timestamp never
/// regresses.
pub open spec fn spec_next_lm(old_lm: i64, h: Option<Seq<char>>) -> i64 {
    match spec_header_ts(h) {
        Some(t) => if t > old_lm {
            t
        } else {
            old_lm
        },
        None => old_lm,
    }
}

/// Read the `Last-Modified` header, yielding a representable timestamp or
/// nothing.
fn header_timestamp(h: Option<&str>) -> (r: Option<i64>)
    ensures
        r == spec_header_ts(opt_text(h)),
        r matches Some(t) ==> 0 <= t <= MAX_RFC2822_SECS,
{
    match h {
        Some(s) => match parse_rfc2822_secs(s) {
            Some(t) => {
                if 0 <= t && t <= MAX_RFC2822_SECS {
                    Some(t)
                } else {
                    None
                }
            },
            None => None,
        },
        None => None,
    }
}

/// What one refresh attempt did.
#[derive(Clone, Copy, PartialEq, Eq, Structural, Debug)]
pub enum RefreshOutcome {
    /// A fresh document was decoded and installed.
    Updated,
    /// The server answered 304: the snapshot is untouched.
    NotModified,
    /// Transport-level failure or an unexpected status: snapshot untouched.
    FetchFailed,
    /// The body did not decode as a document: snapshot untouched.
    DecodeFailed,
}

/// One tenant's polling client state: the current snapshot and the fixed
/// request parameters. The host owns the HTTP transport and the timer; it
/// feeds each response into [`Client::refresh`].
pub struct Client {
    pub tenant: String,
    pub polling_interval_ms: u64,
    pub last_modified: i64,
    pub config: Config,
}

impl Client {
    /// The snapshot timestamp is always a representable RFC 2822 instant.
    pub open spec fn wf(&self) -> bool {
        0 <= self.last_modified <= MAX_RFC2822_SECS
    }

    /// Construct a client from the initial fetch. Fails on a status outside
    /// the 2xx range, and on a body that does not decode as a document. A
    /// missing or unparseable `Last-Modified` header falls back to the Unix
    /// epoch.
    pub fn new(
        tenant: String,
        polling_interval_ms: u64,
        status: u16,
        body: &str,
        last_modified_header: Option<&str>,
    ) -> (r: Result<Client, String>)
        ensures
            r is Ok <==> (200 <= status < 300 && (json_parsed(body@) matches Some(v)
                && spec_config_of(v) is Some)),
            r matches Ok(c) ==> {
                &&& c.wf()
                &&& c.tenant@ == tenant@
                &&& c.polling_interval_ms == polling_interval_ms
                &&& (json_parsed(body@) matches Some(v) && spec_config_of(v) == Some(c.config@))
                &&& c.last_modified == spec_next_lm(0, opt_text(last_modified_header))
            },
    {
        if !(200 <= status && status < 300) {
            return Err("fetch failed: unexpected status".to_owned());
        }
        let parsed = match parse_json(body) {
            Some(v) => v,
            None => {
                return Err("decode error: body is not JSON".to_owned());
            },
        };
        let config = match config_from_value(&parsed) {
            Ok(c) => c,
            Err(e) => {
                return Err(e);
            },
        };
        let last_modified: i64 = match header_timestamp(last_modified_header) {
            Some(t) => if t > 0 {
                t
            } else {
                0
            },
            None => 0,
        };
        Ok(Client { tenant, polling_interval_ms, last_modified, config })
    }

    /// Digest one conditional-refresh response. A 304 leaves every field
    /// unchanged; a 200 whose body decodes installs the new document and
    /// advances the timestamp, which never regresses; anything else, and a
    /// 200 whose body does not decode, leaves the snapshot untouched.
    pub fn refresh(&mut self, status: u16, body: &str, last_modified_header: Option<&str>) -> (r:
        RefreshOutcome)
        requires
            old(self).wf(),
        ensures
            final(self).wf(),
            final(self).tenant == old(self).tenant,
            final(self).polling_interval_ms == old(self).polling_interval_ms,
            final(self).last_modified >= old(self).last_modified,
            status == 304 ==> r == RefreshOutcome::NotModified && *final(self) == *old(self),
            status == 200 ==> match json_parsed(body@) {
                Some(v) => match spec_config_of(v) {
                    Some(cfg) => r == RefreshOutcome::Updated && final(self).config@ == cfg
                        && final(self).last_modified == spec_next_lm(
                        old(self).last_modified,
                        opt_text(last_modified_header),
                    ),
                    None => r == RefreshOutcome::DecodeFailed && *final(self) == *old(self),
                },
                None => r == RefreshOutcome::DecodeFailed && *final(self) == *old(self),
            },
            status != 200 && status != 304 ==> r == RefreshOutcome::FetchFailed && *final(self)
                == *old(self),
    {
        if status == 304 {
            return RefreshOutcome::NotModified;
        }
        if status != 200 {
            return RefreshOutcome::FetchFailed;
        }
        let parsed = match parse_json(body) {
            Some(v) => v,
            None => {
                return RefreshOutcome::DecodeFailed;
            },
        };
        let config = match config_from_value(&parsed) {
            Ok(c) => c,
            Err(_) => {
                return RefreshOutcome::DecodeFailed;
            },
        };
        self.config = config;
        match header_timestamp(last_modified_header) {
            Some(t) => {
                if t > self.last_modified {
                    self.last_modified = t;
                }
            },
            None => {},
        }
        RefreshOutcome::Updated
    }

    /// The `If-Modified-Since` value for the next conditional request: the
    /// snapshot timestamp in RFC 2822 form.
    pub fn if_modified_since(&self) -> (r: String)
        requires
            self.wf(),
        ensures
            r@ == rfc2822_text_of(self.last_modified),
    {
        format_rfc2822_secs(self.last_modified)
    }

    /// A copy of the current document.
    pub fn get_full_config_state(&self) -> (r: Result<Config, String>)
        ensures
            r matches Ok(c) && c@ == self.config@,
    {
        Ok(self.config.deep_clone())
    }

    /// The current snapshot timestamp, in seconds since the Unix epoch.
    pub fn get_last_modified(&self) -> (r: Result<i64, String>)
        ensures
            r == Ok::<i64, String>(self.last_modified),
    {
        Ok(self.last_modified)
    }

    /// Resolve the current document against a query.
    pub fn eval(
        &self,
        query_data: &Vec<(String, Value)>,
        merge_strategy: MergeStrategy,
    ) -> (r: Result<Vec<(String, Value)>, String>)
        ensures
            r is Ok,
            map_view(r->Ok_0) == spec_eval_cac(
                self.config@.default_configs,
                self.config@.contexts,
                self.config@.overrides,
                map_view(*query_data),
                merge_strategy,
            ),
    {
        let defaults = map_clone(&self.config.default_configs);
        eval_cac(defaults, &self.config.contexts, &self.config.overrides, query_data, merge_strategy)
    }

    /// Resolve and filter: with a non-empty key list the result is exactly
    /// the projection of the fully resolved configuration onto those keys;
    /// an empty key list returns everything.
    pub fn get_resolved_config(
        &self,
        query_data: &Vec<(String, Value)>,
        keys: &Vec<String>,
        merge_strategy: MergeStrategy,
    ) -> (r: Result<Vec<(String, Value)>, String>)
        ensures
            r is Ok,
            map_view(r->Ok_0) == {
                let full = spec_eval_cac(
                    self.config@.default_configs,
                    self.config@.contexts,
                    self.config@.overrides,
                    map_view(*query_data),
                    merge_strategy,
                );
                if keys@.len() == 0 {
                    full
                } else {
                    om_project(full, keys_view(keys@))
                }
            },
    {
        let full = match self.eval(query_data, merge_strategy) {
            Ok(m) => m,
            Err(e) => {
                return Err(e);
            },
        };
        if keys.len() == 0 {
            return Ok(full);
        }
        Ok(crate::value::project_map(&full, keys))
    }

    /// The defaults, filtered to the named keys; an empty key list returns
    /// them all.
    pub fn get_default_config(&self, keys: &Vec<String>) -> (r: Result<
        Vec<(String, Value)>,
        String,
    >)
        ensures
            r is Ok,
            map_view(r->Ok_0) == if keys@.len() == 0 {
                self.config@.default_configs
            } else {
                om_project(self.config@.default_configs, keys_view(keys@))
            },
    {
        if keys.len() == 0 {
            return Ok(map_clone(&self.config.default_configs));
        }
        Ok(crate::value::project_map(&self.config.default_configs, keys))
    }
}

} // verus!
