//! Supervisor configuration: static process configs with dependency-ordered
//! startup, and processes discovered from `.processes.json` documents.

use vstd::prelude::*;

use crate::json::JsonValue;

verus! {

/// When a supervised process is restarted after it exits.
#[derive(Debug, Clone, Copy, PartialEq, Eq, Structural)]
pub enum RestartMode {
    Always,
    OnFailure,
    Never,
}

/// Restart policy of one supervised process.
#[derive(Debug, Clone, Copy, PartialEq, Eq, Structural)]
pub struct RestartPolicy {
    pub policy: RestartMode,
    pub backoff_ms: u64,
    pub max_backoff_ms: u64,
}

/// The default broker address used when the config names none.
pub fn default_mqtt_broker() -> (r: String)
    ensures
        r@ == "localhost:1883"@,
{
    String::from_str("localhost:1883")
}

/// The default restart mode.
pub fn default_policy() -> (r: RestartMode)
    ensures
        r == RestartMode::Always,
{
    RestartMode::Always
}

/// The default restart backoff, in milliseconds.
pub fn default_backoff() -> (r: u64)
    ensures
        r == 500,
{
    500
}

/// The default restart backoff ceiling, in milliseconds.
pub fn default_max_backoff() -> (r: u64)
    ensures
        r == 10000,
{
    10000
}

/// The policy a process gets when the config names none.
pub open spec fn spec_default_restart_policy() -> RestartPolicy {
    RestartPolicy { policy: RestartMode::Always, backoff_ms: 500, max_backoff_ms: 10000 }
}

impl Default for RestartPolicy {
    fn default() -> (r: RestartPolicy)
        ensures
            r == spec_default_restart_policy(),
    {
        RestartPolicy { policy: RestartMode::Always, backoff_ms: 500, max_backoff_ms: 10000 }
    }
}

/// Configuration of one supervised process.
#[derive(Debug)]
pub struct ProcessConfig {
    pub command: String,
    pub args: Vec<String>,
    pub restart: RestartPolicy,
    pub depends_on: Vec<String>,
}

/// The whole supervisor configuration.
#[derive(Debug)]
pub struct OrchestratorConfig {
    pub mqtt_broker: String,
    pub processes: Vec<(String, ProcessConfig)>,
}

/// Mathematical model of a process config.
pub struct ProcessConfigModel {
    pub command: Seq<char>,
    pub args: Seq<Seq<char>>,
    pub restart: RestartPolicy,
    pub depends_on: Seq<Seq<char>>,
}

/// Mathematical model of the supervisor configuration.
pub struct OrchestratorConfigModel {
    pub mqtt_broker: Seq<char>,
    pub processes: Seq<(Seq<char>, ProcessConfigModel)>,
}

/// The model of a process config.
pub open spec fn process_config_view(c: ProcessConfig) -> ProcessConfigModel {
    ProcessConfigModel {
        command: c.command@,
        args: c.args.deep_view(),
        restart: c.restart,
        depends_on: c.depends_on.deep_view(),
    }
}

/// The model of the configuration.
pub open spec fn config_view(c: OrchestratorConfig) -> OrchestratorConfigModel {
    OrchestratorConfigModel {
        mqtt_broker: c.mqtt_broker@,
        processes: Seq::new(
            c.processes@.len(),
            |i: int| (c.processes@[i].0@, process_config_view(c.processes@[i].1)),
        ),
    }
}

/// A string field that must be a JSON string when present.
pub open spec fn spec_str_field(
    fields: Seq<(String, JsonValue)>,
    key: Seq<char>,
) -> Option<Option<Seq<char>>> {
    match JsonValue::spec_field(fields, key) {
        None => Some(None),
        Some(JsonValue::Str(s)) => Some(Some(s@)),
        Some(_) => None,
    }
}

/// A u64 field that must be a JSON number when present.
pub open spec fn spec_u64_field(
    fields: Seq<(String, JsonValue)>,
    key: Seq<char>,
) -> Option<Option<u64>> {
    match JsonValue::spec_field(fields, key) {
        None => Some(None),
        Some(JsonValue::UInt(n)) => Some(Some(n)),
        Some(_) => None,
    }
}

/// The list of strings a JSON array holds, or `None` when an element is
/// not a string.
pub open spec fn spec_str_list(items: Seq<JsonValue>) -> Option<Seq<Seq<char>>>
    decreases items.len(),
{
    if items.len() == 0 {
        Some(Seq::empty())
    } else {
        match items[0] {
            JsonValue::Str(s) => match spec_str_list(items.drop_first()) {
                Some(rest) => Some(seq![s@] + rest),
                None => None,
            },
            _ => None,
        }
    }
}

/// The restart mode a JSON string names.
pub open spec fn spec_restart_mode(s: Seq<char>) -> Option<RestartMode> {
    if s == "always"@ {
        Some(RestartMode::Always)
    } else if s == "on_failure"@ {
        Some(RestartMode::OnFailure)
    } else if s == "never"@ {
        Some(RestartMode::Never)
    } else {
        None
    }
}

/// The restart policy a JSON value describes; absent fields default.
pub open spec fn spec_restart_of_json(v: JsonValue) -> Option<RestartPolicy> {
    match v {
        JsonValue::Object(fields) => {
            let mode = match JsonValue::spec_field(fields@, "policy"@) {
                None => Some(RestartMode::Always),
                Some(JsonValue::Str(s)) => spec_restart_mode(s@),
                Some(_) => None,
            };
            match (mode, spec_u64_field(fields@, "backoff_ms"@), spec_u64_field(
                fields@,
                "max_backoff_ms"@,
            )) {
                (Some(policy), Some(backoff), Some(max_backoff)) => Some(
                    RestartPolicy {
                        policy,
                        backoff_ms: match backoff {
                            Some(b) => b,
                            None => 500,
                        },
                        max_backoff_ms: match max_backoff {
                            Some(m) => m,
                            None => 10000,
                        },
                    },
                ),
                _ => None,
            }
        },
        _ => None,
    }
}

/// The process config a JSON value describes.
pub open spec fn spec_process_config_of_json(v: JsonValue) -> Option<ProcessConfigModel> {
    match v {
        JsonValue::Object(fields) => {
            let command = match JsonValue::spec_field(fields@, "command"@) {
                Some(JsonValue::Str(s)) => Some(s@),
                _ => None,
            };
            let args = match JsonValue::spec_field(fields@, "args"@) {
                None => Some(Seq::<Seq<char>>::empty()),
                Some(JsonValue::Array(items)) => spec_str_list(items@),
                Some(_) => None,
            };
            let restart = match JsonValue::spec_field(fields@, "restart"@) {
                None => Some(spec_default_restart_policy()),
                Some(rv) => spec_restart_of_json(rv),
            };
            let depends_on = match JsonValue::spec_field(fields@, "depends_on"@) {
                None => Some(Seq::<Seq<char>>::empty()),
                Some(JsonValue::Array(items)) => spec_str_list(items@),
                Some(_) => None,
            };
            match (command, args, restart, depends_on) {
                (Some(command), Some(args), Some(restart), Some(depends_on)) => Some(
                    ProcessConfigModel { command, args, restart, depends_on },
                ),
                _ => None,
            }
        },
        _ => None,
    }
}

/// The process map a JSON object's fields describe, in field order.
pub open spec fn spec_processes_of_json(fields: Seq<(String, JsonValue)>) -> Option<
    Seq<(Seq<char>, ProcessConfigModel)>,
>
    decreases fields.len(),
{
    if fields.len() == 0 {
        Some(Seq::empty())
    } else {
        match spec_process_config_of_json(fields[0].1) {
            None => None,
            Some(c) => match spec_processes_of_json(fields.drop_first()) {
                None => None,
                Some(rest) => Some(seq![(fields[0].0@, c)] + rest),
            },
        }
    }
}

/// The configuration a JSON value describes.
pub open spec fn spec_config_of_json(v: JsonValue) -> Option<OrchestratorConfigModel> {
    match v {
        JsonValue::Object(fields) => {
            let broker = match JsonValue::spec_field(fields@, "mqtt_broker"@) {
                None => Some("localhost:1883"@),
                Some(JsonValue::Str(s)) => Some(s@),
                Some(_) => None,
            };
            match (broker, JsonValue::spec_field(fields@, "processes"@)) {
                (Some(mqtt_broker), Some(JsonValue::Object(pf))) => match spec_processes_of_json(
                    pf@,
                ) {
                    Some(processes) => Some(OrchestratorConfigModel { mqtt_broker, processes }),
                    None => None,
                },
                _ => None,
            }
        },
        _ => None,
    }
}

/// The configuration a text parses to.
pub open spec fn spec_parse_config(s: Seq<char>) -> Option<OrchestratorConfigModel> {
    match crate::json::parsed_json(s) {
        None => None,
        Some(v) => spec_config_of_json(v),
    }
}

fn str_field_of(v: &JsonValue, key: &str) -> (r: Option<Option<String>>)
    ensures
        match *v {
            JsonValue::Object(fields) => match spec_str_field(fields@, key@) {
                Some(m) => r matches Some(o) && crate::fs::opt_str_view(o) == m,
                None => r is None,
            },
            _ => true,
        },
{
    match v.get(key) {
        None => Some(None),
        Some(JsonValue::Str(s)) => Some(Some(s.clone())),
        Some(_) => None,
    }
}

fn u64_field_of(v: &JsonValue, key: &str) -> (r: Option<Option<u64>>)
    ensures
        match *v {
            JsonValue::Object(fields) => r == spec_u64_field(fields@, key@),
            _ => true,
        },
{
    match v.get(key) {
        None => Some(None),
        Some(JsonValue::UInt(n)) => Some(Some(*n)),
        Some(_) => None,
    }
}

fn str_list_of(items: &Vec<JsonValue>) -> (r: Option<Vec<String>>)
    ensures
        match spec_str_list(items@) {
            Some(m) => r matches Some(v) && v.deep_view() == m,
            None => r is None,
        },
{
    let ghost all = items@;
    proof {
        assert(all.subrange(0, all.len() as int) =~= all);
    }
    let mut out: Vec<String> = Vec::new();
    let mut k: usize = 0;
    loop
        invariant
            k <= items@.len(),
            items@ == all,
            match spec_str_list(all.subrange(k as int, all.len() as int)) {
                Some(rest) => spec_str_list(all) == Some(out.deep_view() + rest),
                None => spec_str_list(all) is None,
            },
        decreases items@.len() - k,
    {
        if k >= items.len() {
            proof {
                assert(all.subrange(k as int, all.len() as int) =~= Seq::empty());
                assert(out.deep_view() + Seq::<Seq<char>>::empty() =~= out.deep_view());
            }
            return Some(out);
        }
        let ghost rest = all.subrange(k as int, all.len() as int);
        proof {
            assert(rest[0] == all[k as int]);
            assert(rest.drop_first() =~= all.subrange(k as int + 1, all.len() as int));
        }
        match &items[k] {
            JsonValue::Str(s) => {
                let ghost dv = out.deep_view();
                out.push(s.clone());
                proof {
                    assert(out.deep_view() =~= dv.push(s@));
                    match spec_str_list(all.subrange(k as int + 1, all.len() as int)) {
                        Some(tail) => {
                            assert(dv + (seq![s@] + tail) =~= out.deep_view() + tail);
                        },
                        None => {},
                    }
                }
            },
            _ => {
                return None;
            },
        }
        k = k + 1;
    }
}

fn restart_of_json(v: &JsonValue) -> (r: Option<RestartPolicy>)
    ensures
        r == spec_restart_of_json(*v),
{
    match v {
        JsonValue::Object(_) => {},
        _ => {
            return None;
        },
    }
    let policy = match v.get("policy") {
        None => RestartMode::Always,
        Some(JsonValue::Str(s)) => {
            if crate::text::str_eq(s.as_str(), "always") {
                RestartMode::Always
            } else if crate::text::str_eq(s.as_str(), "on_failure") {
                RestartMode::OnFailure
            } else if crate::text::str_eq(s.as_str(), "never") {
                RestartMode::Never
            } else {
                return None;
            }
        },
        Some(_) => {
            return None;
        },
    };
    let backoff_ms = match u64_field_of(v, "backoff_ms") {
        Some(Some(b)) => b,
        Some(None) => 500,
        None => {
            return None;
        },
    };
    let max_backoff_ms = match u64_field_of(v, "max_backoff_ms") {
        Some(Some(m)) => m,
        Some(None) => 10000,
        None => {
            return None;
        },
    };
    Some(RestartPolicy { policy, backoff_ms, max_backoff_ms })
}

fn process_config_of_json(v: &JsonValue) -> (r: Option<ProcessConfig>)
    ensures
        match spec_process_config_of_json(*v) {
            Some(m) => r matches Some(c) && process_config_view(c) == m,
            None => r is None,
        },
{
    match v {
        JsonValue::Object(_) => {},
        _ => {
            return None;
        },
    }
    let command = match v.get("command") {
        Some(JsonValue::Str(s)) => s.clone(),
        _ => {
            return None;
        },
    };
    let args = match v.get("args") {
        None => Vec::new(),
        Some(JsonValue::Array(items)) => match str_list_of(items) {
            Some(a) => a,
            None => {
                return None;
            },
        },
        Some(_) => {
            return None;
        },
    };
    let restart = match v.get("restart") {
        None => RestartPolicy {
            policy: RestartMode::Always,
            backoff_ms: 500,
            max_backoff_ms: 10000,
        },
        Some(rv) => match restart_of_json(rv) {
            Some(p) => p,
            None => {
                return None;
            },
        },
    };
    let depends_on = match v.get("depends_on") {
        None => Vec::new(),
        Some(JsonValue::Array(items)) => match str_list_of(items) {
            Some(a) => a,
            None => {
                return None;
            },
        },
        Some(_) => {
            return None;
        },
    };
    let c = ProcessConfig { command, args, restart, depends_on };
    proof {
        if c.args@.len() == 0 {
            assert(c.args.deep_view() =~= Seq::<Seq<char>>::empty());
        }
        if c.depends_on@.len() == 0 {
            assert(c.depends_on.deep_view() =~= Seq::<Seq<char>>::empty());
        }
    }
    Some(c)
}

/// The config of the first process with the given name.
pub open spec fn spec_proc_lookup(
    procs: Seq<(Seq<char>, ProcessConfigModel)>,
    name: Seq<char>,
) -> Option<ProcessConfigModel>
    decreases procs.len(),
{
    if procs.len() == 0 {
        None
    } else if procs[0].0 == name {
        Some(procs[0].1)
    } else {
        spec_proc_lookup(procs.drop_first(), name)
    }
}

/// Whether a process of that name is configured.
pub open spec fn has_proc(procs: Seq<(Seq<char>, ProcessConfigModel)>, name: Seq<char>) -> bool {
    spec_proc_lookup(procs, name) is Some
}

/// The declared dependencies of a named process.
pub open spec fn spec_deps(
    procs: Seq<(Seq<char>, ProcessConfigModel)>,
    name: Seq<char>,
) -> Seq<Seq<char>> {
    match spec_proc_lookup(procs, name) {
        Some(c) => c.depends_on,
        None => Seq::empty(),
    }
}

/// A found process exists at some index; absence means no index names it.
pub proof fn lemma_proc_lookup(procs: Seq<(Seq<char>, ProcessConfigModel)>, name: Seq<char>)
    ensures
        match spec_proc_lookup(procs, name) {
            Some(c) => exists|i: int| 0 <= i < procs.len() && (#[trigger] procs[i]) == (name, c),
            None => forall|i: int| 0 <= i < procs.len() ==> procs[i].0 != name,
        },
    decreases procs.len(),
{
    if procs.len() > 0 && procs[0].0 == name {
        assert(procs[0] == (name, procs[0].1));
    }
    if procs.len() > 0 && procs[0].0 != name {
        lemma_proc_lookup(procs.drop_first(), name);
        assert(forall|j: int| 0 <= j < procs.len() - 1 ==> procs.drop_first()[j] == procs[j + 1]);
        match spec_proc_lookup(procs.drop_first(), name) {
            Some(c) => {
                let i = choose|i: int|
                    0 <= i < procs.drop_first().len() && procs.drop_first()[i] == (name, c);
                assert(procs[i + 1] == (name, c));
            },
            None => {
                assert forall|i: int| 0 <= i < procs.len() implies procs[i].0 != name by {
                    if i > 0 {
                        assert(procs.drop_first()[i - 1] == procs[i]);
                    }
                }
            },
        }
    }
}

/// A valid startup order: distinct configured names whose declared
/// dependencies all come earlier in the order.
pub open spec fn topo_order_ok(
    procs: Seq<(Seq<char>, ProcessConfigModel)>,
    order: Seq<Seq<char>>,
) -> bool {
    &&& forall|i: int, j: int| 0 <= i < j < order.len() ==> order[i] != order[j]
    &&& forall|i: int| 0 <= i < order.len() ==> has_proc(procs, order[i])
    &&& forall|i: int, k: int|
        0 <= i < order.len() && 0 <= k < spec_deps(procs, order[i]).len() ==> order.subrange(
            0,
            i,
        ).contains(spec_deps(procs, order[i])[k])
}

/// Some configured process names a dependency that is not configured.
pub open spec fn has_unknown_dep(procs: Seq<(Seq<char>, ProcessConfigModel)>) -> bool {
    exists|i: int, k: int|
        0 <= i < procs.len() && 0 <= k < procs[i].1.depends_on.len() && !has_proc(
            procs,
            procs[i].1.depends_on[k],
        )
}

/// Each chain member depends on the next.
pub open spec fn dep_linked(
    procs: Seq<(Seq<char>, ProcessConfigModel)>,
    chain: Seq<Seq<char>>,
) -> bool {
    forall|i: int|
        0 <= i < chain.len() - 1 ==> spec_deps(procs, chain[i]).contains(chain[i + 1])
}

/// A dependency cycle: a nonempty chain of configured processes, each
/// depending on the next, whose last member depends on the first.
pub open spec fn has_dep_cycle(procs: Seq<(Seq<char>, ProcessConfigModel)>) -> bool {
    exists|chain: Seq<Seq<char>>|
        {
            &&& chain.len() >= 1
            &&& forall|i: int| 0 <= i < chain.len() ==> has_proc(procs, chain[i])
            &&& dep_linked(procs, chain)
            &&& spec_deps(procs, chain.last()).contains(chain[0])
        }
}

/// The configured names, as a set.
pub open spec fn proc_name_set(procs: Seq<(Seq<char>, ProcessConfigModel)>) -> Set<Seq<char>> {
    procs.map_values(|p: (Seq<char>, ProcessConfigModel)| p.0).to_set()
}

/// How many configured names the depth-first walk may still enter.
pub open spec fn proc_free(
    procs: Seq<(Seq<char>, ProcessConfigModel)>,
    visiting: Seq<String>,
) -> nat {
    proc_name_set(procs).difference(crate::fs::str_set(visiting)).len()
}

proof fn lemma_proc_free_decrease(
    procs: Seq<(Seq<char>, ProcessConfigModel)>,
    visiting: Seq<String>,
    name: Seq<char>,
)
    requires
        has_proc(procs, name),
        !crate::fs::str_set(visiting).contains(name),
    ensures
        proc_name_set(procs).difference(crate::fs::str_set(visiting).insert(name)).len()
            < proc_free(procs, visiting),
{
    broadcast use vstd::seq_lib::seq_to_set_is_finite;

    lemma_proc_lookup(procs, name);
    let mapped = procs.map_values(|p: (Seq<char>, ProcessConfigModel)| p.0);
    let i = choose|i: int|
        0 <= i < procs.len() && procs[i] == (name, spec_proc_lookup(procs, name).unwrap());
    assert(mapped[i] == name);
    assert(mapped.contains(name));
    assert(proc_name_set(procs).contains(name));
    let stack = crate::fs::str_set(visiting);
    let d1 = proc_name_set(procs).difference(stack);
    let d2 = proc_name_set(procs).difference(stack.insert(name));
    assert(d1.finite()) by {
        vstd::set_lib::lemma_set_subset_finite(proc_name_set(procs), d1);
    }
    assert(d2 =~= d1.remove(name));
    assert(d1.contains(name));
    assert(d1.remove(name).len() == d1.len() - 1);
}

/// Find a process config by name.
fn proc_get<'a>(processes: &'a Vec<(String, ProcessConfig)>, name: &str) -> (r: Option<
    &'a ProcessConfig,
>)
    ensures
        match spec_proc_lookup(procs_view(processes@), name@) {
            Some(m) => r matches Some(c) && process_config_view(*c) == m,
            None => r is None,
        },
{
    let ghost pm = procs_view(processes@);
    proof {
        assert(pm.subrange(0, pm.len() as int) =~= pm);
    }
    let mut k: usize = 0;
    loop
        invariant
            k <= processes@.len(),
            pm == procs_view(processes@),
            pm.len() == processes@.len(),
            forall|i: int|
                0 <= i < processes@.len() ==> pm[i] == (
                    processes@[i].0@,
                    process_config_view(processes@[i].1),
                ),
            match spec_proc_lookup(pm.subrange(k as int, pm.len() as int), name@) {
                Some(m) => spec_proc_lookup(pm, name@) == Some(m),
                None => spec_proc_lookup(pm, name@) is None,
            },
        decreases processes@.len() - k,
    {
        if k >= processes.len() {
            proof {
                assert(pm.subrange(k as int, pm.len() as int) =~= Seq::empty());
            }
            return None;
        }
        let ghost rest = pm.subrange(k as int, pm.len() as int);
        proof {
            assert(rest[0] == pm[k as int]);
            assert(rest.drop_first() =~= pm.subrange(k as int + 1, pm.len() as int));
        }
        if crate::text::str_eq(processes[k].0.as_str(), name) {
            return Some(&processes[k].1);
        }
        k = k + 1;
    }
}

/// The model of a process list.
pub open spec fn procs_view(processes: Seq<(String, ProcessConfig)>) -> Seq<
    (Seq<char>, ProcessConfigModel),
> {
    Seq::new(processes.len(), |i: int| (processes[i].0@, process_config_view(processes[i].1)))
}

/// Depth-first visit of one configured process: emits its transitive
/// dependencies, then the process itself.
fn visit(
    processes: &Vec<(String, ProcessConfig)>,
    name: &String,
    visiting: &mut Vec<String>,
    order: &mut Vec<String>,
) -> (r: Result<(), String>)
    requires
        has_proc(procs_view(processes@), name@),
        topo_order_ok(procs_view(processes@), old(order).deep_view()),
        forall|i: int|
            0 <= i < old(visiting)@.len() ==> has_proc(
                procs_view(processes@),
                old(visiting)@[i]@,
            ),
        dep_linked(
            procs_view(processes@),
            old(visiting)@.map_values(|s: String| s@),
        ),
        old(visiting)@.len() > 0 ==> spec_deps(
            procs_view(processes@),
            old(visiting)@.last()@,
        ).contains(name@),
        forall|i: int, j: int|
            0 <= i < old(order)@.len() && 0 <= j < old(visiting)@.len()
                ==> old(order)@[i]@ != old(visiting)@[j]@,
    ensures
        r is Ok ==> final(visiting)@ == old(visiting)@,
        r is Ok ==> {
            &&& topo_order_ok(procs_view(processes@), final(order).deep_view())
            &&& old(order).deep_view().is_prefix_of(final(order).deep_view())
            &&& final(order).deep_view().contains(name@)
            &&& forall|i: int, j: int|
                0 <= i < final(order)@.len() && 0 <= j < old(visiting)@.len()
                    ==> final(order)@[i]@ != old(visiting)@[j]@
        },
        r is Err ==> has_unknown_dep(procs_view(processes@)) || has_dep_cycle(
            procs_view(processes@),
        ),
    decreases proc_free(procs_view(processes@), visiting@),
{
    let ghost pm = procs_view(processes@);
    if crate::fs::contains_str(order, name.as_str()) {
        proof {
            crate::fs::lemma_str_set_members(order@);
            let i = choose|i: int| 0 <= i < order@.len() && order@[i]@ == name@;
            assert(order.deep_view()[i] == name@);
            assert(order.deep_view().subrange(0, order.deep_view().len() as int) =~= order.deep_view());
        }
        return Ok(());
    }
    if crate::fs::contains_str(visiting, name.as_str()) {
        proof {
            let dv = visiting@.map_values(|s: String| s@);
            let p = choose|p: int| 0 <= p < visiting@.len() && visiting@[p]@ == name@;
            let chain = dv.subrange(p, dv.len() as int);
            assert(chain.len() >= 1);
            assert(forall|i: int| 0 <= i < chain.len() ==> chain[i] == dv[i + p]);
            assert(chain[0] == name@);
            assert forall|i: int| 0 <= i < chain.len() implies has_proc(pm, chain[i]) by {
                assert(chain[i] == visiting@[i + p]@);
            }
            assert forall|i: int| 0 <= i < chain.len() - 1 implies spec_deps(
                pm,
                chain[i],
            ).contains(chain[i + 1]) by {
                assert(dv[i + p] == chain[i] && dv[i + p + 1] == chain[i + 1]);
            }
            assert(chain.last() == dv.last());
            assert(dep_linked(pm, chain));
            assert(spec_deps(pm, chain.last()).contains(chain[0]));
            assert(forall|i: int| 0 <= i < chain.len() ==> has_proc(pm, chain[i]));
            assert(has_dep_cycle(pm));
        }
        return Err(String::from_str("dependency cycle detected"));
    }
    let config = match proc_get(processes, name.as_str()) {
        Some(c) => c,
        None => {
            return Err(String::from_str("process not found"));
        },
    };
    let ghost visiting0 = visiting@;
    proof {
        crate::fs::lemma_str_set_members(order@);
        crate::fs::lemma_str_set_members(visiting0);
        assert forall|i: int| 0 <= i < order@.len() implies order@[i]@ != name@ by {
            if order@[i]@ == name@ {
                assert(crate::fs::str_set(order@).contains(name@));
            }
        }
        assert(!crate::fs::str_set(visiting0).contains(name@));
    }
    let cl = name.clone();
    let ghost clg = cl;
    visiting.push(cl);
    proof {
        crate::fs::lemma_str_set_push(visiting0, clg);
        lemma_proc_free_decrease(pm, visiting0, name@);
        assert(visiting@.map_values(|s: String| s@) =~= visiting0.map_values(|s: String| s@).push(
            name@,
        ));
    }
    let ghost deps_model = spec_deps(pm, name@);
    proof {
        assert(process_config_view(*config).depends_on == deps_model);
    }
    let mut k: usize = 0;
    while k < config.depends_on.len()
        invariant
            k <= config.depends_on@.len(),
            visiting0 == old(visiting)@,
            proc_name_set(pm).difference(crate::fs::str_set(visiting@)).len() < proc_free(
                pm,
                visiting0,
            ),
            pm == procs_view(processes@),
            deps_model == spec_deps(pm, name@),
            deps_model == config.depends_on.deep_view(),
            deps_model.len() == config.depends_on@.len(),
            forall|i: int|
                0 <= i < config.depends_on@.len() ==> deps_model[i] == config.depends_on@[i]@,
            visiting@ == visiting0.push(clg),
            clg@ == name@,
            has_proc(pm, name@),
            topo_order_ok(pm, order.deep_view()),
            old(order).deep_view().is_prefix_of(order.deep_view()),
            forall|i: int|
                0 <= i < visiting@.len() ==> has_proc(pm, visiting@[i]@),
            dep_linked(pm, visiting@.map_values(|s: String| s@)),
            forall|i: int, j: int|
                0 <= i < order@.len() && 0 <= j < visiting@.len() ==> order@[i]@ != visiting@[j]@,
            forall|d: Seq<char>|
                deps_model.subrange(0, k as int).contains(d) ==> order.deep_view().contains(d),
        decreases config.depends_on@.len() - k,
    {
        let dep = &config.depends_on[k];
        if proc_get(processes, dep.as_str()).is_none() {
            proof {
                lemma_proc_lookup(pm, name@);
                let c = spec_proc_lookup(pm, name@).unwrap();
                let i = choose|i: int| 0 <= i < pm.len() && pm[i] == (name@, c);
                assert(pm[i].1.depends_on == deps_model);
                assert(deps_model[k as int] == dep@);
                assert(0 <= i < pm.len() && 0 <= k < pm[i].1.depends_on.len() && !has_proc(
                    pm,
                    pm[i].1.depends_on[k as int],
                ));
                assert(has_unknown_dep(pm));
            }
            return Err(String::from_str("unknown dependency"));
        }
        proof {
            assert(visiting@.last()@ == name@);
            assert(spec_deps(pm, name@).contains(dep@)) by {
                assert(deps_model[k as int] == dep@);
            }
        }
        let ghost odv = order.deep_view();
        proof {
            assert(forall|d: Seq<char>|
                deps_model.subrange(0, k as int).contains(d) ==> odv.contains(d));
        }
        match visit(processes, dep, visiting, order) {
            Ok(()) => {},
            Err(e) => {
                return Err(e);
            },
        }
        proof {
            let dv = order.deep_view();
            assert(dv.subrange(0, odv.len() as int) =~= odv);
            let pre = deps_model.subrange(0, k as int);
            let post = deps_model.subrange(0, k as int + 1);
            assert(post =~= pre.push(deps_model[k as int]));
            assert forall|d: Seq<char>| post.contains(d) implies dv.contains(d) by {
                let i = choose|i: int| 0 <= i < post.len() && post[i] == d;
                if i < k {
                    assert(pre[i] == d);
                    assert(pre.contains(d));
                    assert(odv.contains(d));
                    let p = choose|p: int| 0 <= p < odv.len() && odv[p] == d;
                    assert(dv[p] == d);
                    assert(dv.contains(d));
                } else {
                    assert(d == deps_model[k as int]);
                    assert(d == dep@);
                    assert(dv.contains(dep@));
                }
            }
        }
        k = k + 1;
    }
    let _ = visiting.pop();
    proof {
        assert(visiting@ =~= visiting0);
    }
    let ghost order0 = order.deep_view();
    order.push(name.clone());
    proof {
        let dv = order.deep_view();
        assert(dv =~= order0.push(name@));
        assert(deps_model.subrange(0, deps_model.len() as int) =~= deps_model);
        assert forall|i: int, kk: int|
            0 <= i < dv.len() && 0 <= kk < spec_deps(pm, dv[i]).len() implies dv.subrange(
            0,
            i,
        ).contains(spec_deps(pm, dv[i])[kk]) by {
            if i < order0.len() {
                assert(dv[i] == order0[i]);
                assert(order0.subrange(0, i).contains(spec_deps(pm, order0[i])[kk]));
                assert(order0.subrange(0, i) =~= dv.subrange(0, i));
            } else {
                assert(dv[i] == name@);
                assert(deps_model.subrange(0, deps_model.len() as int).contains(
                    deps_model[kk],
                ));
                assert(order0.contains(spec_deps(pm, name@)[kk]));
                assert(dv.subrange(0, i) =~= order0);
            }
        }
        assert forall|i: int, j: int| 0 <= i < j < dv.len() implies dv[i] != dv[j] by {
            if j == order0.len() {
                assert(dv[j] == name@);
                assert(dv[i] == order0[i]);
            }
        }
        assert(dv[order0.len() as int] == name@);
        assert(dv.contains(name@));
        assert(dv.subrange(0, order0.len() as int) =~= order0);
        assert(old(order).deep_view().is_prefix_of(order0));
        assert forall|p: int| 0 <= p < old(order).deep_view().len() implies order0[p] == old(
            order,
        ).deep_view()[p] by {
            assert(order0.subrange(0, old(order).deep_view().len() as int) =~= old(
                order,
            ).deep_view());
        }
        assert(old(order).deep_view().is_prefix_of(dv));
        crate::fs::lemma_str_set_members(visiting0);
        assert forall|i: int, j: int|
            0 <= i < order@.len() && 0 <= j < visiting0.len() implies order@[i]@
            != visiting0[j]@ by {
            if i == order0.len() {
                assert(order@[i]@ == name@);
                if visiting0[j]@ == name@ {
                    assert(crate::fs::str_set(visiting0).contains(name@));
                }
            }
        }
    }
    Ok(())
}

impl OrchestratorConfig {
    /// Returns process names in dependency order (dependencies first):
    /// every name appears once, each after all its declared dependencies.
    /// Fails exactly on a dependency cycle or an unknown dependency.
    pub fn startup_order(&self) -> (r: Result<Vec<String>, String>)
        ensures
            match r {
                Ok(order) => {
                    &&& topo_order_ok(config_view(*self).processes, order.deep_view())
                    &&& forall|i: int|
                        0 <= i < config_view(*self).processes.len()
                            ==> order.deep_view().contains(
                            config_view(*self).processes[i].0,
                        )
                },
                Err(_) => has_unknown_dep(config_view(*self).processes) || has_dep_cycle(
                    config_view(*self).processes,
                ),
            },
    {
        let ghost pm = config_view(*self).processes;
        proof {
            assert(pm == procs_view(self.processes@));
        }
        let mut order: Vec<String> = Vec::new();
        let mut visiting: Vec<String> = Vec::new();
        proof {
            assert(order.deep_view() =~= Seq::<Seq<char>>::empty());
        }
        let mut k: usize = 0;
        while k < self.processes.len()
            invariant
                k <= self.processes@.len(),
                pm == procs_view(self.processes@),
                pm.len() == self.processes@.len(),
                visiting@.len() == 0,
                topo_order_ok(pm, order.deep_view()),
                forall|i: int| 0 <= i < k ==> order.deep_view().contains(pm[i].0),
            decreases self.processes@.len() - k,
        {
            let ghost order_before = order.deep_view();
            proof {
                assert(pm[k as int].0 == self.processes@[k as int].0@);
                lemma_proc_lookup(pm, pm[k as int].0);
                if spec_proc_lookup(pm, pm[k as int].0) is None {
                    assert(pm[k as int].0 != pm[k as int].0);
                }
            }
            match visit(processes_ref(self), &self.processes[k].0, &mut visiting, &mut order) {
                Ok(()) => {},
                Err(e) => {
                    return Err(e);
                },
            }
            proof {
                assert forall|i: int| 0 <= i < k + 1 implies order.deep_view().contains(
                    pm[i].0,
                ) by {
                    if i < k {
                        let p = choose|p: int|
                            0 <= p < order_before.len() && order_before[p] == pm[i].0;
                        assert(order.deep_view()[p] == pm[i].0);
                    }
                }
            }
            k = k + 1;
        }
        Ok(order)
    }
}

/// The process list of a configuration, borrowed.
fn processes_ref(c: &OrchestratorConfig) -> (r: &Vec<(String, ProcessConfig)>)
    ensures
        r == &c.processes,
{
    &c.processes
}

impl OrchestratorConfig {
    /// Parse a supervisor configuration from JSON text; `None` on malformed
    /// JSON or a bad shape.
    pub fn parse(json: &str) -> (r: Option<OrchestratorConfig>)
        ensures
            match spec_parse_config(json@) {
                Some(m) => r matches Some(c) && config_view(c) == m,
                None => r is None,
            },
    {
        let v = match crate::json::parse_json(json) {
            Some(v) => v,
            None => {
                return None;
            },
        };
        match &v {
            JsonValue::Object(_) => {},
            _ => {
                return None;
            },
        }
        let mqtt_broker = match str_field_of(&v, "mqtt_broker") {
            Some(Some(s)) => s,
            Some(None) => String::from_str("localhost:1883"),
            None => {
                return None;
            },
        };
        let pf = match v.get("processes") {
            Some(JsonValue::Object(pf)) => pf,
            _ => {
                return None;
            },
        };
        let ghost all = pf@;
        proof {
            assert(all.subrange(0, all.len() as int) =~= all);
        }
        let mut processes: Vec<(String, ProcessConfig)> = Vec::new();
        let mut k: usize = 0;
        loop
            invariant
                k <= pf@.len(),
                pf@ == all,
                processes@.len() == k,
                spec_parse_config(json@) == (match spec_processes_of_json(all) {
                    Some(procs) => Some(
                        OrchestratorConfigModel { mqtt_broker: mqtt_broker@, processes: procs },
                    ),
                    None => None::<OrchestratorConfigModel>,
                }),
                match spec_processes_of_json(all.subrange(k as int, all.len() as int)) {
                    Some(rest) => spec_processes_of_json(all) == Some(
                        Seq::new(
                            processes@.len(),
                            |i: int| (processes@[i].0@, process_config_view(processes@[i].1)),
                        ) + rest,
                    ),
                    None => spec_processes_of_json(all) is None,
                },
            decreases pf@.len() - k,
        {
            if k >= pf.len() {
                proof {
                    assert(all.subrange(k as int, all.len() as int) =~= Seq::empty());
                }
                let c = OrchestratorConfig { mqtt_broker, processes };
                proof {
                    let pv = Seq::new(
                        c.processes@.len(),
                        |i: int| (c.processes@[i].0@, process_config_view(c.processes@[i].1)),
                    );
                    assert(pv + Seq::<(Seq<char>, ProcessConfigModel)>::empty() =~= pv);
                }
                return Some(c);
            }
            let ghost rest = all.subrange(k as int, all.len() as int);
            proof {
                assert(rest[0] == all[k as int]);
                assert(rest.drop_first() =~= all.subrange(k as int + 1, all.len() as int));
            }
            let pc = match process_config_of_json(&pf[k].1) {
                Some(c) => c,
                None => {
                    return None;
                },
            };
            let ghost before = processes@;
            processes.push((pf[k].0.clone(), pc));
            proof {
                let pv_before = Seq::new(
                    before.len(),
                    |i: int| (before[i].0@, process_config_view(before[i].1)),
                );
                let pv_after = Seq::new(
                    processes@.len(),
                    |i: int| (processes@[i].0@, process_config_view(processes@[i].1)),
                );
                assert(pv_after =~= pv_before.push((rest[0].0@, process_config_view(pc))));
                match spec_processes_of_json(all.subrange(k as int + 1, all.len() as int)) {
                    Some(tail) => {
                        assert(pv_before + (seq![(rest[0].0@, process_config_view(pc))] + tail)
                            =~= pv_after + tail);
                    },
                    None => {},
                }
            }
            k = k + 1;
        }
    }
}


/// Whether a character counts as whitespace for command splitting:
/// what char::is_whitespace answers, a function of the character alone.
pub uninterp spec fn spec_is_whitespace(c: char) -> bool;

/// Relies on char::is_whitespace: the Unicode white-space property,
/// a function of the character alone.
#[verifier::external_body]
fn char_is_whitespace(c: char) -> (r: bool)
    ensures
        r == spec_is_whitespace(c),
{
    c.is_whitespace()
}

/// The position of the first whitespace character, if any.
pub open spec fn spec_first_ws(s: Seq<char>) -> Option<int>
    decreases s.len(),
{
    if s.len() == 0 {
        None
    } else if spec_is_whitespace(s[0]) {
        Some(0)
    } else {
        match spec_first_ws(s.drop_first()) {
            Some(i) => Some(i + 1),
            None => None,
        }
    }
}

/// The first whitespace is whitespace, everything before it is not.
pub proof fn lemma_first_ws(s: Seq<char>)
    ensures
        match spec_first_ws(s) {
            Some(i) => 0 <= i < s.len() && spec_is_whitespace(s[i]) && (forall|j: int|
                0 <= j < i ==> !spec_is_whitespace(s[j])),
            None => forall|j: int| 0 <= j < s.len() ==> !spec_is_whitespace(s[j]),
        },
    decreases s.len(),
{
    if s.len() > 0 && !spec_is_whitespace(s[0]) {
        let d = s.drop_first();
        lemma_first_ws(d);
        assert(forall|j: int| 0 <= j < d.len() ==> d[j] == s[j + 1]);
        match spec_first_ws(d) {
            Some(i) => {
                assert(spec_is_whitespace(s[i + 1]));
                assert forall|j: int| 0 <= j < i + 1 implies !spec_is_whitespace(s[j]) by {
                    if j > 0 {
                        assert(d[j - 1] == s[j]);
                    }
                }
            },
            None => {
                assert forall|j: int| 0 <= j < s.len() implies !spec_is_whitespace(s[j]) by {
                    if j > 0 {
                        assert(d[j - 1] == s[j]);
                    }
                }
            },
        }
    }
}

#[via_fn]
proof fn spec_ws_tokens_dec(s: Seq<char>) {
    lemma_first_ws(s);
}

/// A string split on whitespace into its non-empty tokens.
pub open spec fn spec_ws_tokens(s: Seq<char>) -> Seq<Seq<char>>
    decreases s.len(),
    via spec_ws_tokens_dec
{
    if s.len() == 0 {
        Seq::empty()
    } else if spec_is_whitespace(s[0]) {
        spec_ws_tokens(s.drop_first())
    } else {
        match spec_first_ws(s) {
            None => seq![s],
            Some(i) => seq![s.take(i)] + spec_ws_tokens(s.skip(i)),
        }
    }
}

/// Split a string on whitespace into its tokens.
pub fn ws_tokens(s: &str) -> (r: Vec<String>)
    ensures
        r.deep_view() == spec_ws_tokens(s@),
{
    let n = s.unicode_len();
    let mut out: Vec<String> = Vec::new();
    proof {
        assert(s@.skip(0) =~= s@);
        assert(out.deep_view() =~= Seq::<Seq<char>>::empty());
        assert(out.deep_view() + spec_ws_tokens(s@) =~= spec_ws_tokens(s@));
    }
    let mut i: usize = 0;
    loop
        invariant
            n == s@.len(),
            i <= n,
            spec_ws_tokens(s@) == out.deep_view() + spec_ws_tokens(s@.skip(i as int)),
        decreases n - i,
    {
        if i >= n {
            proof {
                assert(s@.skip(i as int) =~= Seq::<char>::empty());
                assert(out.deep_view() + Seq::<Seq<char>>::empty() =~= out.deep_view());
            }
            return out;
        }
        if char_is_whitespace(s.get_char(i)) {
            proof {
                assert(s@.skip(i as int).drop_first() =~= s@.skip(i as int + 1));
                assert(s@.skip(i as int)[0] == s@[i as int]);
            }
            i = i + 1;
            continue;
        }
        // scan the token
        let start = i;
        let mut j = i;
        loop
            invariant
                n == s@.len(),
                start <= j <= n,
                !spec_is_whitespace(s@[start as int]),
                forall|t: int| start <= t < j ==> !spec_is_whitespace(s@[t]),
            ensures
                n == s@.len(),
                start <= j <= n,
                forall|t: int| start <= t < j ==> !spec_is_whitespace(s@[t]),
                j == n || spec_is_whitespace(s@[j as int]),
            decreases n - j,
        {
            if j >= n {
                break;
            }
            if char_is_whitespace(s.get_char(j)) {
                break;
            }
            j = j + 1;
        }
        let ghost tail = s@.skip(start as int);
        proof {
            assert(forall|t: int| 0 <= t < tail.len() ==> tail[t] == s@[t + start]);
            lemma_first_ws(tail);
            match spec_first_ws(tail) {
                Some(fi) => {
                    assert(spec_is_whitespace(s@[fi + start]));
                    assert(fi == j - start) by {
                        if fi < j - start {
                        } else {
                            assert(j < n);
                            assert(tail[j - start] == s@[j as int]);
                        }
                    }
                    assert(tail.take(fi) =~= s@.subrange(start as int, j as int));
                    assert(tail.skip(fi) =~= s@.skip(j as int));
                },
                None => {
                    assert(j == n) by {
                        if j < n {
                            assert(tail[j - start] == s@[j as int]);
                        }
                    }
                    assert(tail =~= s@.subrange(start as int, j as int));
                },
            }
        }
        let tok = String::from_str(s.substring_char(start, j));
        let ghost dv = out.deep_view();
        out.push(tok);
        proof {
            assert(out.deep_view() =~= dv.push(s@.subrange(start as int, j as int)));
            if spec_first_ws(tail) is Some {
                assert(dv + (seq![s@.subrange(start as int, j as int)] + spec_ws_tokens(
                    s@.skip(j as int),
                )) =~= out.deep_view() + spec_ws_tokens(s@.skip(j as int)));
            } else {
                assert(dv + seq![tail] =~= out.deep_view());
                assert(s@.skip(j as int) =~= Seq::<char>::empty());
                assert(out.deep_view() + Seq::<Seq<char>>::empty() =~= out.deep_view());
            }
        }
        i = j;
    }
}

/// Command specification: a simple whitespace-split string, or an explicit
/// argv array (preferred for arguments with spaces).
#[derive(Debug)]
pub enum CommandSpec {
    /// Simple command string (split on whitespace; no quoting)
    Simple(String),
    /// Array of command and arguments
    Array(Vec<String>),
}

/// Mathematical model of a command spec.
pub enum CommandSpecModel {
    Simple(Seq<char>),
    Array(Seq<Seq<char>>),
}

/// The model of a command spec.
pub open spec fn command_spec_view(c: CommandSpec) -> CommandSpecModel {
    match c {
        CommandSpec::Simple(s) => CommandSpecModel::Simple(s@),
        CommandSpec::Array(a) => CommandSpecModel::Array(a.deep_view()),
    }
}

/// The argv list a command spec stands for.
pub open spec fn spec_argv(c: CommandSpecModel) -> Seq<Seq<char>> {
    match c {
        CommandSpecModel::Simple(s) => spec_ws_tokens(s),
        CommandSpecModel::Array(a) => a,
    }
}

impl CommandSpec {
    /// Get the program to execute: the first argv element, or the empty
    /// string of an empty command.
    pub fn program(&self) -> (r: String)
        ensures
            r@ == (if spec_argv(command_spec_view(*self)).len() == 0 {
                Seq::<char>::empty()
            } else {
                spec_argv(command_spec_view(*self))[0]
            }),
    {
        match self {
            CommandSpec::Simple(s) => {
                let toks = ws_tokens(s.as_str());
                if toks.len() == 0 {
                    proof {
                        assert(toks.deep_view().len() == 0);
                    }
                    String::new()
                } else {
                    proof {
                        assert(toks.deep_view()[0] == toks@[0]@);
                    }
                    toks[0].clone()
                }
            },
            CommandSpec::Array(a) => {
                if a.len() == 0 {
                    proof {
                        assert(a.deep_view().len() == 0);
                    }
                    String::new()
                } else {
                    proof {
                        assert(a.deep_view()[0] == a@[0]@);
                    }
                    a[0].clone()
                }
            },
        }
    }

    /// Get the arguments of the command: the argv list past the program.
    pub fn args(&self) -> (r: Vec<String>)
        ensures
            r.deep_view() == (if spec_argv(command_spec_view(*self)).len() == 0 {
                Seq::<Seq<char>>::empty()
            } else {
                spec_argv(command_spec_view(*self)).drop_first()
            }),
    {
        let items = match self {
            CommandSpec::Simple(s) => ws_tokens(s.as_str()),
            CommandSpec::Array(a) => clone_string_vec(a),
        };
        let ghost iv = items.deep_view();
        let mut out: Vec<String> = Vec::new();
        let mut k: usize = 1;
        while k < items.len()
            invariant
                1 <= k,
                k <= items@.len() || k == 1,
                iv == items.deep_view(),
                iv.len() == items@.len(),
                out.deep_view() =~= (if iv.len() == 0 {
                    Seq::<Seq<char>>::empty()
                } else {
                    iv.drop_first().take((if k > iv.len() { iv.len() as int } else { k as int }) - 1)
                }),
            decreases items@.len() - k,
        {
            let ghost dv = out.deep_view();
            out.push(items[k].clone());
            proof {
                assert(out.deep_view() =~= dv.push(iv[k as int]));
                assert(iv.drop_first().take(k as int) =~= iv.drop_first().take(k - 1).push(
                    iv.drop_first()[k - 1],
                ));
                assert(iv.drop_first()[k - 1] == iv[k as int]);
            }
            k = k + 1;
        }
        proof {
            if iv.len() > 0 {
                assert(out.deep_view() =~= iv.drop_first().take(iv.len() - 1));
                assert(iv.drop_first().take(iv.len() - 1) =~= iv.drop_first());
            }
        }
        out
    }
}

/// Copy a list of strings.
fn clone_string_vec(v: &Vec<String>) -> (r: Vec<String>)
    ensures
        r.deep_view() == v.deep_view(),
{
    let mut out: Vec<String> = Vec::new();
    let mut k: usize = 0;
    while k < v.len()
        invariant
            k <= v@.len(),
            out@.len() == k,
            forall|i: int| 0 <= i < k ==> out@[i]@ == v@[i]@,
        decreases v@.len() - k,
    {
        out.push(v[k].clone());
        k = k + 1;
    }
    proof {
        assert(out.deep_view() =~= v.deep_view());
    }
    out
}

impl CommandSpec {
    /// Parse a command spec from JSON text: a string or an array of
    /// strings; `None` on malformed JSON or any other shape.
    pub fn parse(json: &str) -> (r: Option<CommandSpec>)
        ensures
            match crate::json::parsed_json(json@) {
                Some(v) => match spec_command_of_json(v) {
                    Some(m) => r matches Some(c) && command_spec_view(c) == m,
                    None => r is None,
                },
                None => r is None,
            },
    {
        match crate::json::parse_json(json) {
            Some(v) => command_of_json(&v),
            None => None,
        }
    }
}

/// A process discovered from a `.processes.json` document: its command,
/// the virtual-fs path it owns, and its working directory.
#[derive(Debug)]
pub struct DiscoveredProcess {
    pub command: CommandSpec,
    pub owns: String,
    pub cwd: String,
}

/// Configuration parsed from a `.processes.json` document.
#[derive(Debug)]
pub struct ProcessesConfig {
    pub processes: Vec<(String, DiscoveredProcess)>,
}

/// Mathematical model of a discovered process.
pub struct DiscoveredProcessModel {
    pub command: CommandSpecModel,
    pub owns: Seq<char>,
    pub cwd: Seq<char>,
}

/// The model of a discovered process.
pub open spec fn discovered_view(d: DiscoveredProcess) -> DiscoveredProcessModel {
    DiscoveredProcessModel { command: command_spec_view(d.command), owns: d.owns@, cwd: d.cwd@ }
}

/// The command spec a JSON value describes: a string or an array of strings.
pub open spec fn spec_command_of_json(v: JsonValue) -> Option<CommandSpecModel> {
    match v {
        JsonValue::Str(s) => Some(CommandSpecModel::Simple(s@)),
        JsonValue::Array(items) => match spec_str_list(items@) {
            Some(a) => Some(CommandSpecModel::Array(a)),
            None => None,
        },
        _ => None,
    }
}

/// The discovered process a JSON value describes.
pub open spec fn spec_discovered_of_json(v: JsonValue) -> Option<DiscoveredProcessModel> {
    match v {
        JsonValue::Object(fields) => {
            let command = match JsonValue::spec_field(fields@, "command"@) {
                Some(cv) => spec_command_of_json(cv),
                None => None,
            };
            let owns = match JsonValue::spec_field(fields@, "owns"@) {
                Some(JsonValue::Str(s)) => Some(s@),
                _ => None,
            };
            let cwd = match JsonValue::spec_field(fields@, "cwd"@) {
                Some(JsonValue::Str(s)) => Some(s@),
                _ => None,
            };
            match (command, owns, cwd) {
                (Some(command), Some(owns), Some(cwd)) => Some(
                    DiscoveredProcessModel { command, owns, cwd },
                ),
                _ => None,
            }
        },
        _ => None,
    }
}

/// The discovered-process map a JSON object's fields describe.
pub open spec fn spec_discovered_map_of_json(fields: Seq<(String, JsonValue)>) -> Option<
    Seq<(Seq<char>, DiscoveredProcessModel)>,
>
    decreases fields.len(),
{
    if fields.len() == 0 {
        Some(Seq::empty())
    } else {
        match spec_discovered_of_json(fields[0].1) {
            None => None,
            Some(d) => match spec_discovered_map_of_json(fields.drop_first()) {
                None => None,
                Some(rest) => Some(seq![(fields[0].0@, d)] + rest),
            },
        }
    }
}

/// The processes config a text parses to.
pub open spec fn spec_parse_processes(s: Seq<char>) -> Option<
    Seq<(Seq<char>, DiscoveredProcessModel)>,
> {
    match crate::json::parsed_json(s) {
        None => None,
        Some(JsonValue::Object(fields)) => match JsonValue::spec_field(fields@, "processes"@) {
            Some(JsonValue::Object(pf)) => spec_discovered_map_of_json(pf@),
            _ => None,
        },
        Some(_) => None,
    }
}

fn command_of_json(v: &JsonValue) -> (r: Option<CommandSpec>)
    ensures
        match spec_command_of_json(*v) {
            Some(m) => r matches Some(c) && command_spec_view(c) == m,
            None => r is None,
        },
{
    match v {
        JsonValue::Str(s) => Some(CommandSpec::Simple(s.clone())),
        JsonValue::Array(items) => match str_list_of(items) {
            Some(a) => Some(CommandSpec::Array(a)),
            None => None,
        },
        _ => None,
    }
}

fn discovered_of_json(v: &JsonValue) -> (r: Option<DiscoveredProcess>)
    ensures
        match spec_discovered_of_json(*v) {
            Some(m) => r matches Some(d) && discovered_view(d) == m,
            None => r is None,
        },
{
    match v {
        JsonValue::Object(_) => {},
        _ => {
            return None;
        },
    }
    let command = match v.get("command") {
        Some(cv) => match command_of_json(cv) {
            Some(c) => c,
            None => {
                return None;
            },
        },
        None => {
            return None;
        },
    };
    let owns = match v.get("owns") {
        Some(JsonValue::Str(s)) => s.clone(),
        _ => {
            return None;
        },
    };
    let cwd = match v.get("cwd") {
        Some(JsonValue::Str(s)) => s.clone(),
        _ => {
            return None;
        },
    };
    Some(DiscoveredProcess { command, owns, cwd })
}

impl ProcessesConfig {
    /// Parse a `.processes.json` document; `None` on malformed JSON or a
    /// bad shape.
    pub fn parse(json: &str) -> (r: Option<ProcessesConfig>)
        ensures
            match spec_parse_processes(json@) {
                Some(m) => r matches Some(c) && Seq::new(
                    c.processes@.len(),
                    |i: int| (c.processes@[i].0@, discovered_view(c.processes@[i].1)),
                ) == m,
                None => r is None,
            },
    {
        let v = match crate::json::parse_json(json) {
            Some(v) => v,
            None => {
                return None;
            },
        };
        match &v {
            JsonValue::Object(_) => {},
            _ => {
                return None;
            },
        }
        let pf = match v.get("processes") {
            Some(JsonValue::Object(pf)) => pf,
            _ => {
                return None;
            },
        };
        let ghost all = pf@;
        proof {
            assert(all.subrange(0, all.len() as int) =~= all);
        }
        let mut processes: Vec<(String, DiscoveredProcess)> = Vec::new();
        let mut k: usize = 0;
        loop
            invariant
                k <= pf@.len(),
                pf@ == all,
                processes@.len() == k,
                spec_parse_processes(json@) == spec_discovered_map_of_json(all),
                match spec_discovered_map_of_json(all.subrange(k as int, all.len() as int)) {
                    Some(rest) => spec_discovered_map_of_json(all) == Some(
                        Seq::new(
                            processes@.len(),
                            |i: int| (processes@[i].0@, discovered_view(processes@[i].1)),
                        ) + rest,
                    ),
                    None => spec_discovered_map_of_json(all) is None,
                },
            decreases pf@.len() - k,
        {
            if k >= pf.len() {
                proof {
                    assert(all.subrange(k as int, all.len() as int) =~= Seq::empty());
                }
                let c = ProcessesConfig { processes };
                proof {
                    let pv = Seq::new(
                        c.processes@.len(),
                        |i: int| (c.processes@[i].0@, discovered_view(c.processes@[i].1)),
                    );
                    assert(pv + Seq::<(Seq<char>, DiscoveredProcessModel)>::empty() =~= pv);
                }
                return Some(c);
            }
            let ghost rest = all.subrange(k as int, all.len() as int);
            proof {
                assert(rest[0] == all[k as int]);
                assert(rest.drop_first() =~= all.subrange(k as int + 1, all.len() as int));
            }
            let d = match discovered_of_json(&pf[k].1) {
                Some(d) => d,
                None => {
                    return None;
                },
            };
            let ghost before = processes@;
            processes.push((pf[k].0.clone(), d));
            proof {
                let pv_before = Seq::new(
                    before.len(),
                    |i: int| (before[i].0@, discovered_view(before[i].1)),
                );
                let pv_after = Seq::new(
                    processes@.len(),
                    |i: int| (processes@[i].0@, discovered_view(processes@[i].1)),
                );
                assert(pv_after =~= pv_before.push((rest[0].0@, discovered_view(d))));
                match spec_discovered_map_of_json(all.subrange(k as int + 1, all.len() as int)) {
                    Some(tail) => {
                        assert(pv_before + (seq![(rest[0].0@, discovered_view(d))] + tail)
                            =~= pv_after + tail);
                    },
                    None => {},
                }
            }
            k = k + 1;
        }
    }
}

/// Lifecycle state of a supervised process.
#[derive(Debug, Clone, Copy, PartialEq, Eq, Structural)]
pub enum ProcessState {
    Stopped,
    Starting,
    Running,
    Failed,
}

/// Bookkeeping for one supervised process. The spawned child handle lives
/// with the supervisor's process glue; this carries the supervised state.
#[derive(Debug)]
pub struct ManagedProcess {
    pub config: ProcessConfig,
    pub state: ProcessState,
    pub consecutive_failures: u32,
    pub last_start: Option<u64>,
}

/// The supervisor's bookkeeping: one managed entry per configured process.
pub struct ProcessManager {
    config: OrchestratorConfig,
    processes: Vec<(String, ManagedProcess)>,
    mqtt_broker_override: Option<String>,
    disabled: Vec<String>,
}

impl ProcessManager {
    /// The managed entries, by name, in configuration order.
    pub closed spec fn spec_processes(&self) -> Seq<(String, ManagedProcess)> {
        self.processes@
    }

    /// The broker address the manager will use.
    pub closed spec fn spec_mqtt_broker(&self) -> Seq<char> {
        match self.mqtt_broker_override {
            Some(o) => o@,
            None => self.config.mqtt_broker@,
        }
    }

    /// Create a manager with one stopped entry per configured process.
    pub fn new(
        config: OrchestratorConfig,
        mqtt_broker_override: Option<String>,
        disabled: Vec<String>,
    ) -> (r: ProcessManager)
        ensures
            r.spec_processes().len() == config.processes@.len(),
            forall|i: int|
                0 <= i < r.spec_processes().len() ==> {
                    &&& r.spec_processes()[i].0@ == config.processes@[i].0@
                    &&& r.spec_processes()[i].1.state == ProcessState::Stopped
                    &&& r.spec_processes()[i].1.consecutive_failures == 0
                    &&& r.spec_processes()[i].1.last_start is None
                    &&& process_config_view(r.spec_processes()[i].1.config)
                        == process_config_view(config.processes@[i].1)
                },
            r.spec_mqtt_broker() == (match mqtt_broker_override {
                Some(o) => o@,
                None => config.mqtt_broker@,
            }),
    {
        let mut processes: Vec<(String, ManagedProcess)> = Vec::new();
        let mut k: usize = 0;
        while k < config.processes.len()
            invariant
                k <= config.processes@.len(),
                processes@.len() == k,
                forall|i: int|
                    0 <= i < k ==> {
                        &&& processes@[i].0@ == config.processes@[i].0@
                        &&& processes@[i].1.state == ProcessState::Stopped
                        &&& processes@[i].1.consecutive_failures == 0
                        &&& processes@[i].1.last_start is None
                        &&& process_config_view(processes@[i].1.config) == process_config_view(
                            config.processes@[i].1,
                        )
                    },
            decreases config.processes@.len() - k,
        {
            let cfg = &config.processes[k].1;
            let copy = ProcessConfig {
                command: cfg.command.clone(),
                args: clone_string_vec(&cfg.args),
                restart: cfg.restart,
                depends_on: clone_string_vec(&cfg.depends_on),
            };
            let managed = ManagedProcess {
                config: copy,
                state: ProcessState::Stopped,
                consecutive_failures: 0,
                last_start: None,
            };
            processes.push((config.processes[k].0.clone(), managed));
            k = k + 1;
        }
        ProcessManager { config, processes, mqtt_broker_override, disabled }
    }

    /// The broker address: the command-line override when given, else the
    /// configured one.
    pub fn mqtt_broker(&self) -> (r: &str)
        ensures
            r@ == self.spec_mqtt_broker(),
    {
        match &self.mqtt_broker_override {
            Some(o) => o.as_str(),
            None => self.config.mqtt_broker.as_str(),
        }
    }
}

/// Whether a process that exited is restarted under its policy: always,
/// only after a failure, or never.
pub fn should_restart(policy: &RestartPolicy, clean_exit: bool) -> (r: bool)
    ensures
        r == (match policy.policy {
            RestartMode::Always => true,
            RestartMode::OnFailure => !clean_exit,
            RestartMode::Never => false,
        }),
{
    match policy.policy {
        RestartMode::Always => true,
        RestartMode::OnFailure => !clean_exit,
        RestartMode::Never => false,
    }
}

/// The backoff before a restart: the base backoff doubled once per
/// consecutive failure, saturating at the configured ceiling.
pub open spec fn spec_backoff(policy: RestartPolicy, consecutive_failures: nat) -> u64
    decreases consecutive_failures,
{
    if consecutive_failures == 0 {
        if policy.backoff_ms > policy.max_backoff_ms {
            policy.max_backoff_ms
        } else {
            policy.backoff_ms
        }
    } else {
        let prev = spec_backoff(policy, (consecutive_failures - 1) as nat);
        if prev >= policy.max_backoff_ms || prev * 2 > policy.max_backoff_ms {
            policy.max_backoff_ms
        } else {
            (prev * 2) as u64
        }
    }
}

/// Compute the restart backoff after a number of consecutive failures.
pub fn backoff_for(policy: &RestartPolicy, consecutive_failures: u32) -> (r: u64)
    ensures
        r == spec_backoff(*policy, consecutive_failures as nat),
{
    let mut b: u64 = if policy.backoff_ms > policy.max_backoff_ms {
        policy.max_backoff_ms
    } else {
        policy.backoff_ms
    };
    let mut k: u32 = 0;
    while k < consecutive_failures
        invariant
            k <= consecutive_failures,
            b == spec_backoff(*policy, k as nat),
            b <= policy.max_backoff_ms,
        decreases consecutive_failures - k,
    {
        if b >= policy.max_backoff_ms / 2 + 1 {
            b = policy.max_backoff_ms;
            proof {
                assert(spec_backoff(*policy, (k + 1) as nat) == policy.max_backoff_ms);
            }
        } else {
            b = b * 2;
        }
        k = k + 1;
    }
    b
}

/// The delta between desired and actual discovered processes: the names to
/// spawn (desired but not running) and the names to revoke (running but no
/// longer declared).
pub fn process_delta(desired: &Vec<String>, actual: &Vec<String>) -> (r: (Vec<String>, Vec<
    String,
>))
    ensures
        forall|x: Seq<char>|
            #[trigger] crate::fs::str_set(r.0@).contains(x) <==> (crate::fs::str_set(
                desired@,
            ).contains(x) && !crate::fs::str_set(actual@).contains(x)),
        forall|x: Seq<char>|
            #[trigger] crate::fs::str_set(r.1@).contains(x) <==> (crate::fs::str_set(
                actual@,
            ).contains(x) && !crate::fs::str_set(desired@).contains(x)),
{
    let to_spawn = minus_strs(desired, actual);
    let to_revoke = minus_strs(actual, desired);
    (to_spawn, to_revoke)
}

/// The strings of `a` that are not in `b`, in order.
fn minus_strs(a: &Vec<String>, b: &Vec<String>) -> (r: Vec<String>)
    ensures
        forall|x: Seq<char>|
            #[trigger] crate::fs::str_set(r@).contains(x) <==> (crate::fs::str_set(a@).contains(x)
                && !crate::fs::str_set(b@).contains(x)),
{
    proof {
        crate::fs::lemma_str_set_members(a@);
        crate::fs::lemma_str_set_members(b@);
    }
    let mut out: Vec<String> = Vec::new();
    let mut k: usize = 0;
    while k < a.len()
        invariant
            k <= a@.len(),
            forall|x: Seq<char>|
                #[trigger] crate::fs::str_set(out@).contains(x) <==> ((exists|i: int|
                    0 <= i < k && a@[i]@ == x) && !crate::fs::str_set(b@).contains(x)),
        decreases a@.len() - k,
    {
        proof {
            crate::fs::lemma_str_set_members(out@);
        }
        if !crate::fs::contains_str(b, a[k].as_str()) && !crate::fs::contains_str(
            &out,
            a[k].as_str(),
        ) {
            let ghost before = out@;
            out.push(a[k].clone());
            proof {
                crate::fs::lemma_str_set_push(before, a@[k as int]);
            }
        }
        k = k + 1;
    }
    proof {
        crate::fs::lemma_str_set_members(a@);
    }
    out
}

}
