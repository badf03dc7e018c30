//! State shared by the API: link rules, their run status, and the cache of
//! listed PipeWire objects.
use vstd::prelude::*;
use std::collections::HashMap;
use std::time::SystemTime;
use crate::linker::{LinkRule, RuleModel, clone_rules, opt_view, rules_view};
use crate::pwcli::{
    ObjectModel, PwObject, get_object, lemma_filter_step, id_index, objects_view, parse_ls_spec, parse_pwcli_ls,
    simplify_type, simplify_type_spec, str_eq,
};

verus! {

#[verifier::external_type_specification]
#[verifier::external_body]
pub struct ExSystemTime(SystemTime);

/// `SystemTime::now`: the current time. Nothing is stated of the value.
#[verifier::external_body]
fn now() -> SystemTime {
    SystemTime::now()
}

/// Status of a link rule's runs.
#[derive(Debug, Clone)]
pub struct RuleStatus {
    /// When this rule was last executed.
    pub last_run: Option<SystemTime>,
    /// Number of links created or modified on the last run.
    pub links_created: usize,
    /// Number of links that failed on the last run.
    pub links_failed: usize,
    /// Last error message, if any.
    pub last_error: Option<String>,
    /// Total number of times this rule has run.
    pub total_runs: usize,
}

/// Model of a [`RuleStatus`].
pub struct StatusModel {
    pub last_run: Option<SystemTime>,
    pub links_created: usize,
    pub links_failed: usize,
    pub last_error: Option<Seq<char>>,
    pub total_runs: usize,
}

impl View for RuleStatus {
    type V = StatusModel;

    open spec fn view(&self) -> StatusModel {
        StatusModel {
            last_run: self.last_run,
            links_created: self.links_created,
            links_failed: self.links_failed,
            last_error: opt_view(self.last_error),
            total_runs: self.total_runs,
        }
    }
}

/// The status of a rule that never ran.
pub open spec fn never_run() -> StatusModel {
    StatusModel { last_run: None, links_created: 0, links_failed: 0, last_error: None, total_runs: 0 }
}

impl Default for RuleStatus {
    fn default() -> (r: Self)
        ensures
            r@ == never_run(),
    {
        RuleStatus { last_run: None, links_created: 0, links_failed: 0, last_error: None, total_runs: 0 }
    }
}

impl RuleStatus {
    /// A copy of this status.
    pub fn clone_status(&self) -> (r: RuleStatus)
        ensures
            r@ == self@,
    {
        RuleStatus {
            last_run: self.last_run,
            links_created: self.links_created,
            links_failed: self.links_failed,
            last_error: match &self.last_error {
                Some(e) => Some(e.clone()),
                None => None,
            },
            total_runs: self.total_runs,
        }
    }
}

/// The status of rule `idx` after a run at time `at` that created `created`
/// links, failed on `failed` and ended with `error`: the run counts once more.
pub open spec fn status_after_run(
    statuses: Map<usize, StatusModel>,
    idx: usize,
    at: SystemTime,
    created: usize,
    failed: usize,
    error: Option<Seq<char>>,
) -> StatusModel {
    StatusModel {
        last_run: Some(at),
        links_created: created,
        links_failed: failed,
        last_error: error,
        total_runs: if statuses.contains_key(idx) {
            (statuses[idx].total_runs + 1) as usize
        } else {
            1
        },
    }
}

/// Whether rule `idx` can run once more without its run count overflowing.
pub open spec fn can_count_run(statuses: Map<usize, StatusModel>, idx: usize) -> bool {
    statuses.contains_key(idx) ==> statuses[idx].total_runs < usize::MAX
}

/// Global application state (not tied to any specific node).
pub struct AppState {
    /// Link rules to be monitored and relinked.
    pub link_rules: Vec<LinkRule>,
    /// Status of each rule, by the rule's position.
    pub rule_status: HashMap<usize, RuleStatus>,
    /// The PipeWire objects last listed.
    pub object_cache: Vec<PwObject>,
}

/// Model of an [`AppState`].
pub struct StateModel {
    pub link_rules: Seq<RuleModel>,
    pub rule_status: Map<usize, StatusModel>,
    pub object_cache: Seq<ObjectModel>,
}

pub open spec fn statuses_view(m: Map<usize, RuleStatus>) -> Map<usize, StatusModel> {
    m.map_values(|s: RuleStatus| s@)
}

impl View for AppState {
    type V = StateModel;

    open spec fn view(&self) -> StateModel {
        StateModel {
            link_rules: rules_view(self.link_rules@),
            rule_status: statuses_view(self.rule_status@),
            object_cache: objects_view(self.object_cache@),
        }
    }
}

/// Objects whose simplified type is `t`.
pub open spec fn of_simple_type(t: Seq<char>) -> spec_fn(ObjectModel) -> bool {
    |o: ObjectModel| simplify_type_spec(o.object_type) == t
}

/// Objects whose name is `name`.
pub open spec fn named(name: Seq<char>) -> spec_fn(ObjectModel) -> bool {
    |o: ObjectModel| o.name() == Some(name)
}

/// The name of the first object with `id`, if there is one and it has a name.
pub open spec fn name_of_id(objs: Seq<ObjectModel>, id: u32) -> Option<Seq<char>> {
    let k = id_index(objs, id);
    if k < objs.len() {
        objs[k].name()
    } else {
        None
    }
}

impl AppState {
    /// An empty state: no rules, no statuses, no objects.
    pub fn new() -> (r: AppState)
        ensures
            r@.link_rules == Seq::<RuleModel>::empty(),
            r@.rule_status == Map::<usize, StatusModel>::empty(),
            r@.object_cache == Seq::<ObjectModel>::empty(),
    {
        let r = AppState { link_rules: Vec::new(), rule_status: HashMap::new(), object_cache: Vec::new() };
        assert(r@.link_rules =~= Seq::<RuleModel>::empty());
        assert(r@.rule_status =~= Map::<usize, StatusModel>::empty());
        assert(r@.object_cache =~= Seq::<ObjectModel>::empty());
        r
    }

    /// Load the objects of a `pw-cli ls` listing into the cache, in place of
    /// those cached before.
    pub fn refresh_object_cache(&mut self, listing: &str) -> (r: Result<(), String>)
        ensures
            r is Ok,
            final(self)@.object_cache == parse_ls_spec(listing@),
            final(self)@.link_rules == old(self)@.link_rules,
            final(self)@.rule_status == old(self)@.rule_status,
    {
        match parse_pwcli_ls(listing) {
            Ok(objects) => {
                self.object_cache = objects;
                Ok(())
            },
            Err(e) => Err(e),
        }
    }

    /// Get all cached objects.
    pub fn get_cached_objects(&self) -> (r: Vec<PwObject>)
        ensures
            objects_view(r@) == self@.object_cache,
    {
        let mut out: Vec<PwObject> = Vec::new();
        let mut i: usize = 0;
        while i < self.object_cache.len()
            invariant
                i <= self.object_cache.len(),
                out@.len() == i,
                forall|j: int| 0 <= j < i ==> (#[trigger] out@[j])@ == self.object_cache@[j]@,
            decreases self.object_cache.len() - i,
        {
            out.push(self.object_cache[i].clone_object());
            i = i + 1;
        }
        assert(objects_view(out@) =~= self@.object_cache);
        out
    }

    /// Get a cached object by id: the first with that id.
    pub fn get_object_by_id(&self, id: u32) -> (r: Option<PwObject>)
        ensures
            ({
                let objs = self@.object_cache;
                let k = id_index(objs, id);
                match r {
                    Some(o) => k < objs.len() && o@ == objs[k],
                    None => k == objs.len(),
                }
            }),
    {
        get_object(self.object_cache.as_slice(), id)
    }

    /// Get the cached objects of a (simplified) type, in cache order.
    pub fn get_objects_by_type(&self, obj_type: &str) -> (r: Vec<PwObject>)
        ensures
            objects_view(r@) == self@.object_cache.filter(of_simple_type(obj_type@)),
    {
        let ghost objs = self@.object_cache;
        let mut out: Vec<PwObject> = Vec::new();
        let mut i: usize = 0;
        while i < self.object_cache.len()
            invariant
                i <= self.object_cache.len(),
                objs == self@.object_cache,
                objects_view(out@) == objs.subrange(0, i as int).filter(of_simple_type(obj_type@)),
            decreases self.object_cache.len() - i,
        {
            proof {
                lemma_filter_step(objs, i as int, of_simple_type(obj_type@));
            }
            assert(objs[i as int] == self.object_cache@[i as int]@);
            if str_eq(simplify_type(self.object_cache[i].object_type.as_str()), obj_type) {
                let ghost before = objects_view(out@);
                out.push(self.object_cache[i].clone_object());
                assert(objects_view(out@) =~= before.push(objs[i as int]));
            }
            i = i + 1;
        }
        assert(objs.subrange(0, objs.len() as int) =~= objs);
        out
    }

    /// Find the id of the first cached object named `name` (by node.name,
    /// device.name and the other name properties).
    pub fn find_id_by_name(&self, name: &str) -> (r: Option<u32>)
        ensures
            ({
                let found = self@.object_cache.filter(named(name@));
                r == if found.len() > 0 {
                    Some(found[0].id)
                } else {
                    None::<u32>
                }
            }),
    {
        let ghost objs = self@.object_cache;
        let mut i: usize = 0;
        while i < self.object_cache.len()
            invariant
                i <= self.object_cache.len(),
                objs == self@.object_cache,
                objs.subrange(0, i as int).filter(named(name@)).len() == 0,
            decreases self.object_cache.len() - i,
        {
            proof {
                lemma_filter_step(objs, i as int, named(name@));
            }
            assert(objs[i as int] == self.object_cache@[i as int]@);
            let hit = match self.object_cache[i].name() {
                Some(n) => str_eq(n, name),
                None => false,
            };
            if hit {
                proof {
                    let head = objs.subrange(0, i + 1);
                    let rest = objs.subrange(i + 1, objs.len() as int);
                    assert(objs =~= head + rest);
                    Seq::filter_distributes_over_add(head, rest, named(name@));
                    assert(head.filter(named(name@)) =~= seq![objs[i as int]]);
                }
                return Some(self.object_cache[i].id);
            }
            i = i + 1;
        }
        assert(objs.subrange(0, objs.len() as int) =~= objs);
        None
    }

    /// Find the name of the first cached object with `id`.
    pub fn find_name_by_id(&self, id: u32) -> (r: Option<String>)
        ensures
            opt_view(r) == name_of_id(self@.object_cache, id),
    {
        match self.get_object_by_id(id) {
            Some(o) => match o.name() {
                Some(n) => Some(n.to_owned()),
                None => None,
            },
            None => None,
        }
    }

    /// Replace the link rules.
    pub fn set_link_rules(&mut self, rules: Vec<LinkRule>)
        ensures
            final(self)@.link_rules == rules_view(rules@),
            final(self)@.rule_status == old(self)@.rule_status,
            final(self)@.object_cache == old(self)@.object_cache,
    {
        self.link_rules = rules;
    }

    /// Get a copy of the link rules.
    pub fn get_link_rules(&self) -> (r: Vec<LinkRule>)
        ensures
            rules_view(r@) == self@.link_rules,
    {
        clone_rules(self.link_rules.as_slice())
    }

    /// Record a run of rule `rule_idx`: when it ran, what it created and
    /// failed, its error; the rule's run count goes up by one. Other rules'
    /// statuses stay as they were.
    pub fn update_rule_status(
        &mut self,
        rule_idx: usize,
        links_created: usize,
        links_failed: usize,
        error: Option<String>,
    )
        requires
            can_count_run(old(self)@.rule_status, rule_idx),
        ensures
            final(self)@.rule_status.contains_key(rule_idx),
            final(self)@.rule_status[rule_idx].last_run is Some,
            final(self)@.rule_status == old(self)@.rule_status.insert(
                rule_idx,
                status_after_run(
                    old(self)@.rule_status,
                    rule_idx,
                    final(self)@.rule_status[rule_idx].last_run->Some_0,
                    links_created,
                    links_failed,
                    opt_view(error),
                ),
            ),
            final(self)@.link_rules == old(self)@.link_rules,
            final(self)@.object_cache == old(self)@.object_cache,
    {
        broadcast use vstd::std_specs::hash::group_hash_axioms;

        let ghost old_map = self.rule_status@;
        let total_runs: usize = match self.rule_status.get(&rule_idx) {
            Some(s) => s.total_runs + 1,
            None => 1,
        };
        let at = now();
        let ghost err = opt_view(error);
        let status = RuleStatus {
            last_run: Some(at),
            links_created,
            links_failed,
            last_error: error,
            total_runs,
        };
        self.rule_status.insert(rule_idx, status);
        proof {
            assert(statuses_view(self.rule_status@) =~= statuses_view(old_map).insert(
                rule_idx,
                status_after_run(statuses_view(old_map), rule_idx, at, links_created, links_failed, err),
            ));
        }
    }

    /// Get the status of all rules.
    pub fn get_all_rule_status(&self) -> (r: HashMap<usize, RuleStatus>)
        ensures
            statuses_view(r@) == self@.rule_status,
    {
        self.rule_status.clone()
    }

    /// Get the status of a rule.
    pub fn get_rule_status(&self, rule_idx: usize) -> (r: Option<RuleStatus>)
        ensures
            match r {
                Some(s) => self@.rule_status.contains_key(rule_idx) && s@ == self@.rule_status[rule_idx],
                None => !self@.rule_status.contains_key(rule_idx),
            },
    {
        broadcast use vstd::std_specs::hash::group_hash_axioms;

        match self.rule_status.get(&rule_idx) {
            Some(s) => Some(s.clone_status()),
            None => None,
        }
    }
}

/// What the status of rule `asked` reads after a run of rule `idx` was
/// recorded: for `idx` itself, the run's counts and error, its time, and one
/// run more than before; any other rule reads as before.
pub proof fn lemma_status_after_recorded_run(
    statuses: Map<usize, StatusModel>,
    idx: usize,
    at: SystemTime,
    created: usize,
    failed: usize,
    error: Option<Seq<char>>,
    asked: usize,
)
    requires
        can_count_run(statuses, idx),
    ensures
        ({
            let after = statuses.insert(idx, status_after_run(statuses, idx, at, created, failed, error));
            &&& after.contains_key(asked) == (asked == idx || statuses.contains_key(asked))
            &&& asked == idx ==> {
                &&& after[asked].last_run == Some(at)
                &&& after[asked].links_created == created
                &&& after[asked].links_failed == failed
                &&& after[asked].last_error == error
                &&& after[asked].total_runs == if statuses.contains_key(idx) {
                    statuses[idx].total_runs + 1
                } else {
                    1
                }
            }
            &&& asked != idx && statuses.contains_key(asked) ==> after[asked] == statuses[asked]
        }),
{
}

/// API error type.
#[derive(Debug)]
pub enum ApiError {
    NotFound(String),
    BadRequest(String),
    Internal(String),
}

} // verus!
