//! Plain-value snapshots of workload instances as the event source reports
//! them: everything the watch engine reads, and nothing more.

use vstd::prelude::*;
use crate::message::ContainerState;
use crate::message::ContainerStateView;
use crate::message::ContainerResources;
use crate::message::ContainerResourcesView;
use crate::message::opt_str_view;

verus! {

/// Status of one container of a workload instance: its name, image, how
/// often it restarted, and its last recorded termination, if any.
pub struct ContainerStatusSnapshot {
    pub name: String,
    pub image: String,
    pub restart_count: i32,
    pub last_termination: Option<ContainerState>,
}

/// Mathematical form of `ContainerStatusSnapshot`.
pub ghost struct ContainerStatusView {
    pub name: Seq<char>,
    pub image: Seq<char>,
    pub restart_count: int,
    pub last_termination: Option<ContainerStateView>,
}

impl View for ContainerStatusSnapshot {
    type V = ContainerStatusView;

    open spec fn view(&self) -> ContainerStatusView {
        ContainerStatusView {
            name: self.name@,
            image: self.image@,
            restart_count: self.restart_count as int,
            last_termination: match self.last_termination {
                Some(ref s) => Some(s@),
                None => None,
            },
        }
    }
}

/// Declared spec of one container: its name and resource declarations.
pub struct ContainerSpecSnapshot {
    pub name: String,
    pub resources: Option<ContainerResources>,
}

/// Mathematical form of `ContainerSpecSnapshot`.
pub ghost struct ContainerSpecView {
    pub name: Seq<char>,
    pub resources: Option<ContainerResourcesView>,
}

impl View for ContainerSpecSnapshot {
    type V = ContainerSpecView;

    open spec fn view(&self) -> ContainerSpecView {
        ContainerSpecView {
            name: self.name@,
            resources: match self.resources {
                Some(ref r) => Some(r@),
                None => None,
            },
        }
    }
}

/// Snapshot of one workload instance: identity, node, container statuses and
/// container spec declarations.
pub struct PodSnapshot {
    pub uid: String,
    pub namespace: Option<String>,
    pub name: String,
    pub node_name: Option<String>,
    pub containers: Vec<ContainerStatusSnapshot>,
    pub spec_containers: Vec<ContainerSpecSnapshot>,
}

/// A copy of an optional string with the same content.
pub fn clone_opt_string(o: &Option<String>) -> (result: Option<String>)
    ensures
        opt_str_view(result) == opt_str_view(*o),
{
    match o {
        Some(s) => Some(s.clone()),
        None => None,
    }
}

/// A copy of a termination record with the same content.
pub fn clone_state(s: &ContainerState) -> (result: ContainerState)
    ensures
        result@ == s@,
{
    ContainerState {
        exit_code: s.exit_code,
        signal: s.signal,
        reason: clone_opt_string(&s.reason),
        message: clone_opt_string(&s.message),
        started_at: clone_opt_string(&s.started_at),
        finished_at: clone_opt_string(&s.finished_at),
    }
}

/// A copy of a container status with the same content.
pub fn clone_container_status(c: &ContainerStatusSnapshot) -> (result: ContainerStatusSnapshot)
    ensures
        result@ == c@,
{
    ContainerStatusSnapshot {
        name: c.name.clone(),
        image: c.image.clone(),
        restart_count: c.restart_count,
        last_termination: match &c.last_termination {
            Some(s) => Some(clone_state(s)),
            None => None,
        },
    }
}

/// A copy of resource declarations with the same content.
pub fn clone_resources(r: &ContainerResources) -> (result: ContainerResources)
    ensures
        result@ == r@,
{
    let limits = clone_pairs(&r.limits);
    let requests = clone_pairs(&r.requests);
    let result = ContainerResources { limits, requests };
    proof {
        assert(result@.limits =~= r@.limits);
        assert(result@.requests =~= r@.requests);
    }
    result
}

/// A copy of a list of (name, quantity) pairs with the same content.
fn clone_pairs(v: &Vec<(String, String)>) -> (result: Vec<(String, String)>)
    ensures
        result@.map_values(|p: (String, String)| (p.0@, p.1@)) =~= v@.map_values(
            |p: (String, String)| (p.0@, p.1@),
        ),
{
    let mut result: Vec<(String, String)> = Vec::new();
    let mut i: usize = 0;
    while i < v.len()
        invariant
            i <= v.len(),
            result@.len() == i,
            forall|j: int| 0 <= j < i ==> result@[j].0@ == v@[j].0@ && result@[j].1@ == v@[j].1@,
        decreases v.len() - i,
    {
        let pair = (v[i].0.clone(), v[i].1.clone());
        result.push(pair);
        i = i + 1;
    }
    result
}

} // verus!
