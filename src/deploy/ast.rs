//! The declaration tree of one Deploy IR unit. Each collection is keyed by the
//! `name` of its items: a well-formed unit holds each collection with distinct names
//! in increasing name order, as a map keyed by name would.
use vstd::prelude::*;

use crate::order::{text_less, text_lt};

verus! {

#[derive(Debug, Clone)]
pub struct Pipeline {
    pub name: String,
    pub description: String,
}

/// A deployment target; `kind` `production` or `prod` marks a production target.
#[derive(Debug, Clone)]
pub struct Target {
    pub name: String,
    pub kind: String,
    pub domain: String,
}

/// A job: the jobs it requires, its commands, and what it targets, needs and produces.
#[derive(Debug, Clone)]
pub struct Job {
    pub name: String,
    pub requires: Vec<String>,
    pub runs: Vec<String>,
    pub uses_target: String,
    pub needs_secrets: Vec<String>,
    pub uses_perm: String,
    pub produces: Vec<String>,
    pub side_effects: Vec<String>,
}

#[derive(Debug, Clone)]
pub struct Artifact {
    pub name: String,
    pub artifact_type: String,
    pub repo: String,
    pub tag: String,
}

/// A secret; an empty `scope` makes it usable from every target.
#[derive(Debug, Clone)]
pub struct Secret {
    pub name: String,
    pub scope: Vec<String>,
}

#[derive(Debug, Clone)]
pub struct Permission {
    pub name: String,
    pub role: String,
    pub allows: Vec<String>,
}

#[derive(Debug, Clone)]
pub struct Release {
    pub strategy: String,
    pub health_check: String,
}

/// The targets whose jobs need manual approval.
#[derive(Debug, Clone)]
pub struct Gate {
    pub require_manual_approval_for: Vec<String>,
}

#[derive(Debug, Clone)]
pub struct Rollback {
    pub on: Vec<String>,
    pub strategy: String,
}

/// One parsed Deploy IR unit.
#[derive(Debug, Clone)]
pub struct DeployFile {
    pub pipeline: Option<Pipeline>,
    pub targets: Vec<Target>,
    pub jobs: Vec<Job>,
    pub artifacts: Vec<Artifact>,
    pub secrets: Vec<Secret>,
    pub perms: Vec<Permission>,
    pub release: Option<Release>,
    pub gate: Option<Gate>,
    pub rollback: Option<Rollback>,
}

impl Default for DeployFile {
    fn default() -> (r: DeployFile)
        ensures
            r.pipeline is None,
            r.targets@.len() == 0,
            r.jobs@.len() == 0,
            r.artifacts@.len() == 0,
            r.secrets@.len() == 0,
            r.perms@.len() == 0,
            r.release is None,
            r.gate is None,
            r.rollback is None,
    {
        DeployFile {
            pipeline: None,
            targets: Vec::new(),
            jobs: Vec::new(),
            artifacts: Vec::new(),
            secrets: Vec::new(),
            perms: Vec::new(),
            release: None,
            gate: None,
            rollback: None,
        }
    }
}

impl Default for Job {
    fn default() -> (r: Job)
        ensures
            r.name@.len() == 0,
            r.requires@.len() == 0,
            r.runs@.len() == 0,
            r.uses_target@.len() == 0,
            r.needs_secrets@.len() == 0,
            r.uses_perm@.len() == 0,
            r.produces@.len() == 0,
            r.side_effects@.len() == 0,
    {
        Job {
            name: String::new(),
            requires: Vec::new(),
            runs: Vec::new(),
            uses_target: String::new(),
            needs_secrets: Vec::new(),
            uses_perm: String::new(),
            produces: Vec::new(),
            side_effects: Vec::new(),
        }
    }
}

/// An item of a deploy collection, found by its name.
pub trait Named {
    spec fn key(&self) -> Seq<char>;

    fn key_str(&self) -> (r: &str)
        ensures
            r@ == self.key(),
    ;
}

impl Named for Target {
    open spec fn key(&self) -> Seq<char> {
        self.name@
    }

    fn key_str(&self) -> (r: &str) {
        self.name.as_str()
    }
}

impl Named for Job {
    open spec fn key(&self) -> Seq<char> {
        self.name@
    }

    fn key_str(&self) -> (r: &str) {
        self.name.as_str()
    }
}

impl Named for Artifact {
    open spec fn key(&self) -> Seq<char> {
        self.name@
    }

    fn key_str(&self) -> (r: &str) {
        self.name.as_str()
    }
}

impl Named for Secret {
    open spec fn key(&self) -> Seq<char> {
        self.name@
    }

    fn key_str(&self) -> (r: &str) {
        self.name.as_str()
    }
}

impl Named for Permission {
    open spec fn key(&self) -> Seq<char> {
        self.name@
    }

    fn key_str(&self) -> (r: &str) {
        self.name.as_str()
    }
}

/// Some item of `v` has the name `x`.
pub open spec fn has_named<T: Named>(v: Seq<T>, x: Seq<char>) -> bool {
    exists|i: int| 0 <= i < v.len() && #[trigger] v[i].key() == x
}

/// The first of the first `n` items of `v` with the name `x`.
pub open spec fn first_named<T: Named>(v: Seq<T>, x: Seq<char>, n: int) -> Option<int>
    decreases n,
{
    if n <= 0 {
        None
    } else {
        match first_named(v, x, n - 1) {
            Some(i) => Some(i),
            None => if v[n - 1].key() == x {
                Some(n - 1)
            } else {
                None
            },
        }
    }
}

/// The item of `v` named `x`.
pub open spec fn lookup_named<T: Named>(v: Seq<T>, x: Seq<char>) -> Option<T> {
    match first_named(v, x, v.len() as int) {
        Some(i) => Some(v[i]),
        None => None,
    }
}

proof fn lemma_first_named_stays<T: Named>(v: Seq<T>, x: Seq<char>, n: int, n2: int)
    requires
        n <= n2,
        first_named(v, x, n) is Some,
    ensures
        first_named(v, x, n2) == first_named(v, x, n),
    decreases n2 - n,
{
    if n2 > n {
        lemma_first_named_stays(v, x, n, n2 - 1);
    }
}

proof fn lemma_first_named_none<T: Named>(v: Seq<T>, x: Seq<char>, n: int)
    requires
        0 <= n <= v.len(),
        first_named(v, x, n) is None,
    ensures
        forall|i: int| 0 <= i < n ==> #[trigger] v[i].key() != x,
    decreases n,
{
    if n > 0 {
        lemma_first_named_none(v, x, n - 1);
    }
}

/// The position of the first item of `v` named `x`.
pub fn find_named<T: Named>(v: &Vec<T>, x: &str) -> (r: Option<usize>)
    ensures
        match r {
            Some(i) => i < v@.len() && first_named(v@, x@, v@.len() as int) == Some(i as int),
            None => first_named(v@, x@, v@.len() as int) == None::<int>,
        },
        r is Some <==> has_named(v@, x@),
{
    let mut i: usize = 0;
    while i < v.len()
        invariant
            i <= v@.len(),
            first_named(v@, x@, i as int) == None::<int>,
        decreases v@.len() - i,
    {
        if crate::text::same_text(v[i].key_str(), x) {
            proof {
                lemma_first_named_stays(v@, x@, i + 1, v@.len() as int);
            }
            return Some(i);
        }
        i += 1;
    }
    proof {
        lemma_first_named_none(v@, x@, v@.len() as int);
    }
    None
}

/// The names of `v` increase strictly, so they are distinct and in name order.
pub open spec fn sorted_names<T: Named>(v: Seq<T>) -> bool {
    forall|i: int, j: int| 0 <= i < j < v.len() ==> text_lt(#[trigger] v[i].key(), #[trigger] v[j].key())
}

fn names_sorted<T: Named>(v: &Vec<T>) -> (r: bool)
    ensures
        r == sorted_names(v@),
{
    let mut j: usize = 0;
    while j < v.len()
        invariant
            j <= v@.len(),
            forall|a: int, b: int| 0 <= a < b < j ==> text_lt(#[trigger] v@[a].key(), #[trigger] v@[b].key()),
        decreases v@.len() - j,
    {
        let mut i: usize = 0;
        while i < j
            invariant
                i <= j,
                j < v@.len(),
                forall|a: int| 0 <= a < i ==> text_lt(#[trigger] v@[a].key(), v@[j as int].key()),
            decreases j - i,
        {
            if !text_less(v[i].key_str(), v[j].key_str()) {
                return false;
            }
            i += 1;
        }
        j += 1;
    }
    true
}

impl DeployFile {
    /// Each collection holds distinct names in increasing name order.
    pub open spec fn wf(&self) -> bool {
        &&& sorted_names(self.targets@)
        &&& sorted_names(self.jobs@)
        &&& sorted_names(self.artifacts@)
        &&& sorted_names(self.secrets@)
        &&& sorted_names(self.perms@)
    }

    /// Whether the unit is well-formed.
    pub fn is_well_formed(&self) -> (r: bool)
        ensures
            r == self.wf(),
    {
        names_sorted(&self.targets) && names_sorted(&self.jobs) && names_sorted(&self.artifacts)
            && names_sorted(&self.secrets) && names_sorted(&self.perms)
    }
}

} // verus!
