//! The environment health check: which dependencies the tooling needs, and
//! the verdict over the probe results.
//!
//! Probing a binary, an environment variable or a file touches the machine,
//! so the caller probes each dependency and hands the outcomes back; the
//! verdict over them is decided here.

use vstd::prelude::*;

use crate::errors::StoreError;

verus! {

/// One dependency of the tooling.
pub struct Dependency {
    pub value: String,
    pub dep_type: DependencyType,
    pub required: bool,
}

/// How a dependency is probed: as a file path, an environment variable, or
/// a binary on the search path.
pub enum DependencyType {
    File,
    Env,
    Binary,
}

/// The outcome of probing one dependency.
pub enum DepStatus {
    Found,
    Missing,
}

/// Whether every required dependency was found.
pub open spec fn all_required_found(deps: Seq<Dependency>, statuses: Seq<DepStatus>) -> bool {
    forall|i: int| 0 <= i < deps.len() && deps[i].required ==> (#[trigger] statuses[i]) is Found
}

/// The full dependency list: the conversion binary first, then whatever the
/// caller adds.
pub fn required_deps(additional_deps: Option<Vec<Dependency>>) -> (r: Vec<Dependency>)
    ensures
        r@.len() >= 1,
        r@[0].value@ == "rdf2hdt"@,
        r@[0].dep_type is Binary,
        r@[0].required,
        match additional_deps {
            Some(extra) => r@.len() == 1 + extra@.len() && (forall|i: int|
                0 <= i < extra@.len() ==> r@[i + 1] == extra@[i]),
            None => r@.len() == 1,
        },
{
    let mut deps: Vec<Dependency> = Vec::new();
    deps.push(
        Dependency {
            value: String::from_str("rdf2hdt"),
            dep_type: DependencyType::Binary,
            required: true,
        },
    );
    match additional_deps {
        None => {},
        Some(extra) => {
            let mut rest = extra;
            let ghost extra_g = rest@;
            let ghost first = deps@[0];
            while rest.len() > 0
                invariant
                    rest@.len() <= extra_g.len(),
                    rest@ == extra_g.subrange(
                        extra_g.len() - rest@.len(),
                        extra_g.len() as int,
                    ),
                    deps@.len() == 1 + extra_g.len() - rest@.len(),
                    deps@[0] == first,
                    forall|j: int|
                        0 <= j < extra_g.len() - rest@.len() ==> deps@[j + 1] == extra_g[j],
                decreases rest@.len(),
            {
                let ghost consumed = extra_g.len() - rest@.len();
                let ghost rest_old = rest@;
                let d = rest.remove(0);
                proof {
                    assert(d == extra_g[consumed]);
                    assert(rest@ =~= extra_g.subrange(
                        extra_g.len() - rest@.len(),
                        extra_g.len() as int,
                    ));
                }
                deps.push(d);
            }
        },
    }
    deps
}

/// Decides the verdict over the probe outcomes: the check passes exactly
/// when every required dependency was found; optional ones only warn.
pub fn check_deps(deps: &Vec<Dependency>, statuses: &Vec<DepStatus>) -> (r: Result<
    (),
    StoreError,
>)
    requires
        deps@.len() == statuses@.len(),
    ensures
        r is Ok <==> all_required_found(deps@, statuses@),
        r matches Err(e) ==> e is InputNotFound,
{
    let mut i: usize = 0;
    while i < deps.len()
        invariant
            deps@.len() == statuses@.len(),
            0 <= i <= deps@.len(),
            forall|j: int|
                0 <= j < i && deps@[j].required ==> (#[trigger] statuses@[j]) is Found,
        decreases deps@.len() - i,
    {
        let missing = match statuses[i] {
            DepStatus::Found => false,
            DepStatus::Missing => true,
        };
        if deps[i].required && missing {
            return Err(StoreError::InputNotFound(String::from_str(
                "Please resolve missing dependencies",
            )));
        }
        i = i + 1;
    }
    Ok(())
}

/// Runs the health check over the probe outcomes for the full dependency
/// list (as [`required_deps`] builds it): ready exactly when every required
/// dependency was found.
pub fn do_check(deps: &Vec<Dependency>, statuses: &Vec<DepStatus>) -> (r: Result<
    String,
    StoreError,
>)
    requires
        deps@.len() == statuses@.len(),
    ensures
        r matches Ok(m) ==> m@ == "Ready to go"@ && all_required_found(deps@, statuses@),
        r matches Err(e) ==> !all_required_found(deps@, statuses@) && e is InputNotFound,
{
    match check_deps(deps, statuses) {
        Ok(_) => Ok(String::from_str("Ready to go")),
        Err(e) => Err(e),
    }
}

} // verus!
