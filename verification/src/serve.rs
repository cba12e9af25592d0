//! The protocol layer's decision logic: routing, request parameters, the
//! direct graph store's target, the append-only update-validation state
//! machine with the grouping of accepted insertions, the service
//! description, the streaming buffer, and the fixed error responses.
//!
//! An update request is parsed into a list of operations, every operation is
//! validated against the registry before any executes, and the first
//! rejection aborts the whole request: nothing is ever partially applied.

use vstd::prelude::*;

use crate::sparql::AggregateHdt;
use spargebra::term::GraphName;
use spargebra::term::Quad;
use spargebra::GraphUpdateOperation;

verus! {

/// An HTTP-level failure: a status code and a diagnostic body.
pub type HttpError = (u16, String);

// ------------------------------------------------------------------
// The update operations, as this layer models them
// ------------------------------------------------------------------
/// One operation of an update request. Only the graph names an operation
/// targets matter for validation; quad payloads stay outside this model.
pub enum UpdateOp {
    /// `CREATE [SILENT] GRAPH <g>`.
    Create { graph: String, silent: bool },
    /// `INSERT DATA`: the target graph of each quad, `None` for the default
    /// graph.
    InsertData { graphs: Vec<Option<String>> },
    /// `LOAD [SILENT] ... INTO GRAPH <g>`; `None` destination is the default
    /// graph.
    Load { destination: Option<String>, silent: bool },
    /// `DELETE DATA`.
    DeleteData,
    /// `DELETE`/`INSERT WHERE`.
    DeleteInsert,
    /// `CLEAR`.
    Clear,
    /// `DROP`.
    Drop,
}

// ------------------------------------------------------------------
// Trusted boundary over the update parser
// ------------------------------------------------------------------
#[verifier::external_type_specification]
#[verifier::external_body]
pub struct ExGraphUpdateOperation(GraphUpdateOperation);

#[verifier::external_type_specification]
#[verifier::external_body]
pub struct ExQuad(Quad);

/// Relies on `spargebra::SparqlParser::parse_update`: parses an update
/// request into its operation list. What a text parses to cannot be stated
/// here; malformed text is an error.
#[verifier::external_body]
pub(crate) fn parse_update_ops(update: &str, base: &str) -> (r: Result<
    Vec<GraphUpdateOperation>,
    String,
>) {
    let parser = spargebra::SparqlParser::new().with_base_iri(base).map_err(
        |e| e.to_string(),
    )?;
    let parsed = parser.parse_update(update).map_err(|e| e.to_string())?;
    Ok(parsed.operations)
}

/// Relies on `spargebra::term::Quad`: reads each quad's graph name, `None`
/// for the default graph.
#[verifier::external_body]
fn insert_data_graphs(data: &Vec<Quad>) -> (r: Vec<Option<String>>) {
    data.iter().map(|q| match &q.graph_name {
        GraphName::NamedNode(n) => Some(n.as_str().to_owned()),
        GraphName::DefaultGraph => None,
    }).collect()
}

/// The operation list an update text parses and classifies to, or nothing
/// when the text is malformed; it depends on the text and the base IRI
/// alone.
pub uninterp spec fn update_ops_of(text: Seq<char>, base: Seq<char>) -> Option<Seq<UpdateOp>>;

/// Relies on `spargebra::SparqlParser::parse_update` and the classification
/// of its operations: the parse depends on the text and base alone, so the
/// operation list only gets a name; malformed text is exactly the `Err`
/// side.
#[verifier::external_body]
fn parse_and_classify_update(update: &str, base: &str) -> (r: Result<Vec<UpdateOp>, String>)
    ensures
        r matches Ok(ops) ==> update_ops_of(update@, base@) == Some(ops@),
        r is Err ==> update_ops_of(update@, base@) is None,
{
    let raw = parse_update_ops(update, base)?;
    Ok(raw.iter().map(classify_update_op).collect())
}

/// Relies on `spargebra::GraphUpdateOperation`: tells its variants apart and
/// reads the graph names each one targets; payloads beyond that are dropped.
#[verifier::external_body]
pub(crate) fn classify_update_op(op: &GraphUpdateOperation) -> (r: UpdateOp) {
    match op {
        GraphUpdateOperation::Create { graph, silent } => UpdateOp::Create { graph: graph.as_str().to_owned(), silent: *silent },
        GraphUpdateOperation::InsertData { data } => UpdateOp::InsertData { graphs: insert_data_graphs(data) },
        GraphUpdateOperation::Load { destination: GraphName::NamedNode(n), silent, .. } => UpdateOp::Load { destination: Some(n.as_str().to_owned()), silent: *silent },
        GraphUpdateOperation::Load { silent, .. } => UpdateOp::Load { destination: None, silent: *silent },
        GraphUpdateOperation::DeleteData { .. } => UpdateOp::DeleteData,
        GraphUpdateOperation::DeleteInsert { .. } => UpdateOp::DeleteInsert,
        GraphUpdateOperation::Clear { .. } => UpdateOp::Clear,
        GraphUpdateOperation::Drop { .. } => UpdateOp::Drop,
    }
}

// ------------------------------------------------------------------
// The validation state machine
// ------------------------------------------------------------------
/// Whether one quad target is acceptable for `INSERT DATA`: it must name a
/// graph, and that graph must not exist yet.
pub open spec fn insert_target_ok(reg: AggregateHdt, t: Option<String>) -> bool {
    match t {
        Some(g) => !reg.spec_contains(g@),
        None => false,
    }
}

/// Whether a quad target names exactly the graph `g`.
pub open spec fn targets_graph(t: Option<String>, g: Seq<char>) -> bool {
    match t {
        Some(x) => x@ == g,
        None => false,
    }
}

/// Whether every quad target of an `INSERT DATA` is acceptable.
pub open spec fn insert_targets_ok(reg: AggregateHdt, graphs: Seq<Option<String>>) -> bool {
    forall|i: int| 0 <= i < graphs.len() ==> insert_target_ok(reg, #[trigger] graphs[i])
}

/// The accept condition of one operation, against the current registry:
/// `Create` needs the graph absent or `SILENT`; `INSERT DATA` needs every
/// quad to target an absent named graph; `LOAD` needs a named destination
/// that is absent or `SILENT`; everything that could touch existing data is
/// never accepted.
pub open spec fn op_acceptable(reg: AggregateHdt, op: UpdateOp) -> bool {
    match op {
        UpdateOp::Create { graph, silent } => silent || !reg.spec_contains(graph@),
        UpdateOp::InsertData { graphs } => insert_targets_ok(reg, graphs@),
        UpdateOp::Load { destination, silent } => match destination {
            Some(g) => silent || !reg.spec_contains(g@),
            None => false,
        },
        UpdateOp::DeleteData => false,
        UpdateOp::DeleteInsert => false,
        UpdateOp::Clear => false,
        UpdateOp::Drop => false,
    }
}

/// The operations that mutate existing data and are forbidden outright.
pub open spec fn forbidden_op(op: UpdateOp) -> bool {
    op is DeleteData || op is DeleteInsert || op is Clear || op is Drop
}

/// The HTTP status a rejected operation draws: 403 for forbidden mutations
/// of existing data, 400 for every other rejection.
pub open spec fn rejection_status(op: UpdateOp) -> u16 {
    if forbidden_op(op) {
        403u16
    } else {
        400u16
    }
}

/// Whether a whole operation list passes validation.
pub open spec fn ops_acceptable(reg: AggregateHdt, ops: Seq<UpdateOp>) -> bool {
    forall|i: int| 0 <= i < ops.len() ==> op_acceptable(reg, #[trigger] ops[i])
}

/// Validates the targets of one `INSERT DATA` operation.
fn check_insert_targets(reg: &AggregateHdt, graphs: &Vec<Option<String>>) -> (r: Result<
    (),
    HttpError,
>)
    requires
        reg.wf(),
    ensures
        r is Ok <==> insert_targets_ok(*reg, graphs@),
        r matches Err(e) ==> e.0 == 400,
{
    let mut i: usize = 0;
    while i < graphs.len()
        invariant
            reg.wf(),
            0 <= i <= graphs@.len(),
            forall|j: int| 0 <= j < i ==> insert_target_ok(*reg, #[trigger] graphs@[j]),
        decreases graphs@.len() - i,
    {
        match &graphs[i] {
            None => {
                return Err((
                    400,
                    String::from_str(
                        "INSERT DATA to default graph is not allowed. Only named graphs are supported.",
                    ),
                ));
            },
            Some(g) => {
                let exists_already = match reg.contains_graph_name(g) {
                    Ok(b) => b,
                    Err(_) => true,
                };
                if exists_already {
                    let mut msg = String::from_str("Graph ");
                    msg.append(g.as_str());
                    msg.append(" already exists. INSERT DATA is only allowed to new graphs.");
                    return Err((400, msg));
                }
            },
        }
        i = i + 1;
    }
    Ok(())
}

/// Runs the validation state machine over the whole operation list, before
/// anything executes. The first unacceptable operation rejects the entire
/// request with its specific status and reason; acceptance means every
/// operation passed.
pub fn validate_update(reg: &AggregateHdt, ops: &Vec<UpdateOp>) -> (r: Result<(), HttpError>)
    requires
        reg.wf(),
    ensures
        r is Ok <==> ops_acceptable(*reg, ops@),
        r matches Err(e) ==> exists|i: int|
            0 <= i < ops@.len() && !op_acceptable(*reg, #[trigger] ops@[i]) && (forall|j: int|
                0 <= j < i ==> op_acceptable(*reg, #[trigger] ops@[j])) && e.0 == rejection_status(
                ops@[i],
            ),
{
    let mut i: usize = 0;
    while i < ops.len()
        invariant
            reg.wf(),
            0 <= i <= ops@.len(),
            forall|j: int| 0 <= j < i ==> op_acceptable(*reg, #[trigger] ops@[j]),
        decreases ops@.len() - i,
    {
        let ghost gi = i as int;
        match &ops[i] {
            UpdateOp::Create { graph, silent } => {
                if !*silent {
                    let exists_already = match reg.contains_graph_name(graph) {
                        Ok(b) => b,
                        Err(_) => true,
                    };
                    if exists_already {
                        let mut msg = String::from_str("Graph ");
                        msg.append(graph.as_str());
                        msg.append(" already exists.");
                        proof {
                            assert(!op_acceptable(*reg, ops@[gi]));
                        }
                        return Err((400, msg));
                    }
                }
            },
            UpdateOp::InsertData { graphs } => {
                match check_insert_targets(reg, graphs) {
                    Ok(_) => {},
                    Err(e) => {
                        proof {
                            assert(!op_acceptable(*reg, ops@[gi]));
                        }
                        return Err(e);
                    },
                }
            },
            UpdateOp::Load { destination, silent } => {
                match destination {
                    None => {
                        proof {
                            assert(!op_acceptable(*reg, ops@[gi]));
                        }
                        return Err((
                            400,
                            String::from_str(
                                "LOAD to default graph is not allowed. Only named graphs can be created.",
                            ),
                        ));
                    },
                    Some(g) => {
                        if !*silent {
                            let exists_already = match reg.contains_graph_name(g) {
                                Ok(b) => b,
                                Err(_) => true,
                            };
                            if exists_already {
                                let mut msg = String::from_str("Graph ");
                                msg.append(g.as_str());
                                msg.append(" already exists. LOAD is only allowed to new graphs.");
                                proof {
                                    assert(!op_acceptable(*reg, ops@[gi]));
                                }
                                return Err((400, msg));
                            }
                        }
                    },
                }
            },
            UpdateOp::DeleteData => {
                return Err((
                    403,
                    String::from_str(
                        "DELETE DATA is not allowed. Only INSERT DATA to new graphs is permitted.",
                    ),
                ));
            },
            UpdateOp::DeleteInsert => {
                return Err((
                    403,
                    String::from_str(
                        "DELETE/INSERT operations are not allowed. Only INSERT DATA to new graphs is permitted.",
                    ),
                ));
            },
            UpdateOp::Clear => {
                return Err((
                    403,
                    String::from_str(
                        "CLEAR is not allowed. Only INSERT DATA to new graphs is permitted.",
                    ),
                ));
            },
            UpdateOp::Drop => {
                return Err((
                    403,
                    String::from_str(
                        "DROP is not allowed. Only INSERT DATA to new graphs is permitted.",
                    ),
                ));
            },
        }
        i = i + 1;
    }
    Ok(())
}

/// Parses an update request and validates every operation against the
/// registry, before anything executes: the request is accepted exactly when
/// its text parses and every operation of it passes the state machine. A
/// parse failure is a 400; a rejected operation aborts with the first
/// offender's status and reason; the registry is never touched.
pub fn parse_and_validate_update(reg: &AggregateHdt, update: &str, base: &str) -> (r: Result<
    Vec<UpdateOp>,
    HttpError,
>)
    requires
        reg.wf(),
    ensures
        r is Ok <==> (update_ops_of(update@, base@) matches Some(ops) && ops_acceptable(
            *reg,
            ops,
        )),
        r matches Ok(ops) ==> update_ops_of(update@, base@) == Some(ops@),
        r matches Err(e) ==> match update_ops_of(update@, base@) {
            None => e.0 == 400,
            Some(ops) => exists|i: int|
                0 <= i < ops.len() && !op_acceptable(*reg, #[trigger] ops[i]) && (forall|j: int|
                    0 <= j < i ==> op_acceptable(*reg, ops[j])) && e.0 == rejection_status(
                    ops[i],
                ),
        },
{
    let ops = match parse_and_classify_update(update, base) {
        Ok(ops) => ops,
        Err(m) => {
            let mut msg = String::from_str("Invalid SPARQL update: ");
            msg.append(m.as_str());
            return Err((400, msg));
        },
    };
    match validate_update(reg, &ops) {
        Ok(_) => Ok(ops),
        Err(e) => Err(e),
    }
}

// ------------------------------------------------------------------
// Laws of the state machine
// ------------------------------------------------------------------
/// Law: a request holding a `DELETE DATA` operation never passes
/// validation, whatever else it holds and whatever is registered; since
/// execution happens only after full validation, it produces no side effect,
/// and the operation itself draws status 403.
pub proof fn lemma_delete_data_never_accepted(reg: AggregateHdt, ops: Seq<UpdateOp>, i: int)
    requires
        0 <= i < ops.len(),
        ops[i] is DeleteData,
    ensures
        !ops_acceptable(reg, ops),
        rejection_status(ops[i]) == 403,
{
    assert(!op_acceptable(reg, ops[i]));
}

/// Law: `INSERT DATA` into a named graph is accepted exactly while
/// the graph is absent: against a registry lacking the graph the operation
/// passes validation, and against a registry holding it (as after the first
/// request registers it) the same operation is rejected, with status 400.
pub proof fn lemma_insert_data_twice(
    reg_before: AggregateHdt,
    reg_after: AggregateHdt,
    op: UpdateOp,
    g: Seq<char>,
)
    requires
        ({
            &&& op matches UpdateOp::InsertData { graphs }
            &&& graphs@.len() > 0
            &&& forall|i: int| 0 <= i < graphs@.len() ==> targets_graph(#[trigger] graphs@[i], g)
        }),
        !reg_before.spec_contains(g),
        reg_after.spec_contains(g),
    ensures
        op_acceptable(reg_before, op),
        !op_acceptable(reg_after, op),
        rejection_status(op) == 400,
{
    let graphs = op->InsertData_graphs;
    assert forall|i: int| 0 <= i < graphs@.len() implies insert_target_ok(
        reg_before,
        #[trigger] graphs@[i],
    ) by {
        assert(targets_graph(graphs@[i], g));
    }
    assert(targets_graph(graphs@[0], g));
    assert(!insert_target_ok(reg_after, graphs@[0]));
}

// ------------------------------------------------------------------
// Grouping accepted insertions by target graph
// ------------------------------------------------------------------
/// Groups the quads of an accepted `INSERT DATA` by their target graph:
/// each named graph that occurs gets one group, in first-seen order, holding
/// the indices of exactly the quads that target it.
pub fn group_insert_targets(graphs: &Vec<Option<String>>) -> (r: Vec<(String, Vec<usize>)>)
    ensures
        forall|k1: int, k2: int| 0 <= k1 < k2 < r@.len() ==> r@[k1].0@ != r@[k2].0@,
        forall|k: int, l: int|
            0 <= k < r@.len() && 0 <= l < r@[k].1@.len() ==> 0 <= #[trigger] r@[k].1@[l]
                < graphs@.len() && targets_graph(graphs@[r@[k].1@[l] as int], r@[k].0@),
        forall|i: int|
            0 <= i < graphs@.len() && (#[trigger] graphs@[i]) is Some ==> exists|k: int, l: int|
                0 <= k < r@.len() && 0 <= l < r@[k].1@.len() && r@[k].1@[l] == i,
{
    let mut names: Vec<String> = Vec::new();
    let mut i: usize = 0;
    while i < graphs.len()
        invariant
            0 <= i <= graphs@.len(),
            forall|k1: int, k2: int| 0 <= k1 < k2 < names@.len() ==> names@[k1]@ != names@[k2]@,
            forall|j: int|
                0 <= j < i && (#[trigger] graphs@[j]) is Some ==> exists|k: int|
                    0 <= k < names@.len() && targets_graph(graphs@[j], #[trigger] names@[k]@),
        decreases graphs@.len() - i,
    {
        let ghost names_old = names@;
        match &graphs[i] {
            None => {},
            Some(g) => {
                let mut seen = false;
                let mut k: usize = 0;
                loop
                    invariant_except_break
                        0 <= k <= names@.len(),
                        !seen,
                        forall|k2: int| 0 <= k2 < k ==> names@[k2]@ != g@,
                    ensures
                        seen ==> exists|k2: int|
                            0 <= k2 < names@.len() && #[trigger] names@[k2]@ == g@,
                        !seen ==> forall|k2: int| 0 <= k2 < names@.len() ==> names@[k2]@ != g@,
                    decreases names@.len() - k,
                {
                    if k >= names.len() {
                        break;
                    }
                    if names[k] == *g {
                        proof {
                            assert(names@[k as int]@ == g@);
                        }
                        seen = true;
                        break;
                    }
                    k = k + 1;
                }
                if !seen {
                    names.push(g.clone());
                    proof {
                        assert(names@[names@.len() - 1]@ == g@);
                    }
                }
            },
        }
        proof {
            assert forall|j: int| 0 <= j < i + 1 && (#[trigger] graphs@[j]) is Some implies exists|
                k: int,
            |
                0 <= k < names@.len() && targets_graph(graphs@[j], #[trigger] names@[k]@) by {
                if j < i {
                    let k0 = choose|k: int|
                        0 <= k < names_old.len() && targets_graph(graphs@[j], #[trigger] names_old[k]@);
                    assert(names@[k0]@ == names_old[k0]@);
                    assert(targets_graph(graphs@[j], names@[k0]@));
                } else {
                    let kw = choose|k2: int| 0 <= k2 < names@.len() && #[trigger] names@[k2]@ == graphs@[j]->Some_0@;
                    assert(targets_graph(graphs@[j], names@[kw]@));
                }
            }
        }
        i = i + 1;
    }
    let mut r: Vec<(String, Vec<usize>)> = Vec::new();
    let mut k: usize = 0;
    while k < names.len()
        invariant
            0 <= k <= names@.len(),
            r@.len() == k,
            forall|k1: int, k2: int| 0 <= k1 < k2 < names@.len() ==> names@[k1]@ != names@[k2]@,
            forall|k2: int| 0 <= k2 < k ==> #[trigger] r@[k2].0@ == names@[k2]@,
            forall|k2: int, l: int|
                0 <= k2 < k && 0 <= l < r@[k2].1@.len() ==> 0 <= #[trigger] r@[k2].1@[l]
                    < graphs@.len() && targets_graph(graphs@[r@[k2].1@[l] as int], r@[k2].0@),
            forall|i2: int, k2: int|
                #![trigger graphs@[i2], names@[k2]]
                0 <= i2 < graphs@.len() && 0 <= k2 < k && targets_graph(graphs@[i2], names@[k2]@)
                    ==> exists|l: int| 0 <= l < r@[k2].1@.len() && #[trigger] r@[k2].1@[l] == i2,
        decreases names@.len() - k,
    {
        let name = names[k].clone();
        let mut idxs: Vec<usize> = Vec::new();
        let mut i2: usize = 0;
        while i2 < graphs.len()
            invariant
                0 <= i2 <= graphs@.len(),
                name@ == names@[k as int]@,
                forall|l: int|
                    0 <= l < idxs@.len() ==> 0 <= #[trigger] idxs@[l] < i2 && targets_graph(
                        graphs@[idxs@[l] as int],
                        name@,
                    ),
                forall|j: int|
                    0 <= j < i2 && targets_graph(#[trigger] graphs@[j], name@) ==> exists|l: int|
                        0 <= l < idxs@.len() && #[trigger] idxs@[l] == j,
            decreases graphs@.len() - i2,
        {
            let ghost idxs_old = idxs@;
            let matches_name = match &graphs[i2] {
                Some(g) => *g == name,
                None => false,
            };
            proof {
                assert(matches_name == targets_graph(graphs@[i2 as int], name@));
            }
            if matches_name {
                idxs.push(i2);
                proof {
                    assert(idxs@[idxs@.len() - 1] == i2);
                }
            }
            proof {
                assert forall|j: int|
                    0 <= j < i2 + 1 && targets_graph(#[trigger] graphs@[j], name@) implies exists|
                    l: int,
                |
                    0 <= l < idxs@.len() && #[trigger] idxs@[l] == j by {
                    if j < i2 {
                        let l0 = choose|l: int|
                            0 <= l < idxs_old.len() && #[trigger] idxs_old[l] == j;
                        assert(idxs@[l0] == j);
                    } else {
                        assert(matches_name);
                        assert(idxs@[idxs@.len() - 1] == i2);
                    }
                }
            }
            i2 = i2 + 1;
        }
        let ghost idxs_g = idxs@;
        let ghost r_old = r@;
        r.push((name, idxs));
        proof {
            assert(r@[k as int].0@ == names@[k as int]@);
            assert(r@[k as int].1@ == idxs_g);
            assert forall|i2: int, k2: int|
                #![trigger graphs@[i2], names@[k2]]
                0 <= i2 < graphs@.len() && 0 <= k2 < k + 1 && targets_graph(
                    graphs@[i2],
                    names@[k2]@,
                ) implies exists|l: int|
                0 <= l < r@[k2].1@.len() && #[trigger] r@[k2].1@[l] == i2 by {
                if k2 == k {
                    let l = choose|l: int| 0 <= l < idxs_g.len() && #[trigger] idxs_g[l] == i2;
                    assert(r@[k2].1@[l] == i2);
                } else {
                    let l0 = choose|l: int|
                        0 <= l < r_old[k2].1@.len() && #[trigger] r_old[k2].1@[l] == i2;
                    assert(r@[k2] == r_old[k2]);
                    assert(r@[k2].1@[l0] == i2);
                }
            }
        }
        k = k + 1;
    }
    proof {
        assert forall|i2: int|
            0 <= i2 < graphs@.len() && (#[trigger] graphs@[i2]) is Some implies exists|
            k2: int,
            l: int,
        |
            0 <= k2 < r@.len() && 0 <= l < r@[k2].1@.len() && r@[k2].1@[l] == i2 by {
            let k2 = choose|k: int|
                0 <= k < names@.len() && targets_graph(graphs@[i2], #[trigger] names@[k]@);
            let l = choose|l: int| 0 <= l < r@[k2].1@.len() && #[trigger] r@[k2].1@[l] == i2;
            assert(0 <= k2 < r@.len() && 0 <= l < r@[k2].1@.len() && r@[k2].1@[l] == i2);
        }
    }
    r
}

// ------------------------------------------------------------------
// Routing
// ------------------------------------------------------------------
/// Where a request goes, decided from its path and method.
pub enum Route {
    /// A static page or asset; `head` means only the headers are wanted.
    RootPage { head: bool },
    YasguiCss { head: bool },
    YasguiJs { head: bool },
    Logo { head: bool },
    QueryGet,
    QueryPost,
    UpdateGet,
    UpdatePost,
    StoreGet,
    StorePut,
    StoreDelete,
    StorePost,
    StoreHead,
    NotFound,
}

/// Whether `p` starts with `prefix`.
pub open spec fn starts_with(p: Seq<char>, prefix: Seq<char>) -> bool {
    prefix.len() <= p.len() && p.subrange(0, prefix.len() as int) == prefix
}

/// The route of a request: the fixed pages, the query and update
/// endpoints, the direct graph store under `/store`, and not-found for the
/// rest.
pub open spec fn spec_route(path: Seq<char>, method: Seq<char>) -> Route {
    if path == "/"@ && method == "HEAD"@ {
        Route::RootPage { head: true }
    } else if path == "/"@ && method == "GET"@ {
        Route::RootPage { head: false }
    } else if path == "/yasgui.min.css"@ && method == "HEAD"@ {
        Route::YasguiCss { head: true }
    } else if path == "/yasgui.min.css"@ && method == "GET"@ {
        Route::YasguiCss { head: false }
    } else if path == "/yasgui.min.js"@ && method == "HEAD"@ {
        Route::YasguiJs { head: true }
    } else if path == "/yasgui.min.js"@ && method == "GET"@ {
        Route::YasguiJs { head: false }
    } else if path == "/logo.svg"@ && method == "HEAD"@ {
        Route::Logo { head: true }
    } else if path == "/logo.svg"@ && method == "GET"@ {
        Route::Logo { head: false }
    } else if path == "/query"@ && method == "GET"@ {
        Route::QueryGet
    } else if path == "/query"@ && method == "POST"@ {
        Route::QueryPost
    } else if path == "/update"@ && method == "GET"@ {
        Route::UpdateGet
    } else if path == "/update"@ && method == "POST"@ {
        Route::UpdatePost
    } else if starts_with(path, "/store"@) && method == "GET"@ {
        Route::StoreGet
    } else if starts_with(path, "/store"@) && method == "PUT"@ {
        Route::StorePut
    } else if starts_with(path, "/store"@) && method == "DELETE"@ {
        Route::StoreDelete
    } else if starts_with(path, "/store"@) && method == "POST"@ {
        Route::StorePost
    } else if starts_with(path, "/store"@) && method == "HEAD"@ {
        Route::StoreHead
    } else {
        Route::NotFound
    }
}

/// Whether `p` starts with `prefix`, decided as [`starts_with`].
fn starts_with_exec(p: &str, prefix: &str) -> (b: bool)
    ensures
        b == starts_with(p@, prefix@),
{
    let n = p.unicode_len();
    let m = prefix.unicode_len();
    if m > n {
        return false;
    }
    let head = p.substring_char(0, m);
    proof {
        assert(head@ =~= p@.subrange(0, prefix@.len() as int));
    }
    crate::rdf2nt::str_eq(head, prefix)
}

/// Routes a request, exactly as [`spec_route`] describes.
pub fn route(path: &str, method: &str) -> (r: Route)
    ensures
        r == spec_route(path@, method@),
{
    let head = crate::rdf2nt::str_eq(method, "HEAD");
    let get = crate::rdf2nt::str_eq(method, "GET");
    if crate::rdf2nt::str_eq(path, "/") && head {
        Route::RootPage { head: true }
    } else if crate::rdf2nt::str_eq(path, "/") && get {
        Route::RootPage { head: false }
    } else if crate::rdf2nt::str_eq(path, "/yasgui.min.css") && head {
        Route::YasguiCss { head: true }
    } else if crate::rdf2nt::str_eq(path, "/yasgui.min.css") && get {
        Route::YasguiCss { head: false }
    } else if crate::rdf2nt::str_eq(path, "/yasgui.min.js") && head {
        Route::YasguiJs { head: true }
    } else if crate::rdf2nt::str_eq(path, "/yasgui.min.js") && get {
        Route::YasguiJs { head: false }
    } else if crate::rdf2nt::str_eq(path, "/logo.svg") && head {
        Route::Logo { head: true }
    } else if crate::rdf2nt::str_eq(path, "/logo.svg") && get {
        Route::Logo { head: false }
    } else if crate::rdf2nt::str_eq(path, "/query") && get {
        Route::QueryGet
    } else if crate::rdf2nt::str_eq(path, "/query") && crate::rdf2nt::str_eq(method, "POST") {
        Route::QueryPost
    } else if crate::rdf2nt::str_eq(path, "/update") && get {
        Route::UpdateGet
    } else if crate::rdf2nt::str_eq(path, "/update") && crate::rdf2nt::str_eq(method, "POST") {
        Route::UpdatePost
    } else if starts_with_exec(path, "/store") && get {
        Route::StoreGet
    } else if starts_with_exec(path, "/store") && crate::rdf2nt::str_eq(method, "PUT") {
        Route::StorePut
    } else if starts_with_exec(path, "/store") && crate::rdf2nt::str_eq(method, "DELETE") {
        Route::StoreDelete
    } else if starts_with_exec(path, "/store") && crate::rdf2nt::str_eq(method, "POST") {
        Route::StorePost
    } else if starts_with_exec(path, "/store") && head {
        Route::StoreHead
    } else {
        Route::NotFound
    }
}

/// Whether a request body's `Content-Type` names the expected media type:
/// the part before any parameters, trimmed, compared without regard to
/// ASCII case.
pub fn content_type_matches(value: &str, expected: &str) -> (b: bool)
    ensures
        b == crate::negotiate::eq_ci(
            crate::negotiate::trim(
                value@.subrange(0, crate::negotiate::find_char(value@, ';')),
            ),
            expected@,
        ),
{
    let semi = crate::negotiate::find_char_exec(value, ';');
    let ess = value.substring_char(0, semi);
    proof {
        assert(ess@ =~= value@.subrange(0, crate::negotiate::find_char(value@, ';')));
    }
    let trimmed = crate::negotiate::trim_exec(ess);
    crate::negotiate::eq_ci_exec(trimmed.as_str(), expected)
}

// ------------------------------------------------------------------
// Request parameters
// ------------------------------------------------------------------
/// The key–value pairs a form-urlencoded text decodes to; the decoding
/// depends on the bytes alone.
pub uninterp spec fn form_pairs_of(s: Seq<u8>) -> Seq<(Seq<char>, Seq<char>)>;

/// The views of a sequence of decoded pairs.
pub open spec fn pair_views(v: Seq<(String, String)>) -> Seq<(Seq<char>, Seq<char>)> {
    v.map_values(|p: (String, String)| (p.0@, p.1@))
}

/// Relies on `url::form_urlencoded::parse`: decodes an
/// `application/x-www-form-urlencoded` text into its key–value pairs, in
/// order.
#[verifier::external_body]
pub fn parse_form_urlencoded(bytes: &Vec<u8>) -> (r: Vec<(String, String)>)
    ensures
        pair_views(r@) == form_pairs_of(bytes@),
{
    url::form_urlencoded::parse(bytes.as_slice()).into_owned().collect()
}

/// The values under a key, in order.
pub open spec fn key_values(ps: Seq<(Seq<char>, Seq<char>)>, k: Seq<char>) -> Seq<Seq<char>>
    decreases ps.len(),
{
    if ps.len() == 0 {
        Seq::empty()
    } else {
        key_values(ps.drop_last(), k) + (if ps.last().0 == k {
            seq![ps.last().1]
        } else {
            Seq::empty()
        })
    }
}

/// The first value under a key, if any.
pub open spec fn first_value(ps: Seq<(Seq<char>, Seq<char>)>, k: Seq<char>) -> Option<Seq<char>>
    decreases ps.len(),
{
    if ps.len() == 0 {
        None
    } else if ps[0].0 == k {
        Some(ps[0].1)
    } else {
        first_value(ps.drop_first(), k)
    }
}

/// Looks a query parameter up, as [`first_value`] describes.
pub fn url_query_parameter(pairs: &Vec<(String, String)>, param: &str) -> (r: Option<String>)
    ensures
        match r {
            Some(v) => first_value(pair_views(pairs@), param@) == Some(v@),
            None => first_value(pair_views(pairs@), param@) is None,
        },
{
    let ghost pv = pair_views(pairs@);
    let mut i: usize = 0;
    proof {
        assert(pv.subrange(0, pv.len() as int) =~= pv);
    }
    while i < pairs.len()
        invariant
            0 <= i <= pairs@.len(),
            pv == pair_views(pairs@),
            first_value(pv, param@) == first_value(
                pv.subrange(i as int, pv.len() as int),
                param@,
            ),
        decreases pairs@.len() - i,
    {
        let ghost rem = pv.subrange(i as int, pv.len() as int);
        proof {
            assert(rem[0] == pv[i as int]);
            assert(rem.drop_first() =~= pv.subrange(i + 1, pv.len() as int));
        }
        let p = &pairs[i];
        if crate::rdf2nt::str_eq(p.0.as_str(), param) {
            return Some(p.1.clone());
        }
        i = i + 1;
    }
    proof {
        assert(pv.subrange(pv.len() as int, pv.len() as int) =~= Seq::<(Seq<char>, Seq<char>)>::empty());
    }
    None
}

/// A pair carrying a key makes the whole list's count exceed any prefix
/// before it.
proof fn lemma_count_key_mono(ps: Seq<(Seq<char>, Seq<char>)>, k: Seq<char>, i: int)
    requires
        0 <= i < ps.len(),
        ps[i].0 == k,
    ensures
        count_key(ps, k) >= count_key(ps.subrange(0, i), k) + 1,
    decreases ps.len(),
{
    if i == ps.len() - 1 {
        assert(ps.drop_last() =~= ps.subrange(0, i));
    } else {
        lemma_count_key_mono(ps.drop_last(), k, i);
        assert(ps.drop_last().subrange(0, i) =~= ps.subrange(0, i));
        assert(ps.drop_last()[i] == ps[i]);
    }
}

/// How many pairs carry a key.
pub open spec fn count_key(ps: Seq<(Seq<char>, Seq<char>)>, k: Seq<char>) -> nat
    decreases ps.len(),
{
    if ps.len() == 0 {
        0
    } else {
        count_key(ps.drop_last(), k) + (if ps.last().0 == k {
            1nat
        } else {
            0nat
        })
    }
}

/// The settings of a query or update request, gathered from its decoded
/// parameters.
pub struct ProtocolParams {
    /// The request text (the query or the update).
    pub text: String,
    pub default_graph_uris: Vec<String>,
    pub named_graph_uris: Vec<String>,
    pub use_default_graph_as_union: bool,
}

/// Gathers the settings of a query or update request from its decoded
/// parameters: exactly one source must supply the request text (a direct
/// body counts as one), the graph-selection parameters are collected in
/// order, and the union-default flag falls back to the endpoint's default
/// when no graph selection was given.
pub fn gather_protocol_params(
    pairs: &Vec<(String, String)>,
    preset: Option<String>,
    main_key: &str,
    default_key: &str,
    union_key: &str,
    named_key: &str,
    default_union: bool,
) -> (r: Result<ProtocolParams, HttpError>)
    requires
        main_key@ != default_key@,
        main_key@ != named_key@,
        main_key@ != union_key@,
        default_key@ != named_key@,
        default_key@ != union_key@,
        named_key@ != union_key@,
    ensures
        r is Ok <==> count_key(pair_views(pairs@), main_key@) + (if preset is Some {
            1int
        } else {
            0int
        }) == 1,
        r matches Ok(p) ==> {
            &&& (match preset {
                Some(t) => p.text@ == t@,
                None => key_values(pair_views(pairs@), main_key@) == seq![p.text@],
            })
            &&& p.default_graph_uris@.map_values(|s: String| s@) == key_values(
                pair_views(pairs@),
                default_key@,
            )
            &&& p.named_graph_uris@.map_values(|s: String| s@) == key_values(
                pair_views(pairs@),
                named_key@,
            )
            &&& p.use_default_graph_as_union == (count_key(pair_views(pairs@), union_key@) > 0 || (
            default_union && key_values(pair_views(pairs@), default_key@).len() == 0 && key_values(
                pair_views(pairs@),
                named_key@,
            ).len() == 0))
        },
        r matches Err(e) ==> e.0 == 400,
{
    let ghost pv = pair_views(pairs@);
    let mut text: Option<String> = preset;
    let mut default_graph_uris: Vec<String> = Vec::new();
    let mut named_graph_uris: Vec<String> = Vec::new();
    let mut union_seen = false;
    let mut i: usize = 0;
    proof {
        assert(pv.subrange(0, 0) =~= Seq::<(Seq<char>, Seq<char>)>::empty());
    }
    while i < pairs.len()
        invariant
            0 <= i <= pairs@.len(),
            pv == pair_views(pairs@),
            main_key@ != default_key@,
            main_key@ != named_key@,
            main_key@ != union_key@,
            default_key@ != named_key@,
            default_key@ != union_key@,
            named_key@ != union_key@,
            count_key(pv.subrange(0, i as int), main_key@) + (if preset is Some {
                1int
            } else {
                0int
            }) == (if text is Some {
                1int
            } else {
                0int
            }),
            match preset {
                Some(t) => text matches Some(t2) && t2@ == t@,
                None => match text {
                    Some(t2) => key_values(pv.subrange(0, i as int), main_key@) == seq![t2@],
                    None => key_values(pv.subrange(0, i as int), main_key@) == Seq::<
                        Seq<char>,
                    >::empty(),
                },
            },
            default_graph_uris@.map_values(|s: String| s@) == key_values(
                pv.subrange(0, i as int),
                default_key@,
            ),
            named_graph_uris@.map_values(|s: String| s@) == key_values(
                pv.subrange(0, i as int),
                named_key@,
            ),
            union_seen == (count_key(pv.subrange(0, i as int), union_key@) > 0),
        decreases pairs@.len() - i,
    {
        let p = &pairs[i];
        proof {
            let pre = pv.subrange(0, i as int);
            let cur = pv.subrange(0, i + 1 as int);
            assert(cur.drop_last() =~= pre);
            assert(cur.last() == pv[i as int]);
            assert(pv[i as int] == (p.0@, p.1@));
        }
        if crate::rdf2nt::str_eq(p.0.as_str(), main_key) {
            if text.is_some() {
                proof {
                    lemma_count_key_mono(pv, main_key@, i as int);
                }
                return Err((400, String::from_str("Multiple query parameters provided")));
            }
            let ghost dg = default_graph_uris@;
            let ghost ng = named_graph_uris@;
            text = Some(p.1.clone());
            proof {
                let pre = pv.subrange(0, i as int);
                let cur = pv.subrange(0, i + 1 as int);
                assert(key_values(cur, main_key@) =~= key_values(pre, main_key@) + seq![p.1@]);
                assert(key_values(pre, main_key@) + seq![p.1@] =~= seq![p.1@]);
                assert(key_values(cur, default_key@) =~= key_values(pre, default_key@));
                assert(key_values(cur, named_key@) =~= key_values(pre, named_key@));
            }
        } else {
            let is_default = crate::rdf2nt::str_eq(p.0.as_str(), default_key);
            let is_union = crate::rdf2nt::str_eq(p.0.as_str(), union_key);
            let is_named = crate::rdf2nt::str_eq(p.0.as_str(), named_key);
            let ghost dg = default_graph_uris@;
            let ghost ng = named_graph_uris@;
            if is_default {
                default_graph_uris.push(p.1.clone());
            } else if is_union {
                union_seen = true;
            } else if is_named {
                named_graph_uris.push(p.1.clone());
            }
            proof {
                let pre = pv.subrange(0, i as int);
                let cur = pv.subrange(0, i + 1 as int);
                if is_default {
                    assert(default_graph_uris@.map_values(|s: String| s@) =~= dg.map_values(
                        |s: String| s@,
                    ) + seq![p.1@]);
                    assert(key_values(cur, default_key@) =~= key_values(pre, default_key@) + seq![
                        p.1@,
                    ]);
                } else {
                    assert(key_values(cur, default_key@) =~= key_values(pre, default_key@));
                }
                if is_named {
                    assert(named_graph_uris@.map_values(|s: String| s@) =~= ng.map_values(
                        |s: String| s@,
                    ) + seq![p.1@]);
                    assert(key_values(cur, named_key@) =~= key_values(pre, named_key@) + seq![
                        p.1@,
                    ]);
                } else {
                    assert(key_values(cur, named_key@) =~= key_values(pre, named_key@));
                }
                assert(key_values(cur, main_key@) =~= key_values(pre, main_key@));
            }
        }
        i = i + 1;
    }
    proof {
        assert(pv.subrange(0, pv.len() as int) =~= pv);
    }
    let text = match text {
        Some(t) => t,
        None => {
            return Err((400, String::from_str("You should set the request parameter")));
        },
    };
    let mut use_union = union_seen;
    if default_graph_uris.len() == 0 && named_graph_uris.len() == 0 {
        use_union = use_union || default_union;
    }
    proof {
        assert(default_graph_uris@.map_values(|s: String| s@).len()
            == default_graph_uris@.len());
        assert(named_graph_uris@.map_values(|s: String| s@).len() == named_graph_uris@.len());
    }
    Ok(
        ProtocolParams {
            text,
            default_graph_uris,
            named_graph_uris,
            use_default_graph_as_union: use_union,
        },
    )
}

// ------------------------------------------------------------------
// The direct graph store's target
// ------------------------------------------------------------------
/// The resolution of a relative reference against a base IRI, or nothing
/// when either text is unusable; it depends on the two texts alone.
pub uninterp spec fn resolved_iri(base: Seq<char>, rel: Seq<char>) -> Option<Seq<char>>;

/// Relies on `oxiri::Iri::parse` and `Iri::resolve`: resolves a relative
/// reference against a base IRI by the reference-resolution algorithm. The
/// outcome depends on the two texts alone, so resolution succeeds exactly
/// when the name holds a text, and yields exactly that text.
#[verifier::external_body]
pub fn resolve_with_base(base: &String, rel: &String) -> (r: Result<String, String>)
    ensures
        r matches Ok(s) ==> resolved_iri(base@, rel@) == Some(s@),
        r is Err ==> resolved_iri(base@, rel@) is None,
{
    let iri = oxiri::Iri::parse(base.clone()).map_err(|e| e.to_string())?;
    let rel_ref = oxiri::IriRef::parse(rel.as_str()).map_err(|e| e.to_string())?;
    let resolved = iri.resolve(&rel_ref).map_err(|e| e.to_string())?;
    Ok(resolved.into_inner())
}

/// The base URL of a request: its URI up to the query string.
pub fn base_url(uri: &String) -> (r: String)
    ensures
        r@ == uri@.subrange(0, crate::negotiate::find_char(uri@, '?')),
{
    let us = uri.as_str();
    let q = crate::negotiate::find_char_exec(us, '?');
    let head = us.substring_char(0, q);
    proof {
        assert(head@ =~= uri@.subrange(0, crate::negotiate::find_char(uri@, '?')));
    }
    head.to_owned()
}

/// The target of a direct graph-store request: a named graph, the default
/// graph, or the whole dataset.
pub enum NamedGraphName {
    NamedNode(String),
    DefaultGraph,
}

/// Decides the target of a `/store` request from its path and query
/// parameters, an outcome for every request: `graph` and `default` together
/// are an error, `graph` alone names a graph resolved against the base,
/// `default` alone is the default graph, neither is the whole dataset; any
/// other path under the store resolves itself as the graph name. Only an
/// unresolvable graph reference is a further error, and every error is a
/// 400.
pub fn store_target(path: &String, pairs: &Vec<(String, String)>, base: &String) -> (r: Result<
    Option<NamedGraphName>,
    HttpError,
>)
    ensures
        ({
            let g = first_value(pair_views(pairs@), "graph"@);
            let d = first_value(pair_views(pairs@), "default"@);
            if path@ == "/store"@ {
                if g is Some && d is Some {
                    r matches Err(e) && e.0 == 400
                } else if g is Some {
                    match resolved_iri(base@, g->Some_0) {
                        Some(n) => r matches Ok(t) && t matches Some(nn)
                            && nn matches NamedGraphName::NamedNode(s) && s@ == n,
                        None => r matches Err(e) && e.0 == 400,
                    }
                } else if d is Some {
                    r matches Ok(t) && t matches Some(nn) && nn is DefaultGraph
                } else {
                    r matches Ok(t) && t is None
                }
            } else {
                match resolved_iri(base@, Seq::<char>::empty()) {
                    Some(n) => r matches Ok(t) && t matches Some(nn)
                        && nn matches NamedGraphName::NamedNode(s) && s@ == n,
                    None => r matches Err(e) && e.0 == 400,
                }
            }
        }),
{
    if crate::rdf2nt::str_eq(path.as_str(), "/store") {
        match url_query_parameter(pairs, "graph") {
            Some(graph) => {
                match url_query_parameter(pairs, "default") {
                    Some(_) => Err((
                        400,
                        String::from_str(
                            "Both graph and default parameters should not be set at the same time",
                        ),
                    )),
                    None => {
                        match resolve_with_base(base, &graph) {
                            Ok(n) => {
                                proof {
                                    assert(first_value(pair_views(pairs@), "graph"@) == Some(
                                        graph@,
                                    ));
                                }
                                Ok(Some(NamedGraphName::NamedNode(n)))
                            },
                            Err(m) => Err((400, m)),
                        }
                    },
                }
            },
            None => {
                match url_query_parameter(pairs, "default") {
                    Some(_) => Ok(Some(NamedGraphName::DefaultGraph)),
                    None => Ok(None),
                }
            },
        }
    } else {
        let empty = String::new();
        match resolve_with_base(base, &empty) {
            Ok(n) => Ok(Some(NamedGraphName::NamedNode(n))),
            Err(m) => Err((400, m)),
        }
    }
}

// ------------------------------------------------------------------
// The pull-based streaming buffer
// ------------------------------------------------------------------
/// The bridge between a write-style serializer and a read-style byte
/// source: the producer refills the buffer one chunk at a time, the
/// transport drains it; what was handed out plus what is pending is always
/// exactly what was produced, in order, so no byte is lost, invented or
/// reordered, and no more than one chunk is ever buffered.
pub struct ReadForWrite {
    buffer: Vec<u8>,
    position: usize,
    finished: bool,
    produced: Ghost<Seq<u8>>,
    delivered: Ghost<Seq<u8>>,
}

impl ReadForWrite {
    /// Well-formed: the read position stays inside the buffer, and what was
    /// delivered plus what is pending is what was produced.
    pub closed spec fn wf(self) -> bool {
        &&& self.position <= self.buffer@.len()
        &&& self.produced@ == self.delivered@ + self.buffer@.subrange(
            self.position as int,
            self.buffer@.len() as int,
        )
    }

    /// Every byte the producer wrote so far.
    pub closed spec fn spec_produced(self) -> Seq<u8> {
        self.produced@
    }

    /// Every byte the transport drained so far.
    pub closed spec fn spec_delivered(self) -> Seq<u8> {
        self.delivered@
    }

    /// Whether the producer said it is done.
    pub closed spec fn spec_finished(self) -> bool {
        self.finished
    }

    /// An empty stream: nothing produced, nothing delivered, not finished.
    pub fn new() -> (r: ReadForWrite)
        ensures
            r.wf(),
            r.spec_produced() == Seq::<u8>::empty(),
            r.spec_delivered() == Seq::<u8>::empty(),
            !r.spec_finished(),
    {
        let r = ReadForWrite {
            buffer: Vec::new(),
            position: 0,
            finished: false,
            produced: Ghost(Seq::empty()),
            delivered: Ghost(Seq::empty()),
        };
        proof {
            assert(r.buffer@.subrange(0, 0) =~= Seq::<u8>::empty());
            assert(r.produced@ =~= r.delivered@ + r.buffer@.subrange(0, 0));
        }
        r
    }

    /// Whether the buffer is drained and the producer must be asked for the
    /// next chunk (or the end).
    pub fn needs_data(&self) -> (b: bool)
        requires
            self.wf(),
        ensures
            b == (self.spec_delivered() == self.spec_produced() && !self.spec_finished()),
    {
        proof {
            if self.position == self.buffer@.len() {
                assert(self.buffer@.subrange(
                    self.position as int,
                    self.buffer@.len() as int,
                ) =~= Seq::<u8>::empty());
                assert(self.produced@ =~= self.delivered@);
            } else {
                assert(self.produced@.len() > self.delivered@.len());
            }
        }
        self.position == self.buffer.len() && !self.finished
    }

    /// Takes the producer's next chunk; only legal once the buffer is
    /// drained, so at most one chunk is ever held.
    pub fn supply(&mut self, chunk: Vec<u8>)
        requires
            old(self).wf(),
            old(self).spec_delivered() == old(self).spec_produced(),
        ensures
            final(self).wf(),
            final(self).spec_produced() == old(self).spec_produced() + chunk@,
            final(self).spec_delivered() == old(self).spec_delivered(),
            final(self).spec_finished() == old(self).spec_finished(),
    {
        let ghost chunk_g = chunk@;
        self.buffer = chunk;
        self.position = 0;
        proof {
            self.produced@ = self.delivered@ + chunk_g;
            assert(self.buffer@.subrange(0, self.buffer@.len() as int) =~= chunk_g);
        }
    }

    /// Records that the producer is done; nothing more will be supplied.
    pub fn finish(&mut self)
        requires
            old(self).wf(),
        ensures
            final(self).wf(),
            final(self).spec_finished(),
            final(self).spec_produced() == old(self).spec_produced(),
            final(self).spec_delivered() == old(self).spec_delivered(),
    {
        self.finished = true;
    }

    /// Drains up to `max` pending bytes into the transport's buffer: the
    /// bytes come out exactly in production order, and what is handed out
    /// is appended to the delivered stream.
    pub fn read_into(&mut self, max: usize) -> (r: Vec<u8>)
        requires
            old(self).wf(),
        ensures
            final(self).wf(),
            final(self).spec_produced() == old(self).spec_produced(),
            final(self).spec_finished() == old(self).spec_finished(),
            final(self).spec_delivered() == old(self).spec_delivered() + r@,
            r@.len() <= max,
            old(self).spec_delivered().len() + r@.len() <= old(self).spec_produced().len(),
            r@.len() == vstd::math::min(
                max as int,
                old(self).spec_produced().len() - old(self).spec_delivered().len(),
            ),
    {
        let ghost pre = *self;
        let pending = self.buffer.len() - self.position;
        let take = if max < pending {
            max
        } else {
            pending
        };
        let mut r: Vec<u8> = Vec::new();
        let mut k: usize = 0;
        while k < take
            invariant
                *self == pre,
                pre.wf(),
                pre.position + take <= pre.buffer@.len(),
                pre.buffer@.len() <= usize::MAX,
                0 <= k <= take,
                r@.len() == k,
                forall|j: int| 0 <= j < k ==> r@[j] == pre.buffer@[pre.position + j],
            decreases take - k,
        {
            r.push(self.buffer[self.position + k]);
            k = k + 1;
        }
        self.position = self.position + take;
        proof {
            self.delivered@ = self.delivered@ + r@;
            assert(r@ =~= pre.buffer@.subrange(
                pre.position as int,
                pre.position + take,
            ));
            assert(pre.buffer@.subrange(pre.position as int, pre.buffer@.len() as int) =~= r@
                + self.buffer@.subrange(self.position as int, self.buffer@.len() as int));
            assert(self.produced@ =~= self.delivered@ + self.buffer@.subrange(
                self.position as int,
                self.buffer@.len() as int,
            ));
        }
        r
    }
}

// ------------------------------------------------------------------
// The service description
// ------------------------------------------------------------------
/// Which protocol endpoint a service description describes.
pub enum EndpointKind {
    Query,
    Update,
}

/// The IRI of the language an endpoint speaks.
pub open spec fn spec_supported_language(kind: EndpointKind) -> Seq<char> {
    match kind {
        EndpointKind::Query => "http://www.w3.org/ns/sparql-service-description#SPARQL11Query"@,
        EndpointKind::Update => "http://www.w3.org/ns/sparql-service-description#SPARQL11Update"@,
    }
}

/// The statements of an endpoint's service description: the endpoint is a
/// service, it answers at its own IRI, it speaks the endpoint's language,
/// and, when the default graph is the union of all graphs, it says so.
pub open spec fn spec_service_description(
    kind: EndpointKind,
    endpoint: Seq<char>,
    union_default_graph: bool,
) -> Seq<crate::sparql::TripleV> {
    let head = seq![
        (
            endpoint,
            "http://www.w3.org/1999/02/22-rdf-syntax-ns#type"@,
            "http://www.w3.org/ns/sparql-service-description#Service"@,
        ),
        (endpoint, "http://www.w3.org/ns/sparql-service-description#endpoint"@, endpoint),
        (
            endpoint,
            "http://www.w3.org/ns/sparql-service-description#supportedLanguage"@,
            spec_supported_language(kind),
        ),
    ];
    if union_default_graph {
        head.push(
            (
                endpoint,
                "http://www.w3.org/ns/sparql-service-description#feature"@,
                "http://www.w3.org/ns/sparql-service-description#UnionDefaultGraph"@,
            ),
        )
    } else {
        head
    }
}

/// Generates the machine-readable service description of an endpoint, as
/// exactly the statements of [`spec_service_description`] in the store's
/// native term encoding (every term an IRI); the caller serializes them in
/// the negotiated graph format.
pub fn generate_service_description(
    kind: &EndpointKind,
    endpoint: &String,
    union_default_graph: bool,
) -> (r: Vec<crate::sparql::TripleStrings>)
    ensures
        crate::sparql::triple_views(r@) == spec_service_description(
            *kind,
            endpoint@,
            union_default_graph,
        ),
{
    let mut r: Vec<crate::sparql::TripleStrings> = Vec::new();
    r.push(
        crate::sparql::TripleStrings {
            subject: endpoint.clone(),
            predicate: String::from_str("http://www.w3.org/1999/02/22-rdf-syntax-ns#type"),
            object: String::from_str("http://www.w3.org/ns/sparql-service-description#Service"),
        },
    );
    r.push(
        crate::sparql::TripleStrings {
            subject: endpoint.clone(),
            predicate: String::from_str(
                "http://www.w3.org/ns/sparql-service-description#endpoint",
            ),
            object: endpoint.clone(),
        },
    );
    let language = match kind {
        EndpointKind::Query => String::from_str(
            "http://www.w3.org/ns/sparql-service-description#SPARQL11Query",
        ),
        EndpointKind::Update => String::from_str(
            "http://www.w3.org/ns/sparql-service-description#SPARQL11Update",
        ),
    };
    r.push(
        crate::sparql::TripleStrings {
            subject: endpoint.clone(),
            predicate: String::from_str(
                "http://www.w3.org/ns/sparql-service-description#supportedLanguage",
            ),
            object: language,
        },
    );
    if union_default_graph {
        r.push(
            crate::sparql::TripleStrings {
                subject: endpoint.clone(),
                predicate: String::from_str(
                    "http://www.w3.org/ns/sparql-service-description#feature",
                ),
                object: String::from_str(
                    "http://www.w3.org/ns/sparql-service-description#UnionDefaultGraph",
                ),
            },
        );
    }
    proof {
        assert(crate::sparql::triple_views(r@) =~= spec_service_description(
            *kind,
            endpoint@,
            union_default_graph,
        ));
    }
    r
}

// ------------------------------------------------------------------
// Fixed error responses
// ------------------------------------------------------------------
/// A client error: status 400 with the given diagnostic.
pub fn bad_request(message: String) -> (r: HttpError)
    ensures
        r.0 == 400,
        r.1@ == message@,
{
    (400, message)
}

/// The refusal of any mutation of existing data: status 403.
pub fn the_server_is_read_only() -> (r: HttpError)
    ensures
        r.0 == 403,
        r.1@ == "The server is read-only"@,
{
    (403, String::from_str("The server is read-only"))
}

/// An unusable request body format: status 415 naming the offered type.
pub fn unsupported_media_type(content_type: &String) -> (r: HttpError)
    ensures
        r.0 == 415,
        r.1@ == "No supported content Content-Type given: "@ + content_type@,
{
    let mut msg = String::from_str("No supported content Content-Type given: ");
    msg.append(content_type.as_str());
    (415, msg)
}

/// An unexpected server-side failure: status 500.
pub fn internal_server_error(message: String) -> (r: HttpError)
    ensures
        r.0 == 500,
        r.1@ == message@,
{
    (500, message)
}

} // verus!
