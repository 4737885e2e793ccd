//! The decisions of the proving service: projects are stored by id when
//! created; executing a project looks it up, decodes its payloads, regroups
//! the request data into witness arguments, and reports failures of the
//! witness and proof steps with their status.
use std::collections::HashMap;
use vstd::prelude::*;

use crate::text::{decimal_text, split, split_parts, u64_decimal, views};
use crate::utils::{convert, convert_result, group_by, group_by_result, zlib_hex_result};

verus! {

/// A stored project: its compiled program and its parameters (the proving
/// scheme first, then the proving key), both payloads hex-encoded and
/// zlib-compressed.
pub struct Project {
    pub content: String,
    pub exp_params: Vec<String>,
}

/// The status that a failed request is answered with.
#[derive(Clone, Copy, Debug, PartialEq, Eq, Structural)]
pub enum StatusCode {
    NotFound,
    InvalidArgument,
    Internal,
}

/// A failed request: its status and message.
pub struct ServiceError {
    pub code: StatusCode,
    pub message: String,
}

/// A failure, by its status and the view of its message.
pub open spec fn error_view(e: ServiceError) -> (StatusCode, Seq<char>) {
    (e.code, e.message@)
}

/// What a project's execution works on: the decoded program, the proving
/// scheme, the decoded proving key and the witness arguments.
pub struct ExecutionPlan {
    pub content: Vec<u8>,
    pub method: String,
    pub proving_key: Vec<u8>,
    pub witness_args: Vec<String>,
}

/// A plan, by views.
pub open spec fn plan_view(p: ExecutionPlan) -> (Seq<u8>, Seq<char>, Seq<u8>, Seq<Seq<char>>) {
    (p.content@, p.method@, p.proving_key@, views(p.witness_args@))
}

/// The projects, by id.
pub struct ProjectStore {
    projects: HashMap<u64, Project>,
}

impl View for ProjectStore {
    type V = Map<u64, Project>;

    closed spec fn view(&self) -> Map<u64, Project> {
        self.projects@
    }
}

/// Message for an unknown project id.
pub open spec fn not_found_message(project_id: u64) -> Seq<char> {
    "couldn't find project_id: "@ + decimal_text(project_id as nat)
}

/// What preparing the execution of `project_id` with the request data
/// `datas` gives in a store holding `projects`; `None` where the computation
/// panics (a project whose content decodes but that has fewer than two
/// parameters).
pub open spec fn prepare_result(projects: Map<u64, Project>, project_id: u64, datas: Seq<String>) -> Option<
    Result<(Seq<u8>, Seq<char>, Seq<u8>, Seq<Seq<char>>), (StatusCode, Seq<char>)>,
> {
    if !projects.contains_key(project_id) {
        Some(Err((StatusCode::NotFound, not_found_message(project_id))))
    } else {
        let p = projects[project_id];
        match convert_result(vstd::utf8::encode_utf8(p.content@), "content"@) {
            Err(e) => Some(Err((StatusCode::InvalidArgument, e))),
            Ok(content) => if p.exp_params@.len() < 2 {
                None
            } else {
                match convert_result(vstd::utf8::encode_utf8(p.exp_params@[1]@), "proving_key"@) {
                    Err(e) => Some(Err((StatusCode::InvalidArgument, e))),
                    Ok(key) => match group_by_result(datas, ',') {
                        Err(e) => Some(
                            Err((StatusCode::InvalidArgument, "some issue with the datas format "@ + e)),
                        ),
                        Ok(grouped) => Some(
                            Ok((content, p.exp_params@[0]@, key, split_parts(grouped, ' '))),
                        ),
                    },
                }
            },
        }
    }
}

/// A preparation outcome, by views.
pub open spec fn prepare_view(r: Option<Result<ExecutionPlan, ServiceError>>) -> Option<
    Result<(Seq<u8>, Seq<char>, Seq<u8>, Seq<Seq<char>>), (StatusCode, Seq<char>)>,
> {
    match r {
        None => None,
        Some(Ok(p)) => Some(Ok(plan_view(p))),
        Some(Err(e)) => Some(Err(error_view(e))),
    }
}

/// An invalid-argument failure with `message`.
fn invalid_argument(message: String) -> (e: ServiceError)
    ensures
        error_view(e) == (StatusCode::InvalidArgument, message@),
{
    ServiceError { code: StatusCode::InvalidArgument, message }
}

impl ProjectStore {
    /// An empty store.
    pub fn new() -> (s: ProjectStore)
        ensures
            s@ == Map::<u64, Project>::empty(),
    {
        ProjectStore { projects: HashMap::new() }
    }

    /// Stores `project` under `project_id`, replacing any project stored
    /// there before.
    pub fn create(&mut self, project_id: u64, project: Project)
        ensures
            final(self)@ == old(self)@.insert(project_id, project),
    {
        self.projects.insert(project_id, project);
    }

    /// The project stored under `project_id`, if any.
    pub fn get(&self, project_id: u64) -> (res: Option<&Project>)
        ensures
            match res {
                Some(p) => self@.contains_key(project_id) && *p == self@[project_id],
                None => !self@.contains_key(project_id),
            },
    {
        self.projects.get(&project_id)
    }

    /// `prepare_execution`, with `None` on the inputs on which the computation
    /// panics.
    pub fn try_prepare_execution(&self, project_id: u64, datas: Vec<String>) -> (res: Option<
        Result<ExecutionPlan, ServiceError>,
    >)
        ensures
            prepare_view(res) == prepare_result(self@, project_id, datas@),
    {
        let project = match self.get(project_id) {
            Some(p) => p,
            None => {
                let message = String::from_str("couldn't find project_id: ").concat(
                    u64_decimal(project_id).as_str(),
                );
                return Some(Err(ServiceError { code: StatusCode::NotFound, message }));
            },
        };
        let content = match convert(project.content.as_str(), "content") {
            Ok(c) => c,
            Err(e) => {
                return Some(Err(invalid_argument(e)));
            },
        };
        if project.exp_params.len() < 2 {
            return None;
        }
        let method = project.exp_params[0].clone();
        let proving_key = match convert(project.exp_params[1].as_str(), "proving_key") {
            Ok(k) => k,
            Err(e) => {
                return Some(Err(invalid_argument(e)));
            },
        };
        let grouped = match group_by(datas, ',') {
            Ok(g) => g,
            Err(e) => {
                let message = String::from_str("some issue with the datas format ").concat(e.as_str());
                return Some(Err(invalid_argument(message)));
            },
        };
        let witness_args = split(grouped.as_str(), ' ');
        Some(Ok(ExecutionPlan { content, method, proving_key, witness_args }))
    }

    /// Looks up `project_id` and prepares its execution with the request data
    /// `datas`: the decoded program, the proving scheme, the decoded proving
    /// key, and the data regrouped by `group_by` and split at spaces into
    /// witness arguments.
    pub fn prepare_execution(&self, project_id: u64, datas: Vec<String>) -> (res: Result<
        ExecutionPlan,
        ServiceError,
    >)
        requires
            prepare_result(self@, project_id, datas@) is Some,
        ensures
            prepare_view(Some(res)) == prepare_result(self@, project_id, datas@),
    {
        match self.try_prepare_execution(project_id, datas) {
            Some(r) => r,
            None => {
                assert(false);
                Err(invalid_argument(String::new()))
            },
        }
    }
}

/// Message for a failed witness computation.
pub open spec fn witness_failure_message(e: Seq<char>) -> Seq<char> {
    "couldn't deserialize program content "@ + e
}

/// Reports a failed witness computation as an invalid argument; passes a
/// computed witness on.
pub fn on_witness_computed(result: Result<Vec<u8>, String>) -> (res: Result<Vec<u8>, ServiceError>)
    ensures
        match (result, res) {
            (Ok(w), Ok(w2)) => w2 == w,
            (Err(e), Err(s)) => error_view(s) == (StatusCode::InvalidArgument, witness_failure_message(e@)),
            _ => false,
        },
{
    match result {
        Ok(w) => Ok(w),
        Err(e) => Err(invalid_argument(String::from_str("couldn't deserialize program content ").concat(e.as_str()))),
    }
}

/// Message for a failed proof computation.
pub open spec fn proof_failure_message(e: Seq<char>) -> Seq<char> {
    "couldnt compute proof "@ + e
}

/// Reports a failed proof computation as an internal error; passes a
/// computed proof on.
pub fn on_proof_computed(result: Result<String, String>) -> (res: Result<String, ServiceError>)
    ensures
        match (result, res) {
            (Ok(p), Ok(p2)) => p2 == p,
            (Err(e), Err(s)) => error_view(s) == (StatusCode::Internal, proof_failure_message(e@)),
            _ => false,
        },
{
    match result {
        Ok(p) => Ok(p),
        Err(e) => Err(
            ServiceError {
                code: StatusCode::Internal,
                message: String::from_str("couldnt compute proof ").concat(e.as_str()),
            },
        ),
    }
}

/// Creating a project and then executing it finds that project: the outcome
/// of preparing its execution depends on the created project and the request
/// data alone, whatever else the store held.
pub proof fn law_execute_finds_created_project(
    projects: Map<u64, Project>,
    project_id: u64,
    project: Project,
    datas: Seq<String>,
)
    ensures
        prepare_result(projects.insert(project_id, project), project_id, datas) == prepare_result(
            Map::<u64, Project>::empty().insert(project_id, project),
            project_id,
            datas,
        ),
        !(prepare_result(projects.insert(project_id, project), project_id, datas) matches Some(
            Err((StatusCode::NotFound, _)),
        )),
{
}

/// Creating a project leaves the execution of every other project as it was.
pub proof fn law_create_keeps_other_projects(
    projects: Map<u64, Project>,
    project_id: u64,
    project: Project,
    other_id: u64,
    datas: Seq<String>,
)
    requires
        other_id != project_id,
    ensures
        prepare_result(projects.insert(project_id, project), other_id, datas) == prepare_result(
            projects,
            other_id,
            datas,
        ),
{
    assert(projects.insert(project_id, project).contains_key(other_id) == projects.contains_key(
        other_id,
    ));
}

/// Executing an id that no project was created under is answered with
/// "not found" and the id.
pub proof fn law_unknown_project_not_found(project_id: u64, datas: Seq<String>)
    ensures
        prepare_result(Map::<u64, Project>::empty(), project_id, datas) == Some(
            Err::<(Seq<u8>, Seq<char>, Seq<u8>, Seq<Seq<char>>), (StatusCode, Seq<char>)>(
                (StatusCode::NotFound, not_found_message(project_id)),
            ),
        ),
{
}

/// The projects after the creations `creates`, in order.
pub open spec fn apply_creates(projects: Map<u64, Project>, creates: Seq<(u64, Project)>) -> Map<
    u64,
    Project,
>
    decreases creates.len(),
{
    if creates.len() == 0 {
        projects
    } else {
        apply_creates(projects, creates.drop_last()).insert(creates.last().0, creates.last().1)
    }
}

/// Creations never remove a project.
proof fn lemma_creates_keep_ids(projects: Map<u64, Project>, creates: Seq<(u64, Project)>, id: u64)
    requires
        projects.contains_key(id),
    ensures
        apply_creates(projects, creates).contains_key(id),
    decreases creates.len(),
{
    if creates.len() > 0 {
        lemma_creates_keep_ids(projects, creates.drop_last(), id);
    }
}

/// A created project is never lost: after any later creations (executions
/// leave the store as it is), executing its id is never answered "not
/// found".
pub proof fn law_created_project_is_never_lost(
    projects: Map<u64, Project>,
    project_id: u64,
    project: Project,
    later: Seq<(u64, Project)>,
    datas: Seq<String>,
)
    ensures
        !(prepare_result(
            apply_creates(projects.insert(project_id, project), later),
            project_id,
            datas,
        ) matches Some(Err((StatusCode::NotFound, _)))),
{
    lemma_creates_keep_ids(projects.insert(project_id, project), later, project_id);
}

/// A prepared plan is made of the stored project and the request alone:
/// its program is the decoded content, its scheme the first parameter, its
/// proving key the decoded second parameter (whatever parameters follow),
/// and its witness arguments the request data grouped by `,` and split at
/// spaces. Conversely, a project with at least two parameters whose content
/// and second parameter decode and whose data groups is always prepared.
pub proof fn law_prepared_plan_components(projects: Map<u64, Project>, project_id: u64, datas: Seq<String>)
    ensures
        prepare_result(projects, project_id, datas) matches Some(Ok((content, method, key, args))) ==> {
            let p = projects[project_id];
            &&& projects.contains_key(project_id)
            &&& p.exp_params@.len() >= 2
            &&& zlib_hex_result(vstd::utf8::encode_utf8(p.content@)) == Ok::<Seq<u8>, Seq<char>>(content)
            &&& method == p.exp_params@[0]@
            &&& zlib_hex_result(vstd::utf8::encode_utf8(p.exp_params@[1]@)) == Ok::<Seq<u8>, Seq<char>>(key)
            &&& group_by_result(datas, ',') matches Ok(g) && args == split_parts(g, ' ')
        },
        ({
            let p = projects[project_id];
            projects.contains_key(project_id) && p.exp_params@.len() >= 2 && zlib_hex_result(
                vstd::utf8::encode_utf8(p.content@),
            ) is Ok && zlib_hex_result(vstd::utf8::encode_utf8(p.exp_params@[1]@)) is Ok
                && group_by_result(datas, ',') is Ok
        }) ==> prepare_result(projects, project_id, datas) matches Some(Ok(_)),
{
}

} // verus!
