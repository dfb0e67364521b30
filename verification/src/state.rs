use vstd::prelude::*;
use crate::error::{AppError, ErrorCode, error_is, error_of, is_invalid_error};

verus! {

/// Identifies the project state an operation was started against: the project and the
/// revision it had then.
#[derive(Debug, Clone, Copy, PartialEq, Eq, Structural)]
pub struct ProjectToken {
    pub project_id: u128,
    pub revision: u64,
}

/// A write plan kept for later execution, tied to the project it was built for.
#[derive(Debug)]
pub struct StoredWritePlan<P> {
    pub plan_id: u128,
    pub project_id: u128,
    pub plan: P,
}

/// The open project (snapshot `S` and its id), its file, unsaved-change flag, a revision
/// counter that every change advances, and the write plans built for the current revision.
#[derive(Debug)]
pub struct AppState<S, P> {
    project: Option<(u128, S)>,
    project_path: Option<String>,
    write_plans: Vec<StoredWritePlan<P>>,
    resource_dir: Result<String, AppError>,
    dirty: bool,
    revision: u64,
}

/// The error for an operation that needs an open project.
pub open spec fn is_no_project_error(e: AppError) -> bool {
    error_is(e, ErrorCode::ProjectInvalid, "当前没有打开的项目。"@, "请选择有效的 GeoTagger 项目文件，或从备份恢复。"@, true)
}

/// The error for a result computed against a project state that has since changed.
pub open spec fn is_stale_error(e: AppError) -> bool {
    error_is(
        e,
        ErrorCode::ProjectInvalid,
        "项目在任务执行期间已切换或发生变化，结果未写入当前项目。"@,
        "请在当前项目中重新执行该操作。"@,
        true,
    )
}

fn no_project_error() -> (e: AppError)
    ensures
        is_no_project_error(e),
{
    AppError::project_invalid("当前没有打开的项目。".to_owned())
}

fn stale_project_error() -> (e: AppError)
    ensures
        is_stale_error(e),
{
    error_of(
        ErrorCode::ProjectInvalid,
        "项目在任务执行期间已切换或发生变化，结果未写入当前项目。",
        "请在当前项目中重新执行该操作。",
        true,
    )
}

/// The revision after one more change (the counter wraps around).
pub open spec fn next_revision(r: u64) -> u64 {
    if r == u64::MAX { 0 } else { (r + 1) as u64 }
}

impl<S, P> AppState<S, P> {
    pub closed spec fn open_project(&self) -> Option<(u128, S)> {
        self.project
    }

    pub closed spec fn path(&self) -> Option<String> {
        self.project_path
    }

    pub closed spec fn plans(&self) -> Seq<StoredWritePlan<P>> {
        self.write_plans@
    }

    pub closed spec fn resources(&self) -> Result<String, AppError> {
        self.resource_dir
    }

    pub closed spec fn is_dirty_spec(&self) -> bool {
        self.dirty
    }

    pub closed spec fn revision_spec(&self) -> u64 {
        self.revision
    }

    /// The token of the current project state, if a project is open.
    pub open spec fn current_token(&self) -> Option<ProjectToken> {
        match self.open_project() {
            None => None,
            Some(p) => Some(ProjectToken { project_id: p.0, revision: self.revision_spec() }),
        }
    }

    /// No project is open yet.
    pub fn new(resource_dir: Result<String, AppError>) -> (state: Self)
        ensures
            state.open_project() is None,
            state.path() is None,
            state.plans().len() == 0,
            state.resources() == resource_dir,
            !state.is_dirty_spec(),
            state.revision_spec() == 0,
    {
        AppState {
            project: None,
            project_path: None,
            write_plans: Vec::new(),
            resource_dir,
            dirty: false,
            revision: 0,
        }
    }

    /// Where the bundled tools are, or why that is unknown.
    pub fn exiftool_resource_dir(&self) -> (dir: &Result<String, AppError>)
        ensures
            *dir == self.resources(),
    {
        &self.resource_dir
    }

    /// The open project's snapshot.
    pub fn snapshot(&self) -> (result: Result<&S, AppError>)
        ensures
            match self.open_project() {
                None => result is Err && is_no_project_error(result->Err_0),
                Some(p) => result is Ok && *result->Ok_0 == p.1,
            },
    {
        match &self.project {
            None => Err(no_project_error()),
            Some(p) => Ok(&p.1),
        }
    }

    /// The file the open project is saved to.
    pub fn project_path(&self) -> (result: Result<String, AppError>)
        ensures
            match self.path() {
                None => result is Err && error_is(
                    result->Err_0,
                    ErrorCode::ProjectInvalid,
                    "当前项目尚未关联项目文件。"@,
                    "请选择有效的 GeoTagger 项目文件，或从备份恢复。"@,
                    true,
                ),
                Some(p) => result is Ok && result->Ok_0@ == p@,
            },
    {
        match &self.project_path {
            None => Err(AppError::project_invalid("当前项目尚未关联项目文件。".to_owned())),
            Some(p) => Ok(p.clone()),
        }
    }

    /// The open project's snapshot with the token of its current state.
    pub fn snapshot_with_token(&self) -> (result: Result<(&S, ProjectToken), AppError>)
        ensures
            match self.open_project() {
                None => result is Err && is_no_project_error(result->Err_0),
                Some(p) => result is Ok && *result->Ok_0.0 == p.1 && Some(result->Ok_0.1) == self.current_token(),
            },
    {
        match &self.project {
            None => Err(no_project_error()),
            Some(p) => Ok((&p.1, ProjectToken { project_id: p.0, revision: self.revision })),
        }
    }

    /// The token of the current project state.
    pub fn project_token(&self) -> (result: Result<ProjectToken, AppError>)
        ensures
            match self.current_token() {
                None => result is Err && is_no_project_error(result->Err_0),
                Some(t) => result == Ok::<ProjectToken, AppError>(t),
            },
    {
        match &self.project {
            None => Err(no_project_error()),
            Some(p) => Ok(ProjectToken { project_id: p.0, revision: self.revision }),
        }
    }

    /// Opens (or re-opens) a project: all write plans are dropped and the revision advances.
    pub fn replace_project(&mut self, path: String, project_id: u128, snapshot: S, dirty: bool)
        ensures
            final(self).open_project() == Some((project_id, snapshot)),
            final(self).path() == Some(path),
            final(self).plans().len() == 0,
            final(self).is_dirty_spec() == dirty,
            final(self).revision_spec() == next_revision(old(self).revision_spec()),
            final(self).resources() == old(self).resources(),
    {
        self.project = Some((project_id, snapshot));
        self.project_path = Some(path);
        self.write_plans = Vec::new();
        self.dirty = dirty;
        self.revision = self.revision.wrapping_add(1);
    }

    /// Whether `token` still describes the current project state.
    fn is_current(&self, token: ProjectToken) -> (current: Result<(), AppError>)
        ensures
            match self.open_project() {
                None => current is Err && is_no_project_error(current->Err_0),
                Some(_) => if self.current_token() == Some(token) {
                    current is Ok
                } else {
                    current is Err && is_stale_error(current->Err_0)
                },
            },
    {
        match &self.project {
            None => Err(no_project_error()),
            Some(p) => {
                if p.0 != token.project_id || self.revision != token.revision {
                    Err(stale_project_error())
                } else {
                    Ok(())
                }
            },
        }
    }

    /// Installs a changed snapshot if nothing changed since `token` was taken; the project
    /// becomes dirty, write plans are dropped and the revision advances. Otherwise nothing
    /// changes.
    pub fn mutate_project_if_current(&mut self, token: ProjectToken, project_id: u128, updated: S) -> (result: Result<(), AppError>)
        ensures
            match old(self).open_project() {
                None => result is Err && is_no_project_error(result->Err_0),
                Some(_) => if old(self).current_token() == Some(token) {
                    result is Ok
                } else {
                    result is Err && is_stale_error(result->Err_0)
                },
            },
            result is Ok ==> {
                &&& final(self).open_project() == Some((project_id, updated))
                &&& final(self).path() == old(self).path()
                &&& final(self).plans().len() == 0
                &&& final(self).is_dirty_spec()
                &&& final(self).revision_spec() == next_revision(old(self).revision_spec())
                &&& final(self).resources() == old(self).resources()
            },
            result is Err ==> *final(self) == *old(self),
    {
        match self.is_current(token) {
            Err(e) => Err(e),
            Ok(()) => {
                self.project = Some((project_id, updated));
                self.write_plans = Vec::new();
                self.dirty = true;
                self.revision = self.revision.wrapping_add(1);
                Ok(())
            },
        }
    }

    /// Records a save: if nothing changed since `token`, installs the saved snapshot and file
    /// path; the project is clean, write plans are dropped and the revision advances.
    pub fn commit_saved_if_current(&mut self, token: ProjectToken, path: String, project_id: u128, snapshot: S) -> (result: Result<(), AppError>)
        ensures
            match old(self).open_project() {
                None => result is Err && is_no_project_error(result->Err_0),
                Some(_) => if old(self).current_token() == Some(token) {
                    result is Ok
                } else {
                    result is Err && is_stale_error(result->Err_0)
                },
            },
            result is Ok ==> {
                &&& final(self).open_project() == Some((project_id, snapshot))
                &&& final(self).path() == Some(path)
                &&& final(self).plans().len() == 0
                &&& !final(self).is_dirty_spec()
                &&& final(self).revision_spec() == next_revision(old(self).revision_spec())
                &&& final(self).resources() == old(self).resources()
            },
            result is Err ==> *final(self) == *old(self),
    {
        match self.is_current(token) {
            Err(e) => Err(e),
            Ok(()) => {
                self.project = Some((project_id, snapshot));
                self.project_path = Some(path);
                self.write_plans = Vec::new();
                self.dirty = false;
                self.revision = self.revision.wrapping_add(1);
                Ok(())
            },
        }
    }

    /// Whether the open project has unsaved changes.
    pub fn is_dirty(&self) -> (dirty: bool)
        ensures
            dirty == self.is_dirty_spec(),
    {
        self.dirty
    }

    /// Keeps a write plan for the current project state (replacing a plan with the same id),
    /// if nothing changed since `token`.
    pub fn insert_write_plan_if_current(&mut self, token: ProjectToken, plan_id: u128, plan: P) -> (result: Result<(), AppError>)
        ensures
            match old(self).open_project() {
                None => result is Err && is_no_project_error(result->Err_0),
                Some(_) => if old(self).current_token() == Some(token) {
                    result is Ok
                } else {
                    result is Err && is_stale_error(result->Err_0)
                },
            },
            result is Ok ==> {
                &&& final(self).open_project() == old(self).open_project()
                &&& final(self).path() == old(self).path()
                &&& final(self).is_dirty_spec() == old(self).is_dirty_spec()
                &&& final(self).revision_spec() == old(self).revision_spec()
                &&& final(self).resources() == old(self).resources()
                &&& plan_lookup(final(self).plans(), plan_id) == Some(StoredWritePlan { plan_id, project_id: token.project_id, plan })
                &&& forall|other: u128| other != plan_id ==> #[trigger] plan_lookup(final(self).plans(), other) == plan_lookup(old(self).plans(), other)
            },
            result is Err ==> *final(self) == *old(self),
    {
        match self.is_current(token) {
            Err(e) => Err(e),
            Ok(()) => {
                let i = find_plan(&self.write_plans, plan_id);
                let ghost before = self.write_plans@;
                let stored = StoredWritePlan { plan_id, project_id: token.project_id, plan };
                if i < self.write_plans.len() {
                    self.write_plans.set(i, stored);
                    proof { lemma_lookup_after_set(before, i as int, self.write_plans@, plan_id); }
                } else {
                    proof { lemma_lookup_after_push(before, stored, plan_id); }
                    self.write_plans.push(stored);
                }
                Ok(())
            },
        }
    }

    /// A kept write plan of the open project, with the token of the current state.
    pub fn write_plan_with_token(&self, plan_id: u128) -> (result: Result<(&P, ProjectToken), AppError>)
        ensures
            match self.open_project() {
                None => result is Err && is_no_project_error(result->Err_0),
                Some(p) => match plan_lookup(self.plans(), plan_id) {
                    Some(stored) => if stored.project_id == p.0 {
                        result is Ok && *result->Ok_0.0 == stored.plan && Some(result->Ok_0.1) == self.current_token()
                    } else {
                        result is Err && is_invalid_error(result->Err_0, "写入计划不存在或已失效。"@)
                    },
                    None => result is Err && is_invalid_error(result->Err_0, "写入计划不存在或已失效。"@),
                },
            },
    {
        let project_id = match &self.project {
            None => return Err(no_project_error()),
            Some(p) => p.0,
        };
        let token = ProjectToken { project_id, revision: self.revision };
        let i = find_plan(&self.write_plans, plan_id);
        if i < self.write_plans.len() {
            proof { lemma_lookup_first(self.write_plans@, i as int, plan_id); }
            if self.write_plans[i].project_id == project_id {
                Ok((&self.write_plans[i].plan, token))
            } else {
                Err(AppError::invalid("写入计划不存在或已失效。".to_owned()))
            }
        } else {
            proof { lemma_lookup_absent(self.write_plans@, plan_id); }
            Err(AppError::invalid("写入计划不存在或已失效。".to_owned()))
        }
    }
}

/// The position of the first kept plan with this id, or the number of plans if none has it.
fn find_plan<P>(plans: &Vec<StoredWritePlan<P>>, plan_id: u128) -> (i: usize)
    ensures
        i <= plans.len(),
        forall|j: int| 0 <= j < i ==> plans@[j].plan_id != plan_id,
        i < plans.len() ==> plans@[i as int].plan_id == plan_id,
{
    let mut i: usize = 0;
    while i < plans.len()
        invariant
            i <= plans.len(),
            forall|j: int| 0 <= j < i ==> plans@[j].plan_id != plan_id,
        decreases plans.len() - i,
    {
        if plans[i].plan_id == plan_id {
            return i;
        }
        i = i + 1;
    }
    i
}

/// Once a change of the project state has been accepted, a token taken before it no longer
/// describes the current state: every later change or plan submitted with it is refused.
pub proof fn law_accepted_change_retires_token<S, P>(before: AppState<S, P>, after: AppState<S, P>, token: ProjectToken)
    requires
        before.current_token() == Some(token),
        after.revision_spec() == next_revision(before.revision_spec()),
    ensures
        after.current_token() != Some(token),
{
}

/// A change of the project state leaves no write plan that could still be executed.
pub proof fn law_change_drops_write_plans<S, P>(after: AppState<S, P>, plan_id: u128)
    requires
        after.plans().len() == 0,
    ensures
        plan_lookup(after.plans(), plan_id) is None,
{
}

/// The first kept plan with this id.
pub open spec fn plan_lookup<P>(plans: Seq<StoredWritePlan<P>>, plan_id: u128) -> Option<StoredWritePlan<P>>
    decreases plans.len(),
{
    if plans.len() == 0 {
        None
    } else if plans[0].plan_id == plan_id {
        Some(plans[0])
    } else {
        plan_lookup(plans.drop_first(), plan_id)
    }
}

proof fn lemma_lookup_first<P>(plans: Seq<StoredWritePlan<P>>, i: int, plan_id: u128)
    requires
        0 <= i < plans.len(),
        plans[i].plan_id == plan_id,
        forall|j: int| 0 <= j < i ==> plans[j].plan_id != plan_id,
    ensures
        plan_lookup(plans, plan_id) == Some(plans[i]),
    decreases i,
{
    if i > 0 {
        lemma_lookup_first(plans.drop_first(), i - 1, plan_id);
    }
}

proof fn lemma_lookup_absent<P>(plans: Seq<StoredWritePlan<P>>, plan_id: u128)
    requires
        forall|j: int| 0 <= j < plans.len() ==> plans[j].plan_id != plan_id,
    ensures
        plan_lookup(plans, plan_id) is None,
    decreases plans.len(),
{
    if plans.len() > 0 {
        lemma_lookup_absent(plans.drop_first(), plan_id);
    }
}

proof fn lemma_lookup_after_set<P>(before: Seq<StoredWritePlan<P>>, i: int, after: Seq<StoredWritePlan<P>>, plan_id: u128)
    requires
        0 <= i < before.len(),
        after.len() == before.len(),
        forall|j: int| 0 <= j < before.len() && j != i ==> after[j] == before[j],
        after[i].plan_id == plan_id,
        before[i].plan_id == plan_id,
        forall|j: int| 0 <= j < i ==> before[j].plan_id != plan_id,
    ensures
        plan_lookup(after, plan_id) == Some(after[i]),
        forall|other: u128| other != plan_id ==> #[trigger] plan_lookup(after, other) == plan_lookup(before, other),
    decreases i,
{
    if i == 0 {
        assert(after.drop_first() =~= before.drop_first());
        assert forall|other: u128| other != plan_id implies #[trigger] plan_lookup(after, other) == plan_lookup(before, other) by {
            assert(after.drop_first() =~= before.drop_first());
        }
    } else {
        lemma_lookup_after_set(before.drop_first(), i - 1, after.drop_first(), plan_id);
        assert(after[0] == before[0]);
        assert forall|other: u128| other != plan_id implies #[trigger] plan_lookup(after, other) == plan_lookup(before, other) by {
            if before[0].plan_id != other {
                assert(plan_lookup(after.drop_first(), other) == plan_lookup(before.drop_first(), other));
            }
        }
    }
}

proof fn lemma_lookup_after_push<P>(before: Seq<StoredWritePlan<P>>, x: StoredWritePlan<P>, plan_id: u128)
    requires
        x.plan_id == plan_id,
        forall|j: int| 0 <= j < before.len() ==> before[j].plan_id != plan_id,
    ensures
        plan_lookup(before.push(x), plan_id) == Some(x),
        forall|other: u128| other != plan_id ==> #[trigger] plan_lookup(before.push(x), other) == plan_lookup(before, other),
    decreases before.len(),
{
    let after = before.push(x);
    if before.len() == 0 {
        assert(after.drop_first() =~= Seq::<StoredWritePlan<P>>::empty());
        assert forall|other: u128| other != plan_id implies #[trigger] plan_lookup(after, other) == plan_lookup(before, other) by {
            assert(after.drop_first() =~= Seq::<StoredWritePlan<P>>::empty());
            assert(plan_lookup(after.drop_first(), other) is None);
        }
    } else {
        assert(after.drop_first() =~= before.drop_first().push(x));
        lemma_lookup_after_push(before.drop_first(), x, plan_id);
        assert(after[0] == before[0]);
        assert forall|other: u128| other != plan_id implies #[trigger] plan_lookup(after, other) == plan_lookup(before, other) by {
            assert(after.drop_first() =~= before.drop_first().push(x));
            if before[0].plan_id != other {
                assert(plan_lookup(before.drop_first().push(x), other) == plan_lookup(before.drop_first(), other));
            }
        }
    }
}

} // verus!
