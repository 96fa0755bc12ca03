//! The saved project list: its data, how a project is added or replaced,
//! and the texts of its load and save failures. Reading and writing the
//! file is the caller's.
use vstd::prelude::*;
use vstd::string::*;

use super::{Project, Task};
use crate::ids::{is_v4_uuid_text, new_uuid};
use crate::text::{decimal, decimal_string};

verus! {

/// The format version written into the projects file.
pub const CURRENT_VERSION: u32 = 1;

/// Declares `std::path::PathBuf`, which locates the projects file.
#[verifier::external_type_specification]
#[verifier::external_body]
pub struct ExPathBuf(std::path::PathBuf);

/// The saved projects.
#[derive(Clone, Debug, PartialEq, Eq)]
pub struct ProjectStoreData {
    pub version: u32,
    pub projects: Vec<Project>,
}

impl Default for ProjectStoreData {
    /// No projects, at the current version.
    fn default() -> (d: Self)
        ensures
            d.version == CURRENT_VERSION,
            d.projects@.len() == 0,
    {
        ProjectStoreData { version: CURRENT_VERSION, projects: Vec::new() }
    }
}

/// What loading the projects file gave: the data, and a notice for the
/// user when the file was unreadable and set aside.
#[derive(Debug)]
pub struct LoadOutcome {
    pub data: ProjectStoreData,
    pub notice: Option<String>,
}

/// Why saving the projects file failed.
#[derive(Debug)]
pub enum StoreError {
    Write(String),
    Serialize(String),
}

impl StoreError {
    /// The message of this error.
    pub open spec fn message_text(self) -> Seq<char> {
        match self {
            StoreError::Write(e) => "failed to write projects file: "@ + e@,
            StoreError::Serialize(e) => "failed to serialize projects: "@ + e@,
        }
    }

    /// The error's message.
    pub fn message(&self) -> (m: String)
        ensures
            m@ == self.message_text(),
    {
        match self {
            StoreError::Write(e) => String::from_str("failed to write projects file: ").concat(e.as_str()),
            StoreError::Serialize(e) => String::from_str("failed to serialize projects: ").concat(e.as_str()),
        }
    }
}

/// Where the projects are saved.
pub struct ProjectStore {
    path: std::path::PathBuf,
}

impl ProjectStore {
    /// A store at `path`.
    pub fn new(path: std::path::PathBuf) -> (s: Self)
        ensures
            s.path() == path,
    {
        ProjectStore { path }
    }

    /// The path of the projects file.
    pub closed spec fn path(&self) -> std::path::PathBuf {
        self.path
    }

    /// The path of the projects file.
    pub fn file_path(&self) -> (p: &std::path::PathBuf)
        ensures
            *p == self.path(),
    {
        &self.path
    }
}

/// The name a corrupt projects file is set aside under: its own name (or
/// `projects.json` when it has none), `.corrupt-` and the time stamp.
pub open spec fn backup_name(file_name: Option<Seq<char>>, stamp: u64) -> Seq<char> {
    let base = match file_name {
        Some(n) => n,
        None => "projects.json"@,
    };
    base + ".corrupt-"@ + decimal(stamp as nat)
}

/// The name a corrupt projects file is set aside under.
pub fn corrupt_backup_name(file_name: Option<&str>, stamp: u64) -> (r: String)
    ensures
        r@ == backup_name(
            match file_name {
                Some(n) => Some(n@),
                None => None,
            },
            stamp,
        ),
{
    let base = match file_name {
        Some(n) => String::from_str(n),
        None => String::from_str("projects.json"),
    };
    let stamp_text = decimal_string(stamp);
    base.concat(".corrupt-").concat(stamp_text.as_str())
}

/// The notice shown when the projects file was unreadable and set aside.
pub fn corrupt_notice(backup: &str) -> (r: String)
    ensures
        r@ == "Couldn't read saved projects; backed up to "@ + backup@,
{
    String::from_str("Couldn't read saved projects; backed up to ").concat(backup)
}

/// What reading the projects file found.
pub enum StoredProjects {
    /// The file could not be read, as when there is none yet.
    Missing,
    /// The file held projects data.
    Parsed(ProjectStoreData),
    /// The file did not hold projects data and was set aside at this path.
    SetAside(String),
}

/// What a load gives for what the file held: the data it held, or no
/// projects at the current version; a notice only when the file was set
/// aside.
pub fn load_outcome(found: StoredProjects) -> (r: LoadOutcome)
    ensures
        match found {
            StoredProjects::Missing => {
                &&& r.data.version == CURRENT_VERSION
                &&& r.data.projects@.len() == 0
                &&& r.notice is None
            },
            StoredProjects::Parsed(d) => r.data == d && r.notice is None,
            StoredProjects::SetAside(backup) => {
                &&& r.data.version == CURRENT_VERSION
                &&& r.data.projects@.len() == 0
                &&& r.notice matches Some(n) && n@ == "Couldn't read saved projects; backed up to "@ + backup@
            },
        },
{
    match found {
        StoredProjects::Missing => LoadOutcome { data: ProjectStoreData::default(), notice: None },
        StoredProjects::Parsed(data) => LoadOutcome { data, notice: None },
        StoredProjects::SetAside(backup) => LoadOutcome {
            data: ProjectStoreData::default(),
            notice: Some(corrupt_notice(backup.as_str())),
        },
    }
}

/// The first project with this id.
pub open spec fn project_index(ps: Seq<Project>, id: Seq<char>) -> Option<int> {
    if exists|i: int| 0 <= i < ps.len() && (#[trigger] ps[i]).id@ == id {
        Some(
            choose|i: int|
                0 <= i < ps.len() && (#[trigger] ps[i]).id@ == id && forall|j: int|
                    0 <= j < i ==> (#[trigger] ps[j]).id@ != id,
        )
    } else {
        None
    }
}

/// `q` is project `p` saved under canonical folder `canonical`.
pub open spec fn saved_as(q: Project, p: Project, canonical: Seq<char>) -> bool {
    &&& q.id@ == canonical
    &&& q.folder@ == canonical
    &&& q.name == p.name
    &&& q.tasks == p.tasks
}

/// `after` is `before` with `p` saved under `canonical`: it replaces the
/// first project with that id, or is appended when there is none.
pub open spec fn upserted(before: Seq<Project>, after: Seq<Project>, p: Project, canonical: Seq<char>) -> bool {
    match project_index(before, canonical) {
        Some(i) => {
            &&& after.len() == before.len()
            &&& saved_as(after[i], p, canonical)
            &&& forall|j: int| 0 <= j < before.len() && j != i ==> #[trigger] after[j] == before[j]
        },
        None => {
            &&& after.len() == before.len() + 1
            &&& after.drop_last() == before
            &&& saved_as(after.last(), p, canonical)
        },
    }
}

/// No two projects share an id.
pub open spec fn ids_unique(ps: Seq<Project>) -> bool {
    forall|i: int, j: int| 0 <= i < j < ps.len() ==> (#[trigger] ps[i]).id@ != (#[trigger] ps[j]).id@
}

fn find_project(ps: &Vec<Project>, id: &str) -> (r: Option<usize>)
    ensures
        match r {
            Some(i) => i < ps@.len() && project_index(ps@, id@) == Some(i as int),
            None => project_index(ps@, id@) is None,
        },
{
    let target = String::from_str(id);
    let mut i: usize = 0;
    while i < ps.len()
        invariant
            i <= ps@.len(),
            target@ == id@,
            forall|j: int| 0 <= j < i ==> (#[trigger] ps@[j]).id@ != id@,
        decreases ps@.len() - i,
    {
        if ps[i].id == target {
            proof {
                let w = i as int;
                let c = choose|c: int|
                    0 <= c < ps@.len() && (#[trigger] ps@[c]).id@ == id@ && forall|j: int|
                        0 <= j < c ==> (#[trigger] ps@[j]).id@ != id@;
                if c > w {
                    assert(ps@[w].id@ != id@);
                }
            }
            return Some(i);
        }
        i = i + 1;
    }
    None
}

/// Inserts or replaces a project, deduplicated by canonical folder: the
/// project's id and folder become `canonical` (the canonical form of its
/// folder), and it replaces the first project with that id or is appended.
pub fn upsert(data: &mut ProjectStoreData, project: Project, canonical: String)
    ensures
        final(data).version == old(data).version,
        upserted(old(data).projects@, final(data).projects@, project, canonical@),
{
    let mut project = project;
    project.id = canonical.clone();
    project.folder = canonical;
    match find_project(&data.projects, project.id.as_str()) {
        Some(i) => {
            data.projects.set(i, project);
        },
        None => {
            let ghost before = data.projects@;
            data.projects.push(project);
            assert(data.projects@.drop_last() =~= before);
        },
    }
}

/// Removes every project with this id.
pub fn remove_project(data: &mut ProjectStoreData, id: &str)
    ensures
        final(data).version == old(data).version,
        final(data).projects@ == old(data).projects@.filter(|p: Project| p.id@ != id@),
{
    let ghost ps = data.projects@;
    let mut kept: Vec<Project> = Vec::new();
    let mut old_projects: Vec<Project> = Vec::new();
    std::mem::swap(&mut old_projects, &mut data.projects);
    let target = String::from_str(id);
    let n = old_projects.len();
    let mut i: usize = 0;
    while i < n
        invariant
            n == ps.len(),
            old_projects@.len() == n,
            i <= n,
            target@ == id@,
            forall|j: int| i <= j < n ==> #[trigger] old_projects@[j] == ps[j],
            kept@ == ps.take(i as int).filter(|p: Project| p.id@ != id@),
        decreases n - i,
    {
        let mut p = Project { id: String::new(), name: String::new(), folder: String::new(), tasks: Vec::new() };
        old_projects.set_and_swap(i, &mut p);
        proof {
            assert(p == ps[i as int]);
            assert(ps.take(i + 1).drop_last() =~= ps.take(i as int));
            assert(ps.take(i + 1).last() == p);
        }
        let keep = p.id != target;
        proof {
            let pred = |q: Project| q.id@ != id@;
            assert(ps.take(i + 1) =~= ps.take(i as int).push(p));
            ps.take(i as int).lemma_filter_push(p, pred);
            assert(ps.take(i + 1).filter(pred) == (if pred(p) {
                ps.take(i as int).filter(pred).push(p)
            } else {
                ps.take(i as int).filter(pred)
            }));
        }
        if keep {
            kept.push(p);
        }
        i = i + 1;
    }
    assert(ps.take(n as int) =~= ps);
    data.projects = kept;
}

/// The last component of a path, as `std::path::Path::file_name` finds
/// it (none for a path ending in `..` or for the root).
pub uninterp spec fn path_file_name(path: Seq<char>) -> Option<Seq<char>>;

/// `Path::new(path).file_name()`, as text. The name of the result is
/// `path_file_name`; what the standard library computes (trailing slashes
/// and `.` components are skipped) is not restated here.
#[verifier::external_body]
fn file_name_of(path: &str) -> (r: Option<String>)
    ensures
        match r {
            Some(n) => path_file_name(path@) == Some(n@),
            None => path_file_name(path@) is None,
        },
{
    std::path::Path::new(path).file_name().and_then(|n| n.to_str()).map(|n| n.to_string())
}

/// The name a new project gets: the folder's last component, or the
/// whole folder when that is missing or empty.
pub open spec fn folder_name(folder: Seq<char>, file_name: Option<Seq<char>>) -> Seq<char> {
    match file_name {
        Some(n) => if n.len() > 0 {
            n
        } else {
            folder
        },
        None => folder,
    }
}

/// The name a new project gets, from the folder's last component as the
/// path library found it.
pub fn project_name_from_file_name(folder: &str, file_name: Option<String>) -> (r: String)
    ensures
        r@ == folder_name(
            folder@,
            match file_name {
                Some(n) => Some(n@),
                None => None,
            },
        ),
{
    match file_name {
        Some(n) => if n.as_str().unicode_len() > 0 {
            n
        } else {
            String::from_str(folder)
        },
        None => String::from_str(folder),
    }
}

/// The name a new project gets for a folder.
pub fn project_name_from_folder(folder: &str) -> (r: String)
    ensures
        r@ == folder_name(folder@, path_file_name(folder@)),
{
    let file_name = file_name_of(folder);
    project_name_from_file_name(folder, file_name)
}

/// `t` is a new task for `command`: a fresh random id, named after the
/// command.
pub open spec fn new_task_for(t: Task, command: Seq<char>) -> bool {
    &&& is_v4_uuid_text(t.id@)
    &&& t.name@ == command
    &&& t.command@ == command
}

/// Adds a task running `command` to the project of folder `canonical`
/// (the canonical form of the folder), creating the project, named after
/// the folder, when there is none.
pub fn append_task_to_folder(data: &mut ProjectStoreData, canonical: &str, command: String)
    ensures
        final(data).version == old(data).version,
        exists|t: Task|
            {
                &&& #[trigger] new_task_for(t, command@)
                &&& match project_index(old(data).projects@, canonical@) {
                    Some(i) => {
                        &&& final(data).projects@.len() == old(data).projects@.len()
                        &&& final(data).projects@[i].id == old(data).projects@[i].id
                        &&& final(data).projects@[i].name == old(data).projects@[i].name
                        &&& final(data).projects@[i].folder == old(data).projects@[i].folder
                        &&& final(data).projects@[i].tasks@ == old(data).projects@[i].tasks@.push(t)
                        &&& forall|j: int|
                            0 <= j < old(data).projects@.len() && j != i ==> #[trigger] final(data).projects@[j]
                                == old(data).projects@[j]
                    },
                    None => {
                        let q = final(data).projects@.last();
                        &&& final(data).projects@.len() == old(data).projects@.len() + 1
                        &&& final(data).projects@.drop_last() == old(data).projects@
                        &&& q.id@ == canonical@
                        &&& q.folder@ == canonical@
                        &&& q.name@ == folder_name(canonical@, path_file_name(canonical@))
                        &&& q.tasks@ == seq![t]
                    },
                }
            },
{
    let id = new_uuid();
    let name = command.clone();
    let task = Task { id, name, command };
    let ghost t = task;
    match find_project(&data.projects, canonical) {
        Some(i) => {
            let mut existing = Project { id: String::new(), name: String::new(), folder: String::new(), tasks: Vec::new() };
            data.projects.set_and_swap(i, &mut existing);
            existing.tasks.push(task);
            data.projects.set(i, existing);
        },
        None => {
            let ghost before = data.projects@;
            let name = project_name_from_folder(canonical);
            let mut tasks: Vec<Task> = Vec::new();
            tasks.push(task);
            data.projects.push(
                Project { id: String::from_str(canonical), name, folder: String::from_str(canonical), tasks },
            );
            assert(data.projects@.drop_last() =~= before);
        },
    }
    assert(new_task_for(t, command@));
}

/// The first task with this id.
pub open spec fn task_index(ts: Seq<Task>, id: Seq<char>) -> Option<int> {
    if exists|i: int| 0 <= i < ts.len() && (#[trigger] ts[i]).id@ == id {
        Some(
            choose|i: int|
                0 <= i < ts.len() && (#[trigger] ts[i]).id@ == id && forall|j: int|
                    0 <= j < i ==> (#[trigger] ts[j]).id@ != id,
        )
    } else {
        None
    }
}

fn find_task(ts: &Vec<Task>, id: &str) -> (r: Option<usize>)
    ensures
        match r {
            Some(i) => i < ts@.len() && task_index(ts@, id@) == Some(i as int),
            None => task_index(ts@, id@) is None,
        },
{
    let target = String::from_str(id);
    let mut i: usize = 0;
    while i < ts.len()
        invariant
            i <= ts@.len(),
            target@ == id@,
            forall|j: int| 0 <= j < i ==> (#[trigger] ts@[j]).id@ != id@,
        decreases ts@.len() - i,
    {
        if ts[i].id == target {
            proof {
                let w = i as int;
                let c = choose|c: int|
                    0 <= c < ts@.len() && (#[trigger] ts@[c]).id@ == id@ && forall|j: int|
                        0 <= j < c ==> (#[trigger] ts@[j]).id@ != id@;
                if c > w {
                    assert(ts@[w].id@ != id@);
                }
            }
            return Some(i);
        }
        i = i + 1;
    }
    None
}

/// Where and what to run for a saved task: the project's folder and the
/// task's command, or the reason it cannot be started.
pub fn task_launch(data: &ProjectStoreData, project_id: &str, task_id: &str) -> (r: Result<(String, String), String>)
    ensures
        match project_index(data.projects@, project_id@) {
            None => r is Err && r->Err_0@ == "project not found"@,
            Some(i) => match task_index(data.projects@[i].tasks@, task_id@) {
                None => r is Err && r->Err_0@ == "task not found"@,
                Some(k) => r is Ok && r->Ok_0.0@ == data.projects@[i].folder@ && r->Ok_0.1@
                    == data.projects@[i].tasks@[k].command@,
            },
        },
{
    match find_project(&data.projects, project_id) {
        None => Err(String::from_str("project not found")),
        Some(i) => {
            let project = &data.projects[i];
            match find_task(&project.tasks, task_id) {
                None => Err(String::from_str("task not found")),
                Some(k) => Ok((project.folder.clone(), project.tasks[k].command.clone())),
            }
        },
    }
}

proof fn lemma_first_project(ps: Seq<Project>, id: Seq<char>, k: int)
    requires
        0 <= k < ps.len(),
        ps[k].id@ == id,
    ensures
        exists|m: int|
            0 <= m < ps.len() && (#[trigger] ps[m]).id@ == id && forall|j: int| 0 <= j < m ==> (#[trigger] ps[j]).id@ != id,
    decreases k,
{
    if exists|j: int| 0 <= j < k && (#[trigger] ps[j]).id@ == id {
        let j = choose|j: int| 0 <= j < k && (#[trigger] ps[j]).id@ == id;
        lemma_first_project(ps, id, j);
    } else {
        assert(forall|j: int| 0 <= j < k ==> (#[trigger] ps[j]).id@ != id);
    }
}

proof fn lemma_project_index_range(ps: Seq<Project>, id: Seq<char>)
    ensures
        project_index(ps, id) matches Some(i) ==> 0 <= i < ps.len() && ps[i].id@ == id,
{
    if exists|i: int| 0 <= i < ps.len() && (#[trigger] ps[i]).id@ == id {
        let k = choose|i: int| 0 <= i < ps.len() && (#[trigger] ps[i]).id@ == id;
        lemma_first_project(ps, id, k);
    }
}

proof fn lemma_project_index_found(ps: Seq<Project>, id: Seq<char>, k: int)
    requires
        0 <= k < ps.len(),
        ps[k].id@ == id,
    ensures
        project_index(ps, id) is Some,
{
}

/// Law: saving projects keeps their ids unique, and the saved project is
/// then the one project with its folder's id.
pub proof fn law_upsert_keeps_ids_unique(before: Seq<Project>, after: Seq<Project>, p: Project, canonical: Seq<char>)
    requires
        ids_unique(before),
        upserted(before, after, p, canonical),
    ensures
        ids_unique(after),
        exists|k: int| 0 <= k < after.len() && #[trigger] after[k].id@ == canonical,
        forall|k: int, m: int|
            0 <= k < after.len() && 0 <= m < after.len() && #[trigger] after[k].id@ == canonical && #[trigger] after[m].id@
                == canonical ==> k == m,
{
    match project_index(before, canonical) {
        Some(i) => {
            assert(after[i].id@ == canonical);
            assert forall|a: int, b: int| 0 <= a < b < after.len() implies (#[trigger] after[a]).id@ != (
            #[trigger] after[b]).id@ by {
                if a != i && b != i {
                    assert(after[a] == before[a] && after[b] == before[b]);
                } else if a == i {
                    assert(after[b] == before[b]);
                    assert(before[i].id@ == canonical);
                } else {
                    assert(after[a] == before[a]);
                    assert(before[i].id@ == canonical);
                }
            }
        },
        None => {
            let n = before.len() as int;
            assert(after[n].id@ == canonical);
            assert forall|a: int, b: int| 0 <= a < b < after.len() implies (#[trigger] after[a]).id@ != (
            #[trigger] after[b]).id@ by {
                assert(after[a] == before[a]);
                if b < n {
                    assert(after[b] == before[b]);
                } else {
                    assert(!(0 <= a < before.len() && before[a].id@ == canonical));
                }
            }
        },
    }
}

proof fn lemma_upsert_shape(before: Seq<Project>, after: Seq<Project>, p: Project, canonical: Seq<char>)
    requires
        upserted(before, after, p, canonical),
    ensures
        after.len() == before.len() + (if project_index(before, canonical) is Some {
            0int
        } else {
            1int
        }),
        project_index(after, canonical) is Some,
{
    lemma_project_index_range(before, canonical);
    match project_index(before, canonical) {
        Some(i) => {
            lemma_project_index_found(after, canonical, i);
        },
        None => {
            lemma_project_index_found(after, canonical, before.len() as int);
        },
    }
}

/// Law: saving the same project twice leaves the list as long as saving it
/// once (the second save replaces the first).
pub proof fn law_upsert_twice_dedupes(
    d0: Seq<Project>,
    d1: Seq<Project>,
    d2: Seq<Project>,
    p: Project,
    canonical: Seq<char>,
)
    requires
        upserted(d0, d1, p, canonical),
        upserted(d1, d2, p, canonical),
    ensures
        d2.len() == d1.len(),
        d1.len() <= d0.len() + 1,
{
    lemma_upsert_shape(d0, d1, p, canonical);
    lemma_upsert_shape(d1, d2, p, canonical);
}

} // verus!
