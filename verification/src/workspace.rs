use vstd::prelude::*;

use vstd::multiset::Multiset;

use crate::error::StoreError;
use crate::record::Project;

verus! {

broadcast use vstd::seq_lib::group_to_multiset_ensures;

// ---------------------------------------------------------------------------
// Workspace paths and bootstrap, and the flat-project operations kept beside
// the vertex tree.
// ---------------------------------------------------------------------------

/// An absolute path: the store's only accepted form of workspace root.
pub open spec fn is_absolute_path(s: Seq<char>) -> bool {
    s.len() > 0 && s[0] == '/'
}

/// Validates a workspace root path: it must be absolute. Pure validation,
/// no filesystem effect.
pub fn ws_path(workspace: &str) -> (r: Result<String, StoreError>)
    ensures
        match r {
            Result::Ok(p) => p@ == workspace@ && is_absolute_path(workspace@),
            Result::Err(e) => e == StoreError::InvalidPath && !is_absolute_path(workspace@),
        },
{
    let n = workspace.unicode_len();
    if n == 0 {
        return Result::Err(StoreError::InvalidPath);
    }
    if workspace.get_char(0) != '/' {
        return Result::Err(StoreError::InvalidPath);
    }
    Result::Ok(String::from_str(workspace))
}

/// The directory of a flat project under a workspace root.
pub fn project_dir(root: &str, project_id: &str) -> (r: String)
    ensures
        r@ == root@ + "/projects/"@ + project_id@,
{
    let mut s = String::from_str(root);
    s.append("/projects/");
    s.append(project_id);
    assert(s@ =~= root@ + "/projects/"@ + project_id@);
    s
}

/// The registry file's location inside the application-data directory. The
/// host shell creates the directory if it is missing.
pub fn registry_path(app_data_dir: &str) -> (r: String)
    ensures
        r@ == app_data_dir@ + "/workspace_registry.json"@,
{
    let mut s = String::from_str(app_data_dir);
    s.append("/workspace_registry.json");
    assert(s@ =~= app_data_dir@ + "/workspace_registry.json"@);
    s
}

// ---------------------------------------------------------------------------
// Bootstrap: the on-disk skeleton a workspace needs before any operation.
// ---------------------------------------------------------------------------

/// The stamp file written once at the workspace root.
pub struct WorkspaceMeta {
    pub schema_version: u32,
    pub created_at: i64,
    pub name: String,
}

/// What the host shell must create to complete the skeleton: the three
/// standard subdirectories, and the stamp when it is missing.
pub struct BootstrapPlan {
    pub make_projects: bool,
    pub make_trash: bool,
    pub make_cache: bool,
    pub meta: Option<WorkspaceMeta>,
}

/// What a correct plan looks like for a present root whose skeleton state is
/// given: each missing piece is created, nothing else, and a fresh stamp
/// carries schema version 1 and the creation time.
pub open spec fn plan_ok(
    p: BootstrapPlan,
    has_projects: bool,
    has_trash: bool,
    has_cache: bool,
    has_meta: bool,
    now: i64,
) -> bool {
    &&& p.make_projects == !has_projects
    &&& p.make_trash == !has_trash
    &&& p.make_cache == !has_cache
    &&& match p.meta {
        Option::Some(m) => !has_meta && m.schema_version == 1 && m.created_at == now && m.name@
            == "Story Master Workspace"@,
        Option::None => has_meta,
    }
}

/// Computes the bootstrap plan for a workspace root. The root itself must
/// already exist; the flags say which skeleton pieces the host shell found.
pub fn ensure_workspace_structure(
    root_exists: bool,
    has_projects: bool,
    has_trash: bool,
    has_cache: bool,
    has_meta: bool,
    now: i64,
) -> (r: Result<BootstrapPlan, StoreError>)
    ensures
        match r {
            Result::Ok(p) => root_exists && plan_ok(p, has_projects, has_trash, has_cache, has_meta, now),
            Result::Err(e) => e == StoreError::NotFound && !root_exists,
        },
{
    if !root_exists {
        return Result::Err(StoreError::NotFound);
    }
    let meta = if has_meta {
        Option::None
    } else {
        Option::Some(
            WorkspaceMeta {
                schema_version: 1,
                created_at: now,
                name: String::from_str("Story Master Workspace"),
            },
        )
    };
    Result::Ok(
        BootstrapPlan {
            make_projects: !has_projects,
            make_trash: !has_trash,
            make_cache: !has_cache,
            meta,
        },
    )
}

/// Validates the root path and computes the bootstrap plan in one step, as
/// every operation entry does.
pub fn workspace_init_if_missing(
    workspace_path: &str,
    root_exists: bool,
    has_projects: bool,
    has_trash: bool,
    has_cache: bool,
    has_meta: bool,
    now: i64,
) -> (r: Result<BootstrapPlan, StoreError>)
    ensures
        match r {
            Result::Ok(p) => is_absolute_path(workspace_path@) && root_exists && plan_ok(
                p,
                has_projects,
                has_trash,
                has_cache,
                has_meta,
                now,
            ),
            Result::Err(e) => (e == StoreError::InvalidPath && !is_absolute_path(workspace_path@))
                || (e == StoreError::NotFound && is_absolute_path(workspace_path@)
                && !root_exists),
        },
{
    match ws_path(workspace_path) {
        Result::Ok(_) => ensure_workspace_structure(
            root_exists,
            has_projects,
            has_trash,
            has_cache,
            has_meta,
            now,
        ),
        Result::Err(e) => Result::Err(e),
    }
}

/// Bootstrapping is idempotent: once a plan's pieces are applied, the next
/// plan has nothing left to do, whatever the clock then says.
pub proof fn lemma_bootstrap_idempotent(
    p: BootstrapPlan,
    q: BootstrapPlan,
    has_projects: bool,
    has_trash: bool,
    has_cache: bool,
    has_meta: bool,
    now1: i64,
    now2: i64,
)
    requires
        plan_ok(p, has_projects, has_trash, has_cache, has_meta, now1),
        plan_ok(
            q,
            has_projects || p.make_projects,
            has_trash || p.make_trash,
            has_cache || p.make_cache,
            has_meta || p.meta is Some,
            now2,
        ),
    ensures
        !q.make_projects,
        !q.make_trash,
        !q.make_cache,
        q.meta is None,
{
}

// ---------------------------------------------------------------------------
// Flat projects: listing and creation.
// ---------------------------------------------------------------------------

/// The decoded project records among a directory's parse results, in
/// directory order: an unreadable `project.json` is skipped, not an error.
pub open spec fn present_projects(s: Seq<Option<Project>>) -> Seq<Project>
    decreases s,
{
    if s.len() == 0 {
        Seq::<Project>::empty()
    } else {
        let rest = present_projects(s.drop_first());
        match s[0] {
            Option::Some(p) => seq![p] + rest,
            Option::None => rest,
        }
    }
}

/// Newest first, by update time.
pub open spec fn sorted_desc(s: Seq<Project>) -> bool {
    forall|i: int, j: int|
        0 <= i < j < s.len() ==> (#[trigger] s[i]).updated_at >= (#[trigger] s[j]).updated_at
}

fn max_updated_index(v: &Vec<Project>) -> (r: usize)
    requires
        v@.len() > 0,
    ensures
        r < v@.len(),
        forall|k: int| 0 <= k < v@.len() ==> (#[trigger] v@[k]).updated_at <= v@[r as int].updated_at,
{
    let mut best: usize = 0;
    let mut i: usize = 1;
    while i < v.len()
        invariant
            0 <= best < i <= v@.len(),
            forall|k: int| 0 <= k < i ==> (#[trigger] v@[k]).updated_at <= v@[best as int].updated_at,
        decreases v@.len() - i,
    {
        if v[i].updated_at > v[best].updated_at {
            best = i;
        }
        i += 1;
    }
    best
}

/// The project listing: every readable record, sorted by update time,
/// newest first.
pub fn collect_projects(parsed: Vec<Option<Project>>) -> (r: Vec<Project>)
    ensures
        sorted_desc(r@),
        r@.to_multiset() == present_projects(parsed@).to_multiset(),
{
    let ghost orig = parsed@;
    let mut parsed = parsed;
    let mut pool: Vec<Project> = Vec::new();
    while parsed.len() > 0
        invariant
            pool@.to_multiset().add(present_projects(parsed@).to_multiset())
                =~= present_projects(orig).to_multiset(),
        decreases parsed@.len(),
    {
        let ghost prev_parsed = parsed@;
        let ghost prev_pool = pool@;
        let x = parsed.remove(0);
        proof {
            assert(parsed@ =~= prev_parsed.drop_first());
        }
        match x {
            Option::Some(p) => {
                pool.push(p);
                proof {
                    let rest = prev_parsed.drop_first();
                    assert(present_projects(prev_parsed) == seq![p] + present_projects(rest));
                    vstd::seq_lib::lemma_multiset_commutative(seq![p], present_projects(rest));
                    assert(seq![p].to_multiset() =~= Multiset::<Project>::empty().insert(p)) by {
                        assert(seq![p] =~= Seq::<Project>::empty().push(p));
                        assert(Seq::<Project>::empty().to_multiset().len() == 0);
                        assert(Seq::<Project>::empty().to_multiset() =~= Multiset::<
                            Project,
                        >::empty());
                    }
                    assert(pool@.to_multiset() =~= prev_pool.to_multiset().insert(p));
                    assert(pool@.to_multiset().add(present_projects(parsed@).to_multiset())
                        =~= prev_pool.to_multiset().add(
                        present_projects(prev_parsed).to_multiset(),
                    ));
                }
            },
            Option::None => {},
        }
    }
    proof {
        assert(parsed@.len() == 0);
        assert(present_projects(parsed@).to_multiset() =~= Multiset::<Project>::empty());
        assert(pool@.to_multiset() =~= present_projects(orig).to_multiset());
    }
    let mut out: Vec<Project> = Vec::new();
    while pool.len() > 0
        invariant
            sorted_desc(out@),
            forall|k: int|
                0 <= k < pool@.len() ==> out@.len() == 0 || (#[trigger] pool@[k]).updated_at
                    <= out@.last().updated_at,
            out@.to_multiset().add(pool@.to_multiset()) =~= present_projects(orig).to_multiset(),
        decreases pool@.len(),
    {
        let ghost prev_out = out@;
        let ghost prev_pool = pool@;
        let m = max_updated_index(&pool);
        let x = pool.remove(m);
        out.push(x);
        proof {
            assert(out@.to_multiset() =~= prev_out.to_multiset().insert(x));
            assert(pool@.to_multiset() =~= prev_pool.to_multiset().remove(x));
            assert(prev_pool.to_multiset().count(x) > 0) by {
                assert(prev_pool[m as int] == x);
                assert(prev_pool.contains(x));
            }
            assert(out@.to_multiset().add(pool@.to_multiset()) =~= prev_out.to_multiset().add(
                prev_pool.to_multiset(),
            ));
            assert(sorted_desc(out@)) by {
                assert(forall|k: int| 0 <= k < prev_out.len() ==> #[trigger] out@[k] == prev_out[k]);
                assert(out@.last() == x);
                if prev_out.len() > 0 {
                    assert(x.updated_at <= prev_out.last().updated_at);
                }
            }
            assert forall|k: int|
                0 <= k < pool@.len() implies out@.len() == 0 || (#[trigger] pool@[k]).updated_at
                <= out@.last().updated_at by {
                if k < m {
                    assert(pool@[k] == prev_pool[k]);
                } else {
                    assert(pool@[k] == prev_pool[k + 1]);
                }
            }
        }
    }
    proof {
        assert(pool@.to_multiset() =~= Multiset::<Project>::empty());
        assert(out@.to_multiset() =~= present_projects(orig).to_multiset());
    }
    out
}

// ---------------------------------------------------------------------------
// Project creation: the record, its directory, and the files to seed it.
// ---------------------------------------------------------------------------

/// The directories and seed files a new project needs on disk, beside its
/// `project.json` record.
pub struct ProjectScaffold {
    pub dir: String,
    pub dirs: Vec<String>,
    pub seed_files: Vec<(String, String)>,
}

/// Builds a fresh project record and its on-disk scaffold: a generated id
/// carrying the `proj_` prefix, creation and update stamped with the same
/// time, empty tags, active status; the `notes`, `assets` and `attachments`
/// directories; and the two seed notes.
pub fn project_create(workspace_path: &str, title: String) -> (r: Result<
    (Project, ProjectScaffold),
    StoreError,
>)
    ensures
        match r {
            Result::Ok((p, s)) => {
                &&& is_absolute_path(workspace_path@)
                &&& p.id@.len() == 37
                &&& p.id@.subrange(0, 5) == "proj_"@
                &&& p.title == title
                &&& p.created_at == p.updated_at
                &&& p.tags@.len() == 0
                &&& p.status@ == "active"@
                &&& s.dir@ == workspace_path@ + "/projects/"@ + p.id@
                &&& s.dirs@.len() == 3
                &&& s.dirs@[0]@ == s.dir@ + "/notes"@
                &&& s.dirs@[1]@ == s.dir@ + "/assets"@
                &&& s.dirs@[2]@ == s.dir@ + "/attachments"@
                &&& s.seed_files@.len() == 2
                &&& s.seed_files@[0].0@ == s.dir@ + "/notes/overview.md"@
                &&& s.seed_files@[0].1@ == "# Overview\n\n"@
                &&& s.seed_files@[1].0@ == s.dir@ + "/notes/ideas.md"@
                &&& s.seed_files@[1].1@ == "# Ideas\n\n"@
            },
            Result::Err(e) => e == StoreError::InvalidPath && !is_absolute_path(workspace_path@),
        },
{
    let root = match ws_path(workspace_path) {
        Result::Ok(p) => p,
        Result::Err(e) => {
            return Result::Err(e);
        },
    };
    let mut id = String::from_str("proj_");
    let suffix = crate::host::fresh_uuid_simple();
    id.append(suffix.as_str());
    proof {
        reveal_strlit("proj_");
        assert(id@.subrange(0, 5) =~= "proj_"@);
    }
    let now = crate::host::now_millis();
    let dir = project_dir(root.as_str(), id.as_str());
    let project = Project {
        id,
        title,
        created_at: now,
        updated_at: now,
        tags: Vec::new(),
        status: String::from_str("active"),
    };
    let mut dirs: Vec<String> = Vec::new();
    let mut d1 = dir.clone();
    d1.append("/notes");
    dirs.push(d1);
    let mut d2 = dir.clone();
    d2.append("/assets");
    dirs.push(d2);
    let mut d3 = dir.clone();
    d3.append("/attachments");
    dirs.push(d3);
    let mut seed_files: Vec<(String, String)> = Vec::new();
    let mut f1 = dir.clone();
    f1.append("/notes/overview.md");
    seed_files.push((f1, String::from_str("# Overview\n\n")));
    let mut f2 = dir.clone();
    f2.append("/notes/ideas.md");
    seed_files.push((f2, String::from_str("# Ideas\n\n")));
    let scaffold = ProjectScaffold { dir, dirs, seed_files };
    Result::Ok((project, scaffold))
}

// ---------------------------------------------------------------------------
// Notes: name validation and location.
// ---------------------------------------------------------------------------

/// A note name must be a bare file name: no path separators.
pub open spec fn valid_note_name(s: Seq<char>) -> bool {
    forall|k: int| 0 <= k < s.len() ==> s[k] != '/' && s[k] != '\\'
}

pub fn validate_note_name(name: &str) -> (r: bool)
    ensures
        r == valid_note_name(name@),
{
    let n = name.unicode_len();
    let mut i: usize = 0;
    while i < n
        invariant
            n == name@.len(),
            0 <= i <= n,
            forall|k: int| 0 <= k < i ==> name@[k] != '/' && name@[k] != '\\',
        decreases n - i,
    {
        let c = name.get_char(i);
        if c == '/' || c == '\\' {
            return false;
        }
        i += 1;
    }
    true
}

/// Where a note lives. Fails on a non-absolute workspace path and on a note
/// name that carries a path separator; the host shell reads or writes the
/// returned location.
pub fn note_path(workspace_path: &str, project_id: &str, note_name: &str) -> (r: Result<
    String,
    StoreError,
>)
    ensures
        match r {
            Result::Ok(p) => {
                &&& is_absolute_path(workspace_path@)
                &&& valid_note_name(note_name@)
                &&& p@ == workspace_path@ + "/projects/"@ + project_id@ + "/notes/"@ + note_name@
            },
            Result::Err(e) => (e == StoreError::InvalidPath && !is_absolute_path(workspace_path@))
                || (e == StoreError::InvalidNoteName && is_absolute_path(workspace_path@)
                && !valid_note_name(note_name@)),
        },
{
    let root = match ws_path(workspace_path) {
        Result::Ok(p) => p,
        Result::Err(e) => {
            return Result::Err(e);
        },
    };
    if !validate_note_name(note_name) {
        return Result::Err(StoreError::InvalidNoteName);
    }
    let mut p = project_dir(root.as_str(), project_id);
    p.append("/notes/");
    p.append(note_name);
    assert(p@ =~= workspace_path@ + "/projects/"@ + project_id@ + "/notes/"@ + note_name@);
    Result::Ok(p)
}

} // verus!
