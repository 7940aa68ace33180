use vstd::prelude::*;

use crate::error::StoreError;
use crate::record::{
    AssetSource, RefFile, Reference, VertexRecord, clone_opt_string, opt_layout_eqv, rec_eqv,
};
use crate::refs::{hydrate, hydrated, materialize, materialized};
use crate::text::str_eq;

verus! {

// ---------------------------------------------------------------------------
// The in-memory model of one workspace's vertex tree.
//
// A vertex directory holds its metadata record, its references directory
// (a flat file listing), and its `children` directory of nested vertex
// directories. The workspace root holds the root vertices side by side.
// ---------------------------------------------------------------------------

pub struct VertexNode {
    pub record: VertexRecord,
    pub ref_files: Vec<RefFile>,
    pub children: Vec<VertexNode>,
}

/// One workspace's tree, rooted at an absolute filesystem path.
pub struct WorkspaceTree {
    pub root_path: String,
    pub roots: Vec<VertexNode>,
}

// ---------------------------------------------------------------------------
// Containment and occurrence counts.
// ---------------------------------------------------------------------------

pub open spec fn node_contains(n: VertexNode, id: Seq<char>) -> bool
    decreases n,
{
    n.record.id@ == id || exists|i: int|
        0 <= i < n.children.len() && node_contains(#[trigger] n.children[i as int], id)
}

pub open spec fn forest_contains(ns: Seq<VertexNode>, id: Seq<char>) -> bool {
    exists|i: int| 0 <= i < ns.len() && node_contains(#[trigger] ns[i], id)
}

/// How many vertices of the subtree carry `id`. Duplicate ids are tolerated
/// by the store (first match wins), so this is a count, not a boolean.
pub open spec fn node_count(n: VertexNode, id: Seq<char>) -> nat
    decreases n,
{
    (if n.record.id@ == id {
        1nat
    } else {
        0nat
    }) + forest_count(n.children@, id)
}

pub open spec fn forest_count(ns: Seq<VertexNode>, id: Seq<char>) -> nat
    decreases ns,
{
    if ns.len() == 0 {
        0nat
    } else {
        node_count(ns[0], id) + forest_count(ns.drop_first(), id)
    }
}

// ---------------------------------------------------------------------------
// First-match depth-first search, the store's only lookup. A vertex is
// checked before its children; children in order; an id duplicated anywhere
// later in the walk is shadowed.
// ---------------------------------------------------------------------------

pub open spec fn node_find(n: VertexNode, id: Seq<char>) -> Option<VertexNode>
    decreases n,
{
    if n.record.id@ == id {
        Option::Some(n)
    } else {
        forest_find(n.children@, id)
    }
}

pub open spec fn forest_find(ns: Seq<VertexNode>, id: Seq<char>) -> Option<VertexNode>
    decreases ns,
{
    if ns.len() == 0 {
        Option::None
    } else {
        match node_find(ns[0], id) {
            Option::Some(x) => Option::Some(x),
            Option::None => forest_find(ns.drop_first(), id),
        }
    }
}

/// The same search, also resolving the found vertex's directory path.
/// A vertex's directory is `<dir>`; each child of it lives under
/// `<dir>/children/<child-id>`.
pub open spec fn node_find_path(n: VertexNode, id: Seq<char>, dir: Seq<char>) -> Option<
    (VertexNode, Seq<char>),
>
    decreases n,
{
    if n.record.id@ == id {
        Option::Some((n, dir))
    } else {
        forest_find_path(n.children@, id, dir + "/children/"@)
    }
}

/// `prefix` is what a member's id is appended to, to form its directory.
pub open spec fn forest_find_path(ns: Seq<VertexNode>, id: Seq<char>, prefix: Seq<char>) -> Option<
    (VertexNode, Seq<char>),
>
    decreases ns,
{
    if ns.len() == 0 {
        Option::None
    } else {
        match node_find_path(ns[0], id, prefix + ns[0].record.id@) {
            Option::Some(r) => Option::Some(r),
            Option::None => forest_find_path(ns.drop_first(), id, prefix),
        }
    }
}

/// The search of a whole workspace: root vertices sit directly under the
/// workspace root.
pub open spec fn tree_find_path(t: WorkspaceTree, id: Seq<char>) -> Option<
    (VertexNode, Seq<char>),
> {
    forest_find_path(t.roots@, id, t.root_path@ + "/"@)
}

// ---------------------------------------------------------------------------
// Executable search.
// ---------------------------------------------------------------------------

pub fn node_has(n: &VertexNode, id: &str) -> (r: bool)
    ensures
        r == node_contains(*n, id@),
    decreases *n,
{
    if str_eq(n.record.id.as_str(), id) {
        return true;
    }
    let mut i: usize = 0;
    while i < n.children.len()
        invariant
            0 <= i <= n.children.len(),
            forall|j: int| 0 <= j < i ==> !node_contains(#[trigger] n.children[j], id@),
            n.record.id@ != id@,
        decreases n.children.len() - i,
    {
        if node_has(&n.children[i], id) {
            return true;
        }
        i += 1;
    }
    false
}

pub fn forest_has(ns: &Vec<VertexNode>, id: &str) -> (r: bool)
    ensures
        r == forest_contains(ns@, id@),
{
    let mut i: usize = 0;
    while i < ns.len()
        invariant
            0 <= i <= ns@.len(),
            forall|j: int| 0 <= j < i ==> !node_contains(#[trigger] ns@[j], id@),
        decreases ns@.len() - i,
    {
        if node_has(&ns[i], id) {
            return true;
        }
        i += 1;
    }
    false
}

fn find_in_node<'a>(n: &'a VertexNode, id: &str) -> (r: Option<&'a VertexNode>)
    ensures
        match r {
            Option::Some(x) => node_find(*n, id@) == Option::Some(*x),
            Option::None => node_find(*n, id@) is None,
        },
    decreases *n,
{
    if str_eq(n.record.id.as_str(), id) {
        return Option::Some(n);
    }
    let mut i: usize = 0;
    proof {
        assert(n.children@.skip(0) =~= n.children@);
    }
    while i < n.children.len()
        invariant
            0 <= i <= n.children.len(),
            n.record.id@ != id@,
            node_find(*n, id@) == forest_find(n.children@.skip(i as int), id@),
        decreases n.children.len() - i,
    {
        proof {
            let s = n.children@.skip(i as int);
            assert(s[0] == n.children@[i as int]);
            assert(s.drop_first() =~= n.children@.skip(i as int + 1));
        }
        match find_in_node(&n.children[i], id) {
            Option::Some(x) => {
                return Option::Some(x);
            },
            Option::None => {},
        }
        i += 1;
    }
    proof {
        assert(n.children@.skip(i as int).len() == 0);
    }
    Option::None
}

fn find_in_forest<'a>(ns: &'a Vec<VertexNode>, id: &str) -> (r: Option<&'a VertexNode>)
    ensures
        match r {
            Option::Some(x) => forest_find(ns@, id@) == Option::Some(*x),
            Option::None => forest_find(ns@, id@) is None,
        },
{
    let mut i: usize = 0;
    proof {
        assert(ns@.skip(0) =~= ns@);
    }
    while i < ns.len()
        invariant
            0 <= i <= ns@.len(),
            forest_find(ns@, id@) == forest_find(ns@.skip(i as int), id@),
        decreases ns@.len() - i,
    {
        proof {
            let s = ns@.skip(i as int);
            assert(s[0] == ns@[i as int]);
            assert(s.drop_first() =~= ns@.skip(i as int + 1));
        }
        match find_in_node(&ns[i], id) {
            Option::Some(x) => {
                return Option::Some(x);
            },
            Option::None => {},
        }
        i += 1;
    }
    proof {
        assert(ns@.skip(i as int).len() == 0);
    }
    Option::None
}

fn find_path_in_node<'a>(n: &'a VertexNode, id: &str, dir: String) -> (r: Option<
    (&'a VertexNode, String),
>)
    ensures
        match r {
            Option::Some(p) => node_find_path(*n, id@, dir@) == Option::Some((*p.0, p.1@)),
            Option::None => node_find_path(*n, id@, dir@) is None,
        },
    decreases *n,
{
    if str_eq(n.record.id.as_str(), id) {
        return Option::Some((n, dir));
    }
    let mut child_prefix = dir;
    child_prefix.append("/children/");
    let mut i: usize = 0;
    proof {
        assert(n.children@.skip(0) =~= n.children@);
    }
    while i < n.children.len()
        invariant
            0 <= i <= n.children.len(),
            n.record.id@ != id@,
            node_find_path(*n, id@, dir@) == forest_find_path(
                n.children@.skip(i as int),
                id@,
                child_prefix@,
            ),
        decreases n.children.len() - i,
    {
        proof {
            let s = n.children@.skip(i as int);
            assert(s[0] == n.children@[i as int]);
            assert(s.drop_first() =~= n.children@.skip(i as int + 1));
        }
        let mut child_dir = child_prefix.clone();
        child_dir.append(n.children[i].record.id.as_str());
        match find_path_in_node(&n.children[i], id, child_dir) {
            Option::Some(p) => {
                return Option::Some(p);
            },
            Option::None => {},
        }
        i += 1;
    }
    proof {
        assert(n.children@.skip(i as int).len() == 0);
    }
    Option::None
}

fn find_path_in_forest<'a>(ns: &'a Vec<VertexNode>, id: &str, prefix: &String) -> (r: Option<
    (&'a VertexNode, String),
>)
    ensures
        match r {
            Option::Some(p) => forest_find_path(ns@, id@, prefix@) == Option::Some((*p.0, p.1@)),
            Option::None => forest_find_path(ns@, id@, prefix@) is None,
        },
{
    let mut i: usize = 0;
    proof {
        assert(ns@.skip(0) =~= ns@);
    }
    while i < ns.len()
        invariant
            0 <= i <= ns@.len(),
            forest_find_path(ns@, id@, prefix@) == forest_find_path(
                ns@.skip(i as int),
                id@,
                prefix@,
            ),
        decreases ns@.len() - i,
    {
        proof {
            let s = ns@.skip(i as int);
            assert(s[0] == ns@[i as int]);
            assert(s.drop_first() =~= ns@.skip(i as int + 1));
        }
        let mut dir = prefix.clone();
        dir.append(ns[i].record.id.as_str());
        match find_path_in_node(&ns[i], id, dir) {
            Option::Some(p) => {
                return Option::Some(p);
            },
            Option::None => {},
        }
        i += 1;
    }
    proof {
        assert(ns@.skip(i as int).len() == 0);
    }
    Option::None
}

// ---------------------------------------------------------------------------
// Creation.
// ---------------------------------------------------------------------------

/// The record as stored at creation: timestamps the caller left blank
/// (zero) are stamped with the current time, everything else is kept.
pub open spec fn stamped_create(rec: VertexRecord, now: i64, res: VertexRecord) -> bool {
    &&& res.id == rec.id
    &&& res.title == rec.title
    &&& res.parent_id == rec.parent_id
    &&& res.workspace_id == rec.workspace_id
    &&& res.created_at == (if rec.created_at == 0 {
        now
    } else {
        rec.created_at
    })
    &&& res.updated_at == (if rec.updated_at == 0 {
        now
    } else {
        rec.updated_at
    })
    &&& res.tags == rec.tags
    &&& res.references == rec.references
    &&& res.layout == rec.layout
    &&& res.default_tab == rec.default_tab
    &&& res.is_leaf == rec.is_leaf
    &&& res.thumbnail_path == rec.thumbnail_path
    &&& res.thumbnail_alt == rec.thumbnail_alt
}

/// A freshly created vertex directory: the stamped record, a materialized
/// references directory, an empty `children` directory.
pub open spec fn new_child_ok(
    c: VertexNode,
    rec: VertexRecord,
    assets: Seq<AssetSource>,
    now: i64,
) -> bool {
    &&& stamped_create(rec, now, c.record)
    &&& materialized(rec.references@, assets, c.ref_files@)
    &&& c.children@.len() == 0
}

fn stamp_create(rec: VertexRecord, now: i64) -> (res: VertexRecord)
    ensures
        stamped_create(rec, now, res),
{
    let mut res = rec;
    if res.created_at == 0 {
        res.created_at = now;
    }
    if res.updated_at == 0 {
        res.updated_at = now;
    }
    res
}

/// `n` is `o` with `child` appended under the first vertex carrying `pid`
/// in depth-first order; everything else is untouched.
pub open spec fn node_with_child(
    o: VertexNode,
    n: VertexNode,
    pid: Seq<char>,
    child: VertexNode,
) -> bool
    decreases o,
{
    &&& n.record == o.record
    &&& n.ref_files == o.ref_files
    &&& if o.record.id@ == pid {
        n.children@ == o.children@.push(child)
    } else {
        forest_with_child(o.children@, n.children@, pid, child)
    }
}

pub open spec fn forest_with_child(
    os: Seq<VertexNode>,
    ns: Seq<VertexNode>,
    pid: Seq<char>,
    child: VertexNode,
) -> bool
    decreases os,
{
    &&& ns.len() == os.len()
    &&& exists|j: int|
        {
            &&& 0 <= j < os.len()
            &&& forall|k: int|
                0 <= k < j ==> ns[k] == os[k] && !node_contains(#[trigger] os[k], pid)
            &&& node_contains(#[trigger] os[j], pid)
            &&& node_with_child(os[j], ns[j], pid, child)
            &&& forall|k: int| j < k < os.len() ==> #[trigger] ns[k] == os[k]
        }
}

/// The first member of `ns` whose subtree contains `id`.
fn first_containing(ns: &Vec<VertexNode>, id: &str) -> (r: Option<usize>)
    ensures
        match r {
            Option::Some(i) => i < ns@.len() && node_contains(ns@[i as int], id@) && forall|j: int|
                0 <= j < i ==> !node_contains(#[trigger] ns@[j], id@),
            Option::None => !forest_contains(ns@, id@),
        },
{
    let mut i: usize = 0;
    while i < ns.len()
        invariant
            0 <= i <= ns@.len(),
            forall|j: int| 0 <= j < i ==> !node_contains(#[trigger] ns@[j], id@),
        decreases ns@.len() - i,
    {
        if node_has(&ns[i], id) {
            return Option::Some(i);
        }
        i += 1;
    }
    Option::None
}

fn node_insert(n: VertexNode, pid: &str, child: VertexNode) -> (res: VertexNode)
    requires
        node_contains(n, pid@),
    ensures
        node_with_child(n, res, pid@, child),
    decreases n,
{
    let VertexNode { record, ref_files, mut children } = n;
    if str_eq(record.id.as_str(), pid) {
        children.push(child);
        VertexNode { record, ref_files, children }
    } else {
        match first_containing(&children, pid) {
            Option::Some(i) => {
                let ghost old_children = children@;
                let c = children.remove(i);
                let c2 = node_insert(c, pid, child);
                children.insert(i, c2);
                proof {
                    assert(children@ =~= old_children.update(i as int, c2));
                    assert(forest_with_child(old_children, children@, pid@, child)) by {
                        assert(node_contains(old_children[i as int], pid@));
                        assert(node_with_child(old_children[i as int], children@[i as int], pid@, child));
                    }
                }
                VertexNode { record, ref_files, children }
            },
            Option::None => {
                proof {
                    assert(false);
                }
                VertexNode { record, ref_files, children }
            },
        }
    }
}

fn forest_insert(ns: &mut Vec<VertexNode>, pid: &str, child: VertexNode)
    requires
        forest_contains(old(ns)@, pid@),
    ensures
        forest_with_child(old(ns)@, final(ns)@, pid@, child),
{
    match first_containing(ns, pid) {
        Option::Some(i) => {
            let ghost old_ns = ns@;
            let c = ns.remove(i);
            let c2 = node_insert(c, pid, child);
            ns.insert(i, c2);
            proof {
                assert(ns@ =~= old_ns.update(i as int, c2));
                assert(forest_with_child(old_ns, ns@, pid@, child)) by {
                    assert(node_contains(old_ns[i as int], pid@));
                    assert(node_with_child(old_ns[i as int], ns@[i as int], pid@, child));
                }
            }
        },
        Option::None => {
            proof {
                assert(false);
            }
        },
    }
}

// ---------------------------------------------------------------------------
// Removal: the vertex directory and everything beneath it goes.
// ---------------------------------------------------------------------------

/// `n` is `o` with the first vertex carrying `id` (in depth-first order)
/// cut out together with its whole subtree `rm`.
pub open spec fn node_without(
    o: VertexNode,
    n: VertexNode,
    id: Seq<char>,
    rm: VertexNode,
) -> bool
    decreases o,
{
    &&& n.record == o.record
    &&& n.ref_files == o.ref_files
    &&& forest_without(o.children@, n.children@, id, rm)
}

pub open spec fn forest_without(
    os: Seq<VertexNode>,
    ns: Seq<VertexNode>,
    id: Seq<char>,
    rm: VertexNode,
) -> bool
    decreases os,
{
    exists|j: int|
        {
            &&& 0 <= j < os.len()
            &&& forall|k: int|
                0 <= k < j ==> ns[k] == os[k] && !node_contains(#[trigger] os[k], id)
            &&& node_contains(#[trigger] os[j], id)
            &&& if os[j].record.id@ == id {
                rm == os[j] && ns == os.remove(j)
            } else {
                ns.len() == os.len() && node_without(os[j], ns[j], id, rm) && forall|k: int|
                    j < k < os.len() ==> #[trigger] ns[k] == os[k]
            }
        }
}

fn node_remove(n: VertexNode, id: &str) -> (res: (VertexNode, Option<VertexNode>))
    requires
        node_contains(n, id@),
        n.record.id@ != id@,
    ensures
        match res.1 {
            Option::Some(rm) => node_without(n, res.0, id@, rm),
            Option::None => false,
        },
    decreases n,
{
    match first_containing(&n.children, id) {
        Option::Some(i) => {
            let VertexNode { record, ref_files, mut children } = n;
            let ghost old_children = children@;
            if str_eq(children[i].record.id.as_str(), id) {
                let rm = children.remove(i);
                proof {
                    assert(forest_without(old_children, children@, id@, rm)) by {
                        assert(node_contains(old_children[i as int], id@));
                    }
                }
                (VertexNode { record, ref_files, children }, Option::Some(rm))
            } else {
                let c = children.remove(i);
                let (c2, rm) = node_remove(c, id);
                children.insert(i, c2);
                match rm {
                    Option::Some(rm) => {
                        proof {
                            assert(children@ =~= old_children.update(i as int, c2));
                            assert(forest_without(old_children, children@, id@, rm)) by {
                                assert(node_contains(old_children[i as int], id@));
                                assert(node_without(old_children[i as int], children@[i as int], id@, rm));
                            }
                        }
                        (VertexNode { record, ref_files, children }, Option::Some(rm))
                    },
                    Option::None => {
                        proof {
                            assert(false);
                        }
                        (VertexNode { record, ref_files, children }, Option::None)
                    },
                }
            }
        },
        Option::None => {
            proof {
                assert(false);
            }
            (n, Option::None)
        },
    }
}

fn forest_remove(ns: &mut Vec<VertexNode>, id: &str) -> (rm: Option<VertexNode>)
    requires
        forest_contains(old(ns)@, id@),
    ensures
        match rm {
            Option::Some(rm) => forest_without(old(ns)@, final(ns)@, id@, rm),
            Option::None => false,
        },
{
    match first_containing(ns, id) {
        Option::Some(i) => {
            let ghost old_ns = ns@;
            if str_eq(ns[i].record.id.as_str(), id) {
                let rm = ns.remove(i);
                proof {
                    assert(forest_without(old_ns, ns@, id@, rm)) by {
                        assert(node_contains(old_ns[i as int], id@));
                    }
                }
                Option::Some(rm)
            } else {
                let c = ns.remove(i);
                let (c2, rm) = node_remove(c, id);
                ns.insert(i, c2);
                match rm {
                    Option::Some(rm) => {
                        proof {
                            assert(ns@ =~= old_ns.update(i as int, c2));
                            assert(forest_without(old_ns, ns@, id@, rm)) by {
                                assert(node_contains(old_ns[i as int], id@));
                                assert(node_without(old_ns[i as int], ns@[i as int], id@, rm));
                            }
                        }
                        Option::Some(rm)
                    },
                    Option::None => {
                        proof {
                            assert(false);
                        }
                        Option::None
                    },
                }
            }
        },
        Option::None => {
            proof {
                assert(false);
            }
            Option::None
        },
    }
}

// ---------------------------------------------------------------------------
// Update: rewrite the record, replace the references directory wholesale,
// keep the children.
// ---------------------------------------------------------------------------

/// The record as stored by an update: `updated_at` is stamped when the
/// caller left it blank, everything else is taken from the caller.
pub open spec fn stamped_update(rec: VertexRecord, now: i64, res: VertexRecord) -> bool {
    &&& res.id == rec.id
    &&& res.title == rec.title
    &&& res.parent_id == rec.parent_id
    &&& res.workspace_id == rec.workspace_id
    &&& res.created_at == rec.created_at
    &&& res.updated_at == (if rec.updated_at == 0 {
        now
    } else {
        rec.updated_at
    })
    &&& res.tags == rec.tags
    &&& res.references == rec.references
    &&& res.layout == rec.layout
    &&& res.default_tab == rec.default_tab
    &&& res.is_leaf == rec.is_leaf
    &&& res.thumbnail_path == rec.thumbnail_path
    &&& res.thumbnail_alt == rec.thumbnail_alt
}

fn stamp_update(rec: VertexRecord, now: i64) -> (res: VertexRecord)
    ensures
        stamped_update(rec, now, res),
{
    let mut res = rec;
    if res.updated_at == 0 {
        res.updated_at = now;
    }
    res
}

/// `n` is `o` with the first vertex carrying `rec.id` rewritten: new stamped
/// record, references directory replaced wholesale by a fresh
/// materialization, children kept.
pub open spec fn node_with_update(
    o: VertexNode,
    n: VertexNode,
    rec: VertexRecord,
    assets: Seq<AssetSource>,
    now: i64,
) -> bool
    decreases o,
{
    if o.record.id@ == rec.id@ {
        &&& stamped_update(rec, now, n.record)
        &&& materialized(rec.references@, assets, n.ref_files@)
        &&& n.children@ == o.children@
    } else {
        &&& n.record == o.record
        &&& n.ref_files == o.ref_files
        &&& forest_with_update(o.children@, n.children@, rec, assets, now)
    }
}

pub open spec fn forest_with_update(
    os: Seq<VertexNode>,
    ns: Seq<VertexNode>,
    rec: VertexRecord,
    assets: Seq<AssetSource>,
    now: i64,
) -> bool
    decreases os,
{
    &&& ns.len() == os.len()
    &&& exists|j: int|
        {
            &&& 0 <= j < os.len()
            &&& forall|k: int|
                0 <= k < j ==> ns[k] == os[k] && !node_contains(#[trigger] os[k], rec.id@)
            &&& node_contains(#[trigger] os[j], rec.id@)
            &&& node_with_update(os[j], ns[j], rec, assets, now)
            &&& forall|k: int| j < k < os.len() ==> #[trigger] ns[k] == os[k]
        }
}

fn node_update(n: VertexNode, rec: VertexRecord, assets: &Vec<AssetSource>, now: i64) -> (res:
    VertexNode)
    requires
        node_contains(n, rec.id@),
        assets@.len() == rec.references@.len(),
    ensures
        node_with_update(n, res, rec, assets@, now),
    decreases n,
{
    if str_eq(n.record.id.as_str(), rec.id.as_str()) {
        let files = materialize(&rec.references, assets);
        VertexNode { record: stamp_update(rec, now), ref_files: files, children: n.children }
    } else {
        let VertexNode { record, ref_files, mut children } = n;
        match first_containing(&children, rec.id.as_str()) {
            Option::Some(i) => {
                let ghost old_children = children@;
                let c = children.remove(i);
                let c2 = node_update(c, rec, assets, now);
                children.insert(i, c2);
                proof {
                    assert(children@ =~= old_children.update(i as int, c2));
                    assert(forest_with_update(old_children, children@, rec, assets@, now)) by {
                        assert(node_contains(old_children[i as int], rec.id@));
                        assert(node_with_update(
                            old_children[i as int],
                            children@[i as int],
                            rec,
                            assets@,
                            now,
                        ));
                    }
                }
                VertexNode { record, ref_files, children }
            },
            Option::None => {
                proof {
                    assert(false);
                }
                VertexNode { record, ref_files, children }
            },
        }
    }
}

fn forest_update(ns: &mut Vec<VertexNode>, rec: VertexRecord, assets: &Vec<AssetSource>, now: i64)
    requires
        forest_contains(old(ns)@, rec.id@),
        assets@.len() == rec.references@.len(),
    ensures
        forest_with_update(old(ns)@, final(ns)@, rec, assets@, now),
{
    match first_containing(ns, rec.id.as_str()) {
        Option::Some(i) => {
            let ghost old_ns = ns@;
            let c = ns.remove(i);
            let c2 = node_update(c, rec, assets, now);
            ns.insert(i, c2);
            proof {
                assert(ns@ =~= old_ns.update(i as int, c2));
                assert(forest_with_update(old_ns, ns@, rec, assets@, now)) by {
                    assert(node_contains(old_ns[i as int], rec.id@));
                    assert(node_with_update(old_ns[i as int], ns@[i as int], rec, assets@, now));
                }
            }
        },
        Option::None => {
            proof {
                assert(false);
            }
        },
    }
}

// ---------------------------------------------------------------------------
// Hydrated reads.
// ---------------------------------------------------------------------------

/// `out` is `orig` with its reference payload fields rebuilt from the files
/// of the vertex's references directory at `dir`.
pub open spec fn hydrated_rec(
    orig: VertexRecord,
    out: VertexRecord,
    files: Seq<RefFile>,
    dir: Seq<char>,
) -> bool {
    &&& out.id == orig.id
    &&& out.title == orig.title
    &&& out.parent_id == orig.parent_id
    &&& out.workspace_id == orig.workspace_id
    &&& out.created_at == orig.created_at
    &&& out.updated_at == orig.updated_at
    &&& out.tags@ == orig.tags@
    &&& opt_layout_eqv(out.layout, orig.layout)
    &&& out.default_tab == orig.default_tab
    &&& out.is_leaf == orig.is_leaf
    &&& out.thumbnail_path == orig.thumbnail_path
    &&& out.thumbnail_alt == orig.thumbnail_alt
    &&& hydrated(orig.references@, out.references@, files, dir)
}

/// The root vertex records of a workspace: members of the root forest that
/// carry no parent id, in order.
pub open spec fn root_records(ns: Seq<VertexNode>) -> Seq<VertexRecord>
    decreases ns,
{
    if ns.len() == 0 {
        Seq::<VertexRecord>::empty()
    } else {
        let rest = root_records(ns.drop_first());
        if ns[0].record.parent_id is None {
            seq![ns[0].record] + rest
        } else {
            rest
        }
    }
}

impl WorkspaceTree {
    /// An empty workspace tree at an absolute root path.
    pub fn new(root_path: String) -> (t: WorkspaceTree)
        ensures
            t.root_path == root_path,
            t.roots@.len() == 0,
    {
        WorkspaceTree { root_path, roots: Vec::new() }
    }

    /// Point lookup by id: the first match of a depth-first scan, its
    /// references hydrated from its on-disk directory. Absence is a plain
    /// `None`, not an error.
    pub fn get(&self, id: &str) -> (r: Option<VertexRecord>)
        ensures
            match tree_find_path(*self, id@) {
                Option::Some(p) => match r {
                    Option::Some(rec) => hydrated_rec(p.0.record, rec, p.0.ref_files@, p.1),
                    Option::None => false,
                },
                Option::None => r is None,
            },
    {
        let mut prefix = self.root_path.clone();
        prefix.append("/");
        match find_path_in_forest(&self.roots, id, &prefix) {
            Option::Some((node, dir)) => {
                let mut rec = node.record.clone();
                rec.references = hydrate(&node.record.references, &node.ref_files, dir.as_str());
                Option::Some(rec)
            },
            Option::None => Option::None,
        }
    }

    /// The immediate children of the first vertex carrying `parent_id`.
    /// A parent with no children yet yields the empty list; an absent
    /// parent is an error.
    pub fn get_children(&self, parent_id: &str) -> (r: Result<Vec<VertexRecord>, StoreError>)
        ensures
            match forest_find(self.roots@, parent_id@) {
                Option::Some(p) => match r {
                    Result::Ok(v) => v@.len() == p.children@.len() && forall|k: int|
                        0 <= k < v@.len() ==> rec_eqv(#[trigger] v@[k], p.children@[k].record),
                    Result::Err(_) => false,
                },
                Option::None => r == Result::<Vec<VertexRecord>, StoreError>::Err(
                    StoreError::NotFound,
                ),
            },
    {
        match find_in_forest(&self.roots, parent_id) {
            Option::Some(p) => {
                let mut out: Vec<VertexRecord> = Vec::new();
                let mut i: usize = 0;
                while i < p.children.len()
                    invariant
                        0 <= i <= p.children@.len(),
                        out@.len() == i,
                        forall|k: int|
                            0 <= k < i ==> rec_eqv(#[trigger] out@[k], p.children@[k].record),
                    decreases p.children@.len() - i,
                {
                    out.push(p.children[i].record.clone());
                    i += 1;
                }
                Result::Ok(out)
            },
            Option::None => Result::Err(StoreError::NotFound),
        }
    }

    /// The root vertices of the workspace: entries directly under the root
    /// that carry no parent id.
    pub fn get_root_vertices(&self) -> (r: Vec<VertexRecord>)
        ensures
            r@.len() == root_records(self.roots@).len(),
            forall|k: int|
                0 <= k < r@.len() ==> rec_eqv(#[trigger] r@[k], root_records(self.roots@)[k]),
    {
        let mut out: Vec<VertexRecord> = Vec::new();
        let mut i: usize = self.roots.len();
        proof {
            assert(self.roots@.skip(i as int).len() == 0);
        }
        while i > 0
        invariant
            0 <= i <= self.roots@.len(),
            out@.len() == root_records(self.roots@.skip(i as int)).len(),
            forall|k: int|
                0 <= k < out@.len() ==> rec_eqv(
                    #[trigger] out@[k],
                    root_records(self.roots@.skip(i as int))[k],
                ),
        decreases i,
        {
            let ghost prev = out@;
            let ghost old_i = i as int;
            i -= 1;
            proof {
                let s = self.roots@.skip(i as int);
                assert(s[0] == self.roots@[i as int]);
                assert(s.drop_first() =~= self.roots@.skip(i as int + 1));
            }
            let keep = match &self.roots[i].record.parent_id {
                Option::None => true,
                Option::Some(_) => false,
            };
            if keep {
                out.insert(0, self.roots[i].record.clone());
                proof {
                    let s = self.roots@.skip(i as int);
                    assert(root_records(s) =~= seq![self.roots@[i as int].record] + root_records(
                        self.roots@.skip(i as int + 1),
                    ));
                    assert(out@[0] == prev.insert(0, out@[0])[0]);
                    assert(forall|k: int| 0 <= k < prev.len() ==> out@[k + 1] == prev[k]);
                }
            }
        }
        proof {
            assert(self.roots@.skip(0) =~= self.roots@);
        }
        out
    }

    /// Creates a vertex. A root vertex (no parent id) lands directly under
    /// the workspace root; otherwise the parent is located by a full
    /// depth-first scan and the child lands under it. Fails with
    /// `ParentNotFound` when no vertex carries the parent id, and with
    /// `AlreadyExists` when the target location already has the id.
    pub fn create(&mut self, rec: VertexRecord, assets: &Vec<AssetSource>, now: i64) -> (r:
        Result<(), StoreError>)
        requires
            assets@.len() == rec.references@.len(),
        ensures
            final(self).root_path == old(self).root_path,
            r is Err ==> final(self).roots@ == old(self).roots@,
            match rec.parent_id {
                Option::None => {
                    &&& (r == Result::<(), StoreError>::Err(StoreError::AlreadyExists) <==> exists|
                        k: int,
                    |
                        0 <= k < old(self).roots@.len() && (#[trigger] old(
                            self,
                        ).roots@[k]).record.id@ == rec.id@)
                    &&& (r is Ok || r == Result::<(), StoreError>::Err(StoreError::AlreadyExists))
                    &&& (r is Ok ==> final(self).roots@.len() == old(self).roots@.len() + 1
                        && (forall|k: int|
                        0 <= k < old(self).roots@.len() ==> #[trigger] final(self).roots@[k]
                            == old(self).roots@[k]) && new_child_ok(
                        final(self).roots@.last(),
                        rec,
                        assets@,
                        now,
                    ))
                },
                Option::Some(pid) => {
                    &&& (r == Result::<(), StoreError>::Err(StoreError::ParentNotFound)
                        <==> !forest_contains(old(self).roots@, pid@))
                    &&& (r == Result::<(), StoreError>::Err(StoreError::AlreadyExists)
                        <==> match forest_find(old(self).roots@, pid@) {
                        Option::Some(p) => exists|k: int|
                            0 <= k < p.children@.len() && (#[trigger] p.children@[k]).record.id@
                                == rec.id@,
                        Option::None => false,
                    })
                    &&& (r is Ok || r == Result::<(), StoreError>::Err(StoreError::ParentNotFound)
                        || r == Result::<(), StoreError>::Err(StoreError::AlreadyExists))
                    &&& (r is Ok ==> exists|c: VertexNode|
                        #[trigger] new_child_ok(c, rec, assets@, now) && forest_with_child(
                            old(self).roots@,
                            final(self).roots@,
                            pid@,
                            c,
                        ))
                },
            },
    {
        let parent = clone_opt_string(&rec.parent_id);
        match parent {
            Option::None => {
                if has_member_named(&self.roots, rec.id.as_str()) {
                    return Result::Err(StoreError::AlreadyExists);
                }
                let files = materialize(&rec.references, assets);
                let child = VertexNode {
                    record: stamp_create(rec, now),
                    ref_files: files,
                    children: Vec::new(),
                };
                self.roots.push(child);
                Result::Ok(())
            },
            Option::Some(pid) => {
                if !forest_has(&self.roots, pid.as_str()) {
                    proof {
                        lemma_forest_find_none(self.roots@, pid@);
                    }
                    return Result::Err(StoreError::ParentNotFound);
                }
                match find_in_forest(&self.roots, pid.as_str()) {
                    Option::Some(p) => {
                        let dup = has_member_named(&p.children, rec.id.as_str());
                        proof {
                            let fp = forest_find(self.roots@, pid@);
                            assert(fp == Option::Some(*p));
                            match fp {
                                Option::Some(pp) => {
                                    if dup {
                                        let kk = choose|k: int|
                                            0 <= k < p.children@.len() && (#[trigger] p.children@[k]).record.id@
                                                == rec.id@;
                                        assert(0 <= kk < pp.children@.len()
                                            && pp.children@[kk].record.id@ == rec.id@);
                                    } else {
                                        assert forall|k: int|
                                            0 <= k < pp.children@.len() implies (#[trigger] pp.children@[k]).record.id@
                                            != rec.id@ by {
                                            assert(pp.children@[k] == p.children@[k]);
                                        }
                                    }
                                },
                                Option::None => {},
                            }
                        }
                        if dup {
                            return Result::Err(StoreError::AlreadyExists);
                        }
                    },
                    Option::None => {
                        proof {
                            lemma_forest_find_none(self.roots@, pid@);
                        }
                    },
                }
                let files = materialize(&rec.references, assets);
                let child = VertexNode {
                    record: stamp_create(rec, now),
                    ref_files: files,
                    children: Vec::new(),
                };
                let ghost gchild = child;
                forest_insert(&mut self.roots, pid.as_str(), child);
                proof {
                    assert(new_child_ok(gchild, rec, assets@, now));
                    assert(forest_with_child(old(self).roots@, self.roots@, pid@, gchild));
                }
                Result::Ok(())
            },
        }
    }

    /// Rewrites the first vertex carrying `rec.id`: new record (with
    /// `updated_at` stamped when blank), references directory replaced
    /// wholesale, children kept. Fails with `NotFound` when no vertex
    /// carries the id.
    pub fn update(&mut self, rec: VertexRecord, assets: &Vec<AssetSource>, now: i64) -> (r:
        Result<(), StoreError>)
        requires
            assets@.len() == rec.references@.len(),
        ensures
            final(self).root_path == old(self).root_path,
            r == Result::<(), StoreError>::Err(StoreError::NotFound) <==> !forest_contains(
                old(self).roots@,
                rec.id@,
            ),
            r is Ok || r == Result::<(), StoreError>::Err(StoreError::NotFound),
            r is Err ==> final(self).roots@ == old(self).roots@,
            r is Ok ==> forest_with_update(old(self).roots@, final(self).roots@, rec, assets@, now),
    {
        if !forest_has(&self.roots, rec.id.as_str()) {
            return Result::Err(StoreError::NotFound);
        }
        forest_update(&mut self.roots, rec, assets, now);
        Result::Ok(())
    }

    /// Deletes the first vertex carrying `id` together with its whole
    /// subtree: descendants and their reference directories go with it, with
    /// no recovery. Fails with `NotFound` when no vertex carries the id.
    pub fn remove(&mut self, id: &str) -> (r: Result<(), StoreError>)
        ensures
            final(self).root_path == old(self).root_path,
            r == Result::<(), StoreError>::Err(StoreError::NotFound) <==> !forest_contains(
                old(self).roots@,
                id@,
            ),
            r is Ok || r == Result::<(), StoreError>::Err(StoreError::NotFound),
            r is Err ==> final(self).roots@ == old(self).roots@,
            r is Ok ==> exists|rm: VertexNode|
                #[trigger] forest_without(old(self).roots@, final(self).roots@, id@, rm),
    {
        if !forest_has(&self.roots, id) {
            return Result::Err(StoreError::NotFound);
        }
        let rm = forest_remove(&mut self.roots, id);
        proof {
            match rm {
                Option::Some(x) => {
                    assert(forest_without(old(self).roots@, self.roots@, id@, x));
                },
                Option::None => {},
            }
        }
        Result::Ok(())
    }
}

/// Whether some immediate member of `ns` itself carries `id` (no descent).
fn has_member_named(ns: &Vec<VertexNode>, id: &str) -> (r: bool)
    ensures
        r == exists|k: int| 0 <= k < ns@.len() && (#[trigger] ns@[k]).record.id@ == id@,
{
    let mut i: usize = 0;
    while i < ns.len()
        invariant
            0 <= i <= ns@.len(),
            forall|k: int| 0 <= k < i ==> (#[trigger] ns@[k]).record.id@ != id@,
        decreases ns@.len() - i,
    {
        if str_eq(ns[i].record.id.as_str(), id) {
            return true;
        }
        i += 1;
    }
    false
}

/// A search that comes back empty means the id is nowhere in the forest,
/// and the other way round.
pub proof fn lemma_node_find_none(n: VertexNode, id: Seq<char>)
    ensures
        (node_find(n, id) is None) <==> !node_contains(n, id),
    decreases n,
{
    if n.record.id@ != id {
        lemma_forest_find_none(n.children@, id);
    }
}

pub proof fn lemma_forest_find_none(ns: Seq<VertexNode>, id: Seq<char>)
    ensures
        (forest_find(ns, id) is None) <==> !forest_contains(ns, id),
    decreases ns,
{
    if ns.len() > 0 {
        lemma_node_find_none(ns[0], id);
        lemma_forest_find_none(ns.drop_first(), id);
        assert(forest_contains(ns, id) <==> (node_contains(ns[0], id) || forest_contains(
            ns.drop_first(),
            id,
        ))) by {
            if forest_contains(ns, id) {
                let i = choose|i: int| 0 <= i < ns.len() && node_contains(#[trigger] ns[i], id);
                if i > 0 {
                    assert(ns.drop_first()[i - 1] == ns[i]);
                }
            }
            if forest_contains(ns.drop_first(), id) {
                let i = choose|i: int|
                    0 <= i < ns.drop_first().len() && node_contains(
                        #[trigger] ns.drop_first()[i],
                        id,
                    );
                assert(ns[i + 1] == ns.drop_first()[i]);
            }
        }
    }
}

pub proof fn lemma_node_find_path_none(n: VertexNode, id: Seq<char>, dir: Seq<char>)
    ensures
        (node_find_path(n, id, dir) is None) <==> !node_contains(n, id),
    decreases n,
{
    if n.record.id@ != id {
        lemma_forest_find_path_none(n.children@, id, dir + "/children/"@);
    }
}

pub proof fn lemma_forest_find_path_none(ns: Seq<VertexNode>, id: Seq<char>, prefix: Seq<char>)
    ensures
        (forest_find_path(ns, id, prefix) is None) <==> !forest_contains(ns, id),
    decreases ns,
{
    if ns.len() > 0 {
        lemma_node_find_path_none(ns[0], id, prefix + ns[0].record.id@);
        lemma_forest_find_path_none(ns.drop_first(), id, prefix);
        assert(forest_contains(ns, id) <==> (node_contains(ns[0], id) || forest_contains(
            ns.drop_first(),
            id,
        ))) by {
            if forest_contains(ns, id) {
                let i = choose|i: int| 0 <= i < ns.len() && node_contains(#[trigger] ns[i], id);
                if i > 0 {
                    assert(ns.drop_first()[i - 1] == ns[i]);
                }
            }
            if forest_contains(ns.drop_first(), id) {
                let i = choose|i: int|
                    0 <= i < ns.drop_first().len() && node_contains(
                        #[trigger] ns.drop_first()[i],
                        id,
                    );
                assert(ns[i + 1] == ns.drop_first()[i]);
            }
        }
    }
}

// ---------------------------------------------------------------------------
// Lookups across every registered workspace, in registry order. A duplicate
// id in a later workspace is shadowed, exactly as inside one tree.
// ---------------------------------------------------------------------------

pub open spec fn trees_find_path(ts: Seq<WorkspaceTree>, id: Seq<char>) -> Option<
    (VertexNode, Seq<char>),
>
    decreases ts,
{
    if ts.len() == 0 {
        Option::None
    } else {
        match tree_find_path(ts[0], id) {
            Option::Some(r) => Option::Some(r),
            Option::None => trees_find_path(ts.drop_first(), id),
        }
    }
}

/// Point lookup across all workspaces: the first match of the walk wins,
/// across workspace boundaries too.
pub fn get_across(trees: &Vec<WorkspaceTree>, id: &str) -> (r: Option<VertexRecord>)
    ensures
        match trees_find_path(trees@, id@) {
            Option::Some(p) => match r {
                Option::Some(rec) => hydrated_rec(p.0.record, rec, p.0.ref_files@, p.1),
                Option::None => false,
            },
            Option::None => r is None,
        },
{
    let mut i: usize = 0;
    proof {
        assert(trees@.skip(0) =~= trees@);
    }
    while i < trees.len()
        invariant
            0 <= i <= trees@.len(),
            trees_find_path(trees@, id@) == trees_find_path(trees@.skip(i as int), id@),
        decreases trees@.len() - i,
    {
        proof {
            let s = trees@.skip(i as int);
            assert(s[0] == trees@[i as int]);
            assert(s.drop_first() =~= trees@.skip(i as int + 1));
        }
        match trees[i].get(id) {
            Option::Some(rec) => {
                return Option::Some(rec);
            },
            Option::None => {},
        }
        i += 1;
    }
    proof {
        assert(trees@.skip(i as int).len() == 0);
    }
    Option::None
}

/// Removal across all workspaces: the first workspace containing the id
/// loses the subtree; the rest are untouched. Fails with `NotFound` when no
/// registered workspace holds the id.
pub fn remove_across(trees: &mut Vec<WorkspaceTree>, id: &str) -> (r: Result<(), StoreError>)
    ensures
        r == Result::<(), StoreError>::Err(StoreError::NotFound) <==> (forall|j: int|
            0 <= j < old(trees)@.len() ==> !forest_contains((#[trigger] old(trees)@[j]).roots@, id@)),
        r is Ok || r == Result::<(), StoreError>::Err(StoreError::NotFound),
        r is Err ==> final(trees)@ == old(trees)@,
        r is Ok ==> exists|j: int, rm: VertexNode|
            {
                &&& 0 <= j < old(trees)@.len()
                &&& final(trees)@.len() == old(trees)@.len()
                &&& forall|k: int|
                    0 <= k < old(trees)@.len() && k != j ==> final(trees)@[k] == old(trees)@[k]
                &&& forall|k: int|
                    0 <= k < j ==> !forest_contains((#[trigger] old(trees)@[k]).roots@, id@)
                &&& final(trees)@[j].root_path == old(trees)@[j].root_path
                &&& #[trigger] forest_without(
                    old(trees)@[j].roots@,
                    final(trees)@[j].roots@,
                    id@,
                    rm,
                )
            },
{
    let mut i: usize = 0;
    while i < trees.len()
        invariant
            0 <= i <= trees@.len(),
            trees@ == old(trees)@,
            forall|k: int| 0 <= k < i ==> !forest_contains((#[trigger] trees@[k]).roots@, id@),
        decreases trees@.len() - i,
    {
        if forest_has(&trees[i].roots, id) {
            let ghost before = trees@;
            let mut t = trees.remove(i);
            let rm = forest_remove(&mut t.roots, id);
            trees.insert(i, t);
            proof {
                assert(trees@ =~= before.update(i as int, trees@[i as int]));
                match rm {
                    Option::Some(x) => {
                        assert(forest_without(before[i as int].roots@, trees@[i as int].roots@, id@, x));
                    },
                    Option::None => {},
                }
            }
            return Result::Ok(());
        }
        i += 1;
    }
    Result::Err(StoreError::NotFound)
}

// ---------------------------------------------------------------------------
// The two searches agree: resolving the directory path on the way down does
// not change which vertex a lookup finds.
// ---------------------------------------------------------------------------

pub proof fn lemma_node_find_path_agrees(n: VertexNode, id: Seq<char>, dir: Seq<char>)
    ensures
        match (node_find(n, id), node_find_path(n, id, dir)) {
            (Option::Some(a), Option::Some(p)) => a == p.0,
            (Option::None, Option::None) => true,
            _ => false,
        },
    decreases n,
{
    if n.record.id@ != id {
        lemma_forest_find_path_agrees(n.children@, id, dir + "/children/"@);
    }
}

pub proof fn lemma_forest_find_path_agrees(ns: Seq<VertexNode>, id: Seq<char>, prefix: Seq<char>)
    ensures
        match (forest_find(ns, id), forest_find_path(ns, id, prefix)) {
            (Option::Some(a), Option::Some(p)) => a == p.0,
            (Option::None, Option::None) => true,
            _ => false,
        },
    decreases ns,
{
    if ns.len() > 0 {
        lemma_node_find_path_agrees(ns[0], id, prefix + ns[0].record.id@);
        lemma_forest_find_path_agrees(ns.drop_first(), id, prefix);
    }
}

// ---------------------------------------------------------------------------
// Laws of removal: deleting a vertex removes exactly its subtree.
// ---------------------------------------------------------------------------

proof fn lemma_forest_count_remove(os: Seq<VertexNode>, j: int, d: Seq<char>)
    requires
        0 <= j < os.len(),
    ensures
        forest_count(os.remove(j), d) + node_count(os[j], d) == forest_count(os, d),
    decreases os.len(),
{
    if j == 0 {
        assert(os.remove(0) =~= os.drop_first());
    } else {
        lemma_forest_count_remove(os.drop_first(), j - 1, d);
        assert(os.remove(j).drop_first() =~= os.drop_first().remove(j - 1));
        assert(os.remove(j)[0] == os[0]);
        assert(os.drop_first()[j - 1] == os[j]);
    }
}

proof fn lemma_forest_count_except(os: Seq<VertexNode>, ns: Seq<VertexNode>, j: int, d: Seq<char>)
    requires
        os.len() == ns.len(),
        0 <= j < os.len(),
        forall|k: int| 0 <= k < os.len() && k != j ==> ns[k] == os[k],
    ensures
        forest_count(ns, d) + node_count(os[j], d) == forest_count(os, d) + node_count(ns[j], d),
    decreases os.len(),
{
    if j == 0 {
        assert(ns.drop_first() =~= os.drop_first()) by {
            assert forall|k: int| 0 <= k < ns.drop_first().len() implies ns.drop_first()[k]
                == os.drop_first()[k] by {
                assert(ns[k + 1] == os[k + 1]);
            }
        }
    } else {
        assert forall|k: int|
            0 <= k < os.drop_first().len() && k != j - 1 implies os.drop_first()[k]
            == ns.drop_first()[k] by {
            assert(ns[k + 1] == os[k + 1]);
        }
        lemma_forest_count_except(os.drop_first(), ns.drop_first(), j - 1, d);
        assert(ns[0] == os[0]);
        assert(os.drop_first()[j - 1] == os[j]);
        assert(ns.drop_first()[j - 1] == ns[j]);
    }
}

/// Cutting out a subtree takes away exactly its occurrence counts.
pub proof fn lemma_node_remove_count(
    o: VertexNode,
    n: VertexNode,
    id: Seq<char>,
    rm: VertexNode,
    d: Seq<char>,
)
    requires
        node_without(o, n, id, rm),
    ensures
        node_count(n, d) + node_count(rm, d) == node_count(o, d),
    decreases o,
{
    lemma_forest_remove_count(o.children@, n.children@, id, rm, d);
}

pub proof fn lemma_forest_remove_count(
    os: Seq<VertexNode>,
    ns: Seq<VertexNode>,
    id: Seq<char>,
    rm: VertexNode,
    d: Seq<char>,
)
    requires
        forest_without(os, ns, id, rm),
    ensures
        forest_count(ns, d) + node_count(rm, d) == forest_count(os, d),
    decreases os,
{
    let j = choose|j: int|
        {
            &&& 0 <= j < os.len()
            &&& forall|k: int|
                0 <= k < j ==> ns[k] == os[k] && !node_contains(#[trigger] os[k], id)
            &&& node_contains(#[trigger] os[j], id)
            &&& if os[j].record.id@ == id {
                rm == os[j] && ns == os.remove(j)
            } else {
                ns.len() == os.len() && node_without(os[j], ns[j], id, rm) && forall|k: int|
                    j < k < os.len() ==> #[trigger] ns[k] == os[k]
            }
        };
    if os[j].record.id@ == id {
        lemma_forest_count_remove(os, j, d);
    } else {
        lemma_node_remove_count(os[j], ns[j], id, rm, d);
        lemma_forest_count_except(os, ns, j, d);
    }
}

/// A zero occurrence count is exactly absence.
pub proof fn lemma_node_count_zero(n: VertexNode, d: Seq<char>)
    ensures
        (node_count(n, d) == 0) <==> !node_contains(n, d),
    decreases n,
{
    lemma_forest_count_zero(n.children@, d);
    assert(node_contains(n, d) <==> (n.record.id@ == d || forest_contains(n.children@, d))) by {
        if node_contains(n, d) && n.record.id@ != d {
            let i = choose|i: int|
                0 <= i < n.children.len() && node_contains(#[trigger] n.children[i as int], d);
            assert(n.children@[i] == n.children[i as int]);
        }
        if forest_contains(n.children@, d) {
            let i = choose|i: int|
                0 <= i < n.children@.len() && node_contains(#[trigger] n.children@[i], d);
            assert(n.children[i as int] == n.children@[i]);
        }
    }
}

pub proof fn lemma_forest_count_zero(ns: Seq<VertexNode>, d: Seq<char>)
    ensures
        (forest_count(ns, d) == 0) <==> !forest_contains(ns, d),
    decreases ns,
{
    if ns.len() > 0 {
        lemma_node_count_zero(ns[0], d);
        lemma_forest_count_zero(ns.drop_first(), d);
        assert(forest_contains(ns, d) <==> (node_contains(ns[0], d) || forest_contains(
            ns.drop_first(),
            d,
        ))) by {
            if forest_contains(ns, d) {
                let i = choose|i: int| 0 <= i < ns.len() && node_contains(#[trigger] ns[i], d);
                if i > 0 {
                    assert(ns.drop_first()[i - 1] == ns[i]);
                }
            }
            if forest_contains(ns.drop_first(), d) {
                let i = choose|i: int|
                    0 <= i < ns.drop_first().len() && node_contains(
                        #[trigger] ns.drop_first()[i],
                        d,
                    );
                assert(ns[i + 1] == ns.drop_first()[i]);
            }
        }
    }
}

/// Deleting a vertex cascades to its whole subtree: afterwards, an id whose
/// every occurrence sat inside the removed subtree is found nowhere in the
/// workspace, so a point lookup on any such descendant comes back empty.
pub proof fn lemma_remove_cascades(
    told: WorkspaceTree,
    tnew: WorkspaceTree,
    id: Seq<char>,
    rm: VertexNode,
    d: Seq<char>,
)
    requires
        forest_without(told.roots@, tnew.roots@, id, rm),
        node_count(rm, d) == forest_count(told.roots@, d),
    ensures
        !forest_contains(tnew.roots@, d),
        tree_find_path(tnew, d) is None,
{
    lemma_forest_remove_count(told.roots@, tnew.roots@, id, rm, d);
    lemma_forest_count_zero(tnew.roots@, d);
    lemma_forest_find_path_none(tnew.roots@, d, tnew.root_path@ + "/"@);
}

} // verus!
