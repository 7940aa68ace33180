use vstd::prelude::*;

verus! {

// ---------------------------------------------------------------------------
// Records persisted by the store.
// ---------------------------------------------------------------------------

/// An attachment or link owned by a vertex. Its position in the owning
/// vertex's reference list is its identity on disk: file names carry the
/// index.
pub enum Reference {
    /// A link to another vertex.
    VertexLink { target_id: String, description: Option<String> },
    /// An external URL.
    Url { url: String, title: Option<String> },
    /// An image asset, copied under the vertex on materialization.
    Image { path: String, alt: Option<String>, description: Option<String> },
    /// A generic file asset, copied under the vertex on materialization.
    File { path: String, alt: Option<String>, extension: Option<String>, icon_path: Option<String> },
    /// A free-form markdown note.
    Note { text: String, created_at: Option<i64> },
}

/// A rendering hint for a vertex's children; carried as opaque data, never
/// interpreted by the store.
pub enum VertexLayout {
    /// Children shown as an ordered list: child id to position.
    Linear { order: Vec<(String, u64)> },
    /// Children shown on a canvas: child id to coordinates.
    Canvas { positions: Vec<(String, i64, i64)> },
}

/// The metadata record of a vertex. Timestamps are milliseconds since the
/// Unix epoch; zero marks a timestamp the caller left blank, to be stamped
/// at creation or update time.
pub struct VertexRecord {
    pub id: String,
    pub title: String,
    pub parent_id: Option<String>,
    pub workspace_id: Option<String>,
    pub created_at: i64,
    pub updated_at: i64,
    pub tags: Vec<String>,
    pub references: Vec<Reference>,
    pub layout: Option<VertexLayout>,
    pub default_tab: Option<String>,
    pub is_leaf: Option<bool>,
    pub thumbnail_path: Option<String>,
    pub thumbnail_alt: Option<String>,
}

/// The record of a registered workspace. `path` is the absolute filesystem
/// root that holds the workspace's vertex tree.
pub struct Workspace {
    pub id: String,
    pub name: String,
    pub path: String,
    pub purpose: Option<String>,
    pub created_at: i64,
    pub updated_at: i64,
    pub tags: Vec<String>,
}

/// The record of a flat project, the simpler variant kept beside the vertex
/// tree.
pub struct Project {
    pub id: String,
    pub title: String,
    pub created_at: i64,
    pub updated_at: i64,
    pub tags: Vec<String>,
    pub status: String,
}

// ---------------------------------------------------------------------------
// The in-memory model of a references directory.
// ---------------------------------------------------------------------------

/// The decoded content of one file in a references directory.
pub enum FileBody {
    /// A `reference_<i>.json` metadata record, as a decoded value; the host
    /// shell encodes and decodes the JSON text.
    Meta(Reference),
    /// A text payload: a note body, a URL line, or a fallback path.
    Text(String),
    /// A copied binary asset.
    Bytes(Vec<u8>),
}

/// One file of a references directory: its name and decoded content.
pub struct RefFile {
    pub name: String,
    pub body: FileBody,
}

/// What the host shell found at an asset's declared source path: the bytes
/// of an existing regular file, or nothing.
pub enum AssetSource {
    Bytes(Vec<u8>),
    Missing,
}

// ---------------------------------------------------------------------------
// Equivalence of records. String fields compare as values (string clones
// preserve the value); Vec-backed fields compare by view.
// ---------------------------------------------------------------------------

pub open spec fn layout_eqv(a: VertexLayout, b: VertexLayout) -> bool {
    match (a, b) {
        (VertexLayout::Linear { order: x }, VertexLayout::Linear { order: y }) => x@ == y@,
        (VertexLayout::Canvas { positions: x }, VertexLayout::Canvas { positions: y }) => x@
            == y@,
        _ => false,
    }
}

pub open spec fn opt_layout_eqv(a: Option<VertexLayout>, b: Option<VertexLayout>) -> bool {
    match (a, b) {
        (Option::None, Option::None) => true,
        (Option::Some(x), Option::Some(y)) => layout_eqv(x, y),
        _ => false,
    }
}

pub open spec fn rec_eqv(a: VertexRecord, b: VertexRecord) -> bool {
    &&& a.id == b.id
    &&& a.title == b.title
    &&& a.parent_id == b.parent_id
    &&& a.workspace_id == b.workspace_id
    &&& a.created_at == b.created_at
    &&& a.updated_at == b.updated_at
    &&& a.tags@ == b.tags@
    &&& a.references@ == b.references@
    &&& opt_layout_eqv(a.layout, b.layout)
    &&& a.default_tab == b.default_tab
    &&& a.is_leaf == b.is_leaf
    &&& a.thumbnail_path == b.thumbnail_path
    &&& a.thumbnail_alt == b.thumbnail_alt
}

pub open spec fn ws_eqv(a: Workspace, b: Workspace) -> bool {
    &&& a.id == b.id
    &&& a.name == b.name
    &&& a.path == b.path
    &&& a.purpose == b.purpose
    &&& a.created_at == b.created_at
    &&& a.updated_at == b.updated_at
    &&& a.tags@ == b.tags@
}

pub open spec fn proj_eqv(a: Project, b: Project) -> bool {
    &&& a.id == b.id
    &&& a.title == b.title
    &&& a.created_at == b.created_at
    &&& a.updated_at == b.updated_at
    &&& a.tags@ == b.tags@
    &&& a.status == b.status
}

pub open spec fn opt_str_view_eqv(a: Option<String>, b: Option<String>) -> bool {
    match (a, b) {
        (Option::None, Option::None) => true,
        (Option::Some(x), Option::Some(y)) => x@ == y@,
        _ => false,
    }
}

/// References with the same shape and the same text, compared by view.
pub open spec fn ref_eqv(a: Reference, b: Reference) -> bool {
    match (a, b) {
        (
            Reference::VertexLink { target_id: t1, description: d1 },
            Reference::VertexLink { target_id: t2, description: d2 },
        ) => t1@ == t2@ && opt_str_view_eqv(d1, d2),
        (Reference::Url { url: u1, title: t1 }, Reference::Url { url: u2, title: t2 }) => u1@
            == u2@ && opt_str_view_eqv(t1, t2),
        (
            Reference::Image { path: p1, alt: a1, description: d1 },
            Reference::Image { path: p2, alt: a2, description: d2 },
        ) => p1@ == p2@ && opt_str_view_eqv(a1, a2) && opt_str_view_eqv(d1, d2),
        (
            Reference::File { path: p1, alt: a1, extension: e1, icon_path: i1 },
            Reference::File { path: p2, alt: a2, extension: e2, icon_path: i2 },
        ) => p1@ == p2@ && opt_str_view_eqv(a1, a2) && opt_str_view_eqv(e1, e2)
            && opt_str_view_eqv(i1, i2),
        (
            Reference::Note { text: x1, created_at: c1 },
            Reference::Note { text: x2, created_at: c2 },
        ) => x1@ == x2@ && c1 == c2,
        _ => false,
    }
}

pub proof fn lemma_ref_eqv_refl(r: Reference)
    ensures
        ref_eqv(r, r),
{
    match r {
        Reference::VertexLink { target_id, description } => {
            lemma_opt_str_view_eqv_refl(description);
        },
        Reference::Url { url, title } => {
            lemma_opt_str_view_eqv_refl(title);
        },
        Reference::Image { path, alt, description } => {
            lemma_opt_str_view_eqv_refl(alt);
            lemma_opt_str_view_eqv_refl(description);
        },
        Reference::File { path, alt, extension, icon_path } => {
            lemma_opt_str_view_eqv_refl(alt);
            lemma_opt_str_view_eqv_refl(extension);
            lemma_opt_str_view_eqv_refl(icon_path);
        },
        Reference::Note { .. } => {},
    }
}

pub proof fn lemma_opt_str_view_eqv_refl(o: Option<String>)
    ensures
        opt_str_view_eqv(o, o),
{
}

// ---------------------------------------------------------------------------
// Cloning with known results.
// ---------------------------------------------------------------------------

pub fn clone_opt_string(o: &Option<String>) -> (r: Option<String>)
    ensures
        r == *o,
{
    match o {
        Option::None => Option::None,
        Option::Some(s) => Option::Some(s.clone()),
    }
}

pub fn clone_string_vec(v: &Vec<String>) -> (r: Vec<String>)
    ensures
        r@ == v@,
{
    let mut out: Vec<String> = Vec::new();
    let mut i: usize = 0;
    while i < v.len()
        invariant
            0 <= i <= v.len(),
            out@ =~= v@.subrange(0, i as int),
        decreases v.len() - i,
    {
        out.push(v[i].clone());
        i += 1;
    }
    assert(out@ =~= v@);
    out
}

impl Clone for Reference {
    fn clone(&self) -> (r: Self)
        ensures
            r == *self,
    {
        match self {
            Reference::VertexLink { target_id, description } => Reference::VertexLink {
                target_id: target_id.clone(),
                description: clone_opt_string(description),
            },
            Reference::Url { url, title } => Reference::Url {
                url: url.clone(),
                title: clone_opt_string(title),
            },
            Reference::Image { path, alt, description } => Reference::Image {
                path: path.clone(),
                alt: clone_opt_string(alt),
                description: clone_opt_string(description),
            },
            Reference::File { path, alt, extension, icon_path } => Reference::File {
                path: path.clone(),
                alt: clone_opt_string(alt),
                extension: clone_opt_string(extension),
                icon_path: clone_opt_string(icon_path),
            },
            Reference::Note { text, created_at } => Reference::Note {
                text: text.clone(),
                created_at: *created_at,
            },
        }
    }
}

pub fn clone_refs(v: &Vec<Reference>) -> (r: Vec<Reference>)
    ensures
        r@ == v@,
{
    let mut out: Vec<Reference> = Vec::new();
    let mut i: usize = 0;
    while i < v.len()
        invariant
            0 <= i <= v.len(),
            out@ =~= v@.subrange(0, i as int),
        decreases v.len() - i,
    {
        out.push(v[i].clone());
        i += 1;
    }
    assert(out@ =~= v@);
    out
}

impl Clone for VertexLayout {
    fn clone(&self) -> (r: Self)
        ensures
            layout_eqv(r, *self),
    {
        match self {
            VertexLayout::Linear { order } => {
                let mut out: Vec<(String, u64)> = Vec::new();
                let mut i: usize = 0;
                while i < order.len()
                    invariant
                        0 <= i <= order.len(),
                        out@ =~= order@.subrange(0, i as int),
                    decreases order.len() - i,
                {
                    out.push((order[i].0.clone(), order[i].1));
                    i += 1;
                }
                assert(out@ =~= order@);
                VertexLayout::Linear { order: out }
            },
            VertexLayout::Canvas { positions } => {
                let mut out: Vec<(String, i64, i64)> = Vec::new();
                let mut i: usize = 0;
                while i < positions.len()
                    invariant
                        0 <= i <= positions.len(),
                        out@ =~= positions@.subrange(0, i as int),
                    decreases positions.len() - i,
                {
                    out.push((positions[i].0.clone(), positions[i].1, positions[i].2));
                    i += 1;
                }
                assert(out@ =~= positions@);
                VertexLayout::Canvas { positions: out }
            },
        }
    }
}

pub fn clone_opt_layout(o: &Option<VertexLayout>) -> (r: Option<VertexLayout>)
    ensures
        opt_layout_eqv(r, *o),
{
    match o {
        Option::None => Option::None,
        Option::Some(l) => Option::Some(l.clone()),
    }
}

impl Clone for VertexRecord {
    fn clone(&self) -> (r: Self)
        ensures
            rec_eqv(r, *self),
    {
        VertexRecord {
            id: self.id.clone(),
            title: self.title.clone(),
            parent_id: clone_opt_string(&self.parent_id),
            workspace_id: clone_opt_string(&self.workspace_id),
            created_at: self.created_at,
            updated_at: self.updated_at,
            tags: clone_string_vec(&self.tags),
            references: clone_refs(&self.references),
            layout: clone_opt_layout(&self.layout),
            default_tab: clone_opt_string(&self.default_tab),
            is_leaf: self.is_leaf,
            thumbnail_path: clone_opt_string(&self.thumbnail_path),
            thumbnail_alt: clone_opt_string(&self.thumbnail_alt),
        }
    }
}

impl Clone for Workspace {
    fn clone(&self) -> (r: Self)
        ensures
            ws_eqv(r, *self),
    {
        Workspace {
            id: self.id.clone(),
            name: self.name.clone(),
            path: self.path.clone(),
            purpose: clone_opt_string(&self.purpose),
            created_at: self.created_at,
            updated_at: self.updated_at,
            tags: clone_string_vec(&self.tags),
        }
    }
}

impl Clone for Project {
    fn clone(&self) -> (r: Self)
        ensures
            proj_eqv(r, *self),
    {
        Project {
            id: self.id.clone(),
            title: self.title.clone(),
            created_at: self.created_at,
            updated_at: self.updated_at,
            tags: clone_string_vec(&self.tags),
            status: self.status.clone(),
        }
    }
}

pub fn clone_bytes(v: &Vec<u8>) -> (r: Vec<u8>)
    ensures
        r@ == v@,
{
    let mut out: Vec<u8> = Vec::new();
    let mut i: usize = 0;
    while i < v.len()
        invariant
            0 <= i <= v.len(),
            out@ =~= v@.subrange(0, i as int),
        decreases v.len() - i,
    {
        out.push(v[i]);
        i += 1;
    }
    assert(out@ =~= v@);
    out
}

} // verus!
