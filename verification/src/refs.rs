use vstd::prelude::*;

use crate::record::{AssetSource, FileBody, RefFile, Reference, clone_bytes, clone_opt_string};
use crate::text::{dec_str, ext_of, ext_of_spec, is_digit_char, trim, trim_spec};

verus! {

// ---------------------------------------------------------------------------
// Index-based file names of a references directory.
//
// Reference `i` owns at most two files: its metadata record
// `reference_<i>.json` and one payload file (`note_<i>.md`, `url_<i>.txt`,
// or an asset copy `image_<i>.<ext>` / `file_<i>.<ext>`). Vertex links own
// the metadata file alone.
// ---------------------------------------------------------------------------

pub open spec fn meta_name_spec(i: nat) -> Seq<char> {
    "reference_"@ + dec_str(i) + ".json"@
}

pub open spec fn note_name_spec(i: nat) -> Seq<char> {
    "note_"@ + dec_str(i) + ".md"@
}

pub open spec fn url_name_spec(i: nat) -> Seq<char> {
    "url_"@ + dec_str(i) + ".txt"@
}

/// How many files reference `i` of `refs` materializes to.
pub open spec fn file_count(r: Reference) -> int {
    if r is VertexLink {
        1
    } else {
        2
    }
}

/// How many files the first `i` references materialize to; also the index
/// of reference `i`'s metadata file in the flat directory listing.
pub open spec fn files_before(refs: Seq<Reference>, i: int) -> int
    decreases i,
{
    if i <= 0 {
        0
    } else {
        files_before(refs, i - 1) + file_count(refs[i - 1])
    }
}

/// The metadata file of reference `i` sits at its slot, named by index, and
/// holds the reference record itself.
pub open spec fn meta_slot_ok(refs: Seq<Reference>, out: Seq<RefFile>, i: int) -> bool {
    let f = out[files_before(refs, i)];
    &&& f.name@ == meta_name_spec(i as nat)
    &&& match f.body {
        FileBody::Meta(r) => r == refs[i],
        _ => false,
    }
}

/// The payload file of reference `i` (when its kind owns one) follows the
/// metadata file directly: a markdown note body, a URL line, a copied asset
/// keeping the source extension, or — when the source file is absent — the
/// literal source path as a text placeholder.
pub open spec fn payload_slot_ok(
    refs: Seq<Reference>,
    assets: Seq<AssetSource>,
    out: Seq<RefFile>,
    i: int,
) -> bool {
    let f = out[files_before(refs, i) + 1];
    match refs[i] {
        Reference::VertexLink { .. } => true,
        Reference::Note { text, .. } => {
            &&& f.name@ == note_name_spec(i as nat)
            &&& match f.body {
                FileBody::Text(t) => t == text,
                _ => false,
            }
        },
        Reference::Url { url, .. } => {
            &&& f.name@ == url_name_spec(i as nat)
            &&& match f.body {
                FileBody::Text(t) => t == url,
                _ => false,
            }
        },
        Reference::Image { path, .. } => match assets[i] {
            AssetSource::Bytes(b) => {
                &&& f.name@ == "image_"@ + dec_str(i as nat) + "."@ + ext_of_spec(path@)
                &&& match f.body {
                    FileBody::Bytes(x) => x@ == b@,
                    _ => false,
                }
            },
            AssetSource::Missing => {
                &&& f.name@ == "image_"@ + dec_str(i as nat) + ".txt"@
                &&& match f.body {
                    FileBody::Text(t) => t == path,
                    _ => false,
                }
            },
        },
        Reference::File { path, .. } => match assets[i] {
            AssetSource::Bytes(b) => {
                &&& f.name@ == "file_"@ + dec_str(i as nat) + "."@ + ext_of_spec(path@)
                &&& match f.body {
                    FileBody::Bytes(x) => x@ == b@,
                    _ => false,
                }
            },
            AssetSource::Missing => {
                &&& f.name@ == "file_"@ + dec_str(i as nat) + ".txt"@
                &&& match f.body {
                    FileBody::Text(t) => t == path,
                    _ => false,
                }
            },
        },
    }
}

/// `out` is exactly the materialization of `refs` with asset lookups
/// `assets`: nothing more, nothing less, in index order.
pub open spec fn materialized(
    refs: Seq<Reference>,
    assets: Seq<AssetSource>,
    out: Seq<RefFile>,
) -> bool {
    &&& out.len() == files_before(refs, refs.len() as int)
    &&& forall|i: int| 0 <= i < refs.len() ==> #[trigger] meta_slot_ok(refs, out, i)
    &&& forall|i: int| 0 <= i < refs.len() ==> #[trigger] payload_slot_ok(refs, assets, out, i)
}

// ---------------------------------------------------------------------------
// Directory scans.
// ---------------------------------------------------------------------------

/// The first file at or after `k` whose name is exactly `name`.
pub open spec fn find_named_from(files: Seq<RefFile>, name: Seq<char>, k: int) -> Option<int>
    decreases files.len() - k,
{
    if k < 0 || k >= files.len() {
        Option::None
    } else if files[k].name@ == name {
        Option::Some(k)
    } else {
        find_named_from(files, name, k + 1)
    }
}

/// The first file at or after `k` whose name starts with `prefix` and is not
/// the metadata file `skip`.
pub open spec fn find_prefixed_from(
    files: Seq<RefFile>,
    prefix: Seq<char>,
    skip: Seq<char>,
    k: int,
) -> Option<int>
    decreases files.len() - k,
{
    if k < 0 || k >= files.len() {
        Option::None
    } else if prefix.is_prefix_of(files[k].name@) && files[k].name@ != skip {
        Option::Some(k)
    } else {
        find_prefixed_from(files, prefix, skip, k + 1)
    }
}

pub open spec fn idx_matches(r: Option<usize>, s: Option<int>) -> bool {
    match (r, s) {
        (Option::None, Option::None) => true,
        (Option::Some(a), Option::Some(b)) => a as int == b,
        _ => false,
    }
}

fn find_named_exec(files: &Vec<RefFile>, name: &str) -> (r: Option<usize>)
    ensures
        idx_matches(r, find_named_from(files@, name@, 0)),
        r matches Option::Some(k) ==> k < files@.len(),
{
    let mut i: usize = 0;
    while i < files.len()
        invariant
            0 <= i <= files@.len(),
            find_named_from(files@, name@, 0) == find_named_from(files@, name@, i as int),
        decreases files@.len() - i,
    {
        if crate::text::str_eq(files[i].name.as_str(), name) {
            return Option::Some(i);
        }
        i += 1;
    }
    Option::None
}

fn find_prefixed_exec(files: &Vec<RefFile>, prefix: &str, skip: &str) -> (r: Option<usize>)
    ensures
        idx_matches(r, find_prefixed_from(files@, prefix@, skip@, 0)),
        r matches Option::Some(k) ==> k < files@.len(),
{
    let mut i: usize = 0;
    while i < files.len()
        invariant
            0 <= i <= files@.len(),
            find_prefixed_from(files@, prefix@, skip@, 0) == find_prefixed_from(
                files@,
                prefix@,
                skip@,
                i as int,
            ),
        decreases files@.len() - i,
    {
        if crate::text::str_starts_with(files[i].name.as_str(), prefix) && !crate::text::str_eq(
            files[i].name.as_str(),
            skip,
        ) {
            return Option::Some(i);
        }
        i += 1;
    }
    Option::None
}

// ---------------------------------------------------------------------------
// Name builders.
// ---------------------------------------------------------------------------

/// Builds `word` + decimal index + `suffix`.
pub fn make_indexed_name(word: &str, i: usize, suffix: &str) -> (r: String)
    ensures
        r@ == word@ + dec_str(i as nat) + suffix@,
{
    let mut s = String::from_str(word);
    crate::text::push_dec(&mut s, i as u64);
    s.append(suffix);
    assert(s@ =~= word@ + dec_str(i as nat) + suffix@);
    s
}

/// Builds `word` + decimal index, with no suffix.
pub fn make_prefix(word: &str, i: usize) -> (r: String)
    ensures
        r@ == word@ + dec_str(i as nat),
{
    let mut s = String::from_str(word);
    crate::text::push_dec(&mut s, i as u64);
    assert(s@ =~= word@ + dec_str(i as nat));
    s
}

// ---------------------------------------------------------------------------
// Materialization: in-memory references to directory contents.
// ---------------------------------------------------------------------------

fn asset_payload(word: &str, path: &String, asset: &AssetSource, i: usize) -> (f: RefFile)
    ensures
        match *asset {
            AssetSource::Bytes(b) => f.name@ == word@ + dec_str(i as nat) + "."@ + ext_of_spec(
                path@,
            ) && match f.body {
                FileBody::Bytes(x) => x@ == b@,
                _ => false,
            },
            AssetSource::Missing => f.name@ == word@ + dec_str(i as nat) + ".txt"@ && match f
                .body {
                FileBody::Text(t) => t == *path,
                _ => false,
            },
        },
{
    match asset {
        AssetSource::Bytes(b) => {
            let ext = ext_of(path.as_str());
            let mut name = make_prefix(word, i);
            name.append(".");
            name.append(ext.as_str());
            assert(name@ =~= word@ + dec_str(i as nat) + "."@ + ext_of_spec(path@));
            RefFile { name, body: FileBody::Bytes(clone_bytes(b)) }
        },
        AssetSource::Missing => {
            let name = make_indexed_name(word, i, ".txt");
            RefFile { name, body: FileBody::Text(path.clone()) }
        },
    }
}

/// Slot facts survive appending further files to the listing.
proof fn lemma_slots_stable(
    refs: Seq<Reference>,
    assets: Seq<AssetSource>,
    a: Seq<RefFile>,
    b: Seq<RefFile>,
    i: int,
)
    requires
        0 <= i <= refs.len(),
        a.len() == files_before(refs, i),
        forall|k: int| 0 <= k < a.len() ==> #[trigger] b[k] == a[k],
        forall|j: int| 0 <= j < i ==> #[trigger] meta_slot_ok(refs, a, j),
        forall|j: int| 0 <= j < i ==> #[trigger] payload_slot_ok(refs, assets, a, j),
    ensures
        forall|j: int| 0 <= j < i ==> #[trigger] meta_slot_ok(refs, b, j),
        forall|j: int| 0 <= j < i ==> #[trigger] payload_slot_ok(refs, assets, b, j),
{
    assert forall|j: int| 0 <= j < i implies #[trigger] meta_slot_ok(refs, b, j) by {
        lemma_files_before_mono(refs, 0, j);
        lemma_files_before_mono(refs, j + 1, i);
        assert(files_before(refs, j) >= 0);
        assert(files_before(refs, j) + file_count(refs[j]) == files_before(refs, j + 1));
        assert(file_count(refs[j]) >= 1);
        assert(files_before(refs, j) < a.len());
        assert(b[files_before(refs, j)] == a[files_before(refs, j)]);
        assert(meta_slot_ok(refs, a, j));
    }
    assert forall|j: int| 0 <= j < i implies #[trigger] payload_slot_ok(refs, assets, b, j) by {
        lemma_files_before_mono(refs, 0, j);
        lemma_files_before_mono(refs, j + 1, i);
        assert(files_before(refs, j) >= 0);
        assert(files_before(refs, j) + file_count(refs[j]) == files_before(refs, j + 1));
        assert(file_count(refs[j]) >= 1);
        assert(files_before(refs, j) < a.len());
        assert(b[files_before(refs, j)] == a[files_before(refs, j)]);
        assert(payload_slot_ok(refs, assets, a, j));
        if file_count(refs[j]) == 2 {
            assert(b[files_before(refs, j) + 1] == a[files_before(refs, j) + 1]);
        }
    }
}

/// Appends the metadata file and the payload file of reference `i`.
fn push_slot(out: &mut Vec<RefFile>, refs: &Vec<Reference>, assets: &Vec<AssetSource>, i: usize)
    requires
        i < refs@.len(),
        assets@.len() == refs@.len(),
        old(out)@.len() == files_before(refs@, i as int),
    ensures
        final(out)@.len() == files_before(refs@, i as int + 1),
        forall|k: int| 0 <= k < old(out)@.len() ==> final(out)@[k] == old(out)@[k],
        meta_slot_ok(refs@, final(out)@, i as int),
        payload_slot_ok(refs@, assets@, final(out)@, i as int),
{
    let ghost prev = out@;
    let meta = RefFile {
        name: make_indexed_name("reference_", i, ".json"),
        body: FileBody::Meta(refs[i].clone()),
    };
    out.push(meta);
    match &refs[i] {
        Reference::VertexLink { .. } => {},
        Reference::Note { text, .. } => {
            let f = RefFile {
                name: make_indexed_name("note_", i, ".md"),
                body: FileBody::Text(text.clone()),
            };
            out.push(f);
        },
        Reference::Url { url, .. } => {
            let f = RefFile {
                name: make_indexed_name("url_", i, ".txt"),
                body: FileBody::Text(url.clone()),
            };
            out.push(f);
        },
        Reference::Image { path, .. } => {
            let f = asset_payload("image_", path, &assets[i], i);
            out.push(f);
        },
        Reference::File { path, .. } => {
            let f = asset_payload("file_", path, &assets[i], i);
            out.push(f);
        },
    }
    proof {
        assert(files_before(refs@, i as int + 1) == files_before(refs@, i as int) + file_count(
            refs@[i as int],
        ));
        assert(out@[files_before(refs@, i as int)] == prev.push(out@[prev.len() as int])[prev.len() as int]);
        assert(meta_slot_ok(refs@, out@, i as int));
        assert(payload_slot_ok(refs@, assets@, out@, i as int));
    }
}

/// Materializes a reference list into the flat contents of a fresh
/// references directory. The caller replaces any previous directory
/// contents wholesale with the result.
pub fn materialize(refs: &Vec<Reference>, assets: &Vec<AssetSource>) -> (out: Vec<RefFile>)
    requires
        assets@.len() == refs@.len(),
    ensures
        materialized(refs@, assets@, out@),
{
    let mut out: Vec<RefFile> = Vec::new();
    let mut i: usize = 0;
    while i < refs.len()
        invariant
            assets@.len() == refs@.len(),
            0 <= i <= refs@.len(),
            out@.len() == files_before(refs@, i as int),
            forall|j: int| 0 <= j < i ==> #[trigger] meta_slot_ok(refs@, out@, j),
            forall|j: int| 0 <= j < i ==> #[trigger] payload_slot_ok(refs@, assets@, out@, j),
        decreases refs@.len() - i,
    {
        let ghost prev = out@;
        push_slot(&mut out, refs, assets, i);
        proof {
            lemma_slots_stable(refs@, assets@, prev, out@, i as int);
        }
        i += 1;
    }
    out
}

/// `files_before` never shrinks as more references are counted.
pub proof fn lemma_files_before_mono(refs: Seq<Reference>, a: int, b: int)
    requires
        a <= b,
    ensures
        files_before(refs, a) <= files_before(refs, b),
    decreases b - a,
{
    if a < b {
        lemma_files_before_mono(refs, a, b - 1);
    }
}

// ---------------------------------------------------------------------------
// Hydration: directory contents back into in-memory references.
// ---------------------------------------------------------------------------

/// The on-disk location of a payload file, as resolved into a hydrated
/// reference: the vertex directory, the references directory, the file.
pub open spec fn loc_of(dir: Seq<char>, name: Seq<char>) -> Seq<char> {
    dir + "/references/"@ + name
}

/// What hydration leaves in place of reference `i`. A vertex link is left
/// untouched. A note rereads its markdown body; a URL rereads its text line,
/// trimmed of surrounding whitespace. An asset scans the directory for the
/// first file carrying its index prefix (other than its own metadata file)
/// and rewrites the path field to that file's on-disk location. A missing
/// payload file leaves the reference as it was.
pub open spec fn hydrate_one_ok(
    orig: Reference,
    res: Reference,
    files: Seq<RefFile>,
    dir: Seq<char>,
    i: int,
) -> bool {
    match orig {
        Reference::VertexLink { .. } => res == orig,
        Reference::Note { text, created_at } => match find_named_from(
            files,
            note_name_spec(i as nat),
            0,
        ) {
            Option::Some(k) => match files[k].body {
                FileBody::Text(t) => res == (Reference::Note { text: t, created_at }),
                _ => res == orig,
            },
            Option::None => res == orig,
        },
        Reference::Url { url, title } => match find_named_from(
            files,
            url_name_spec(i as nat),
            0,
        ) {
            Option::Some(k) => match files[k].body {
                FileBody::Text(t) => match res {
                    Reference::Url { url: ru, title: rt } => ru@ == trim_spec(t@) && rt == title,
                    _ => false,
                },
                _ => res == orig,
            },
            Option::None => res == orig,
        },
        Reference::Image { path: _, alt, description } => match find_prefixed_from(
            files,
            "image_"@ + dec_str(i as nat),
            meta_name_spec(i as nat),
            0,
        ) {
            Option::Some(k) => match res {
                Reference::Image { path: rp, alt: ra, description: rd } => {
                    &&& rp@ == loc_of(dir, files[k].name@)
                    &&& ra == alt
                    &&& rd == description
                },
                _ => false,
            },
            Option::None => res == orig,
        },
        Reference::File { path: _, alt, extension, icon_path } => match find_prefixed_from(
            files,
            "file_"@ + dec_str(i as nat),
            meta_name_spec(i as nat),
            0,
        ) {
            Option::Some(k) => match res {
                Reference::File { path: rp, alt: ra, extension: re, icon_path: ri } => {
                    &&& rp@ == loc_of(dir, files[k].name@)
                    &&& ra == alt
                    &&& re == extension
                    &&& ri == icon_path
                },
                _ => false,
            },
            Option::None => res == orig,
        },
    }
}

pub open spec fn hydrated(
    refs: Seq<Reference>,
    res: Seq<Reference>,
    files: Seq<RefFile>,
    dir: Seq<char>,
) -> bool {
    &&& res.len() == refs.len()
    &&& forall|i: int|
        0 <= i < refs.len() ==> #[trigger] hydrate_one_ok(refs[i], res[i], files, dir, i)
}

fn resolve_loc(vertex_dir: &str, name: &String) -> (r: String)
    ensures
        r@ == loc_of(vertex_dir@, name@),
{
    let mut p = String::from_str(vertex_dir);
    p.append("/references/");
    p.append(name.as_str());
    assert(p@ =~= loc_of(vertex_dir@, name@));
    p
}

/// Rebuilds in-memory payload fields of `refs` from the files of the vertex's
/// references directory. `files` is the directory's listing; an absent
/// directory is the empty listing, a no-op.
pub fn hydrate(refs: &Vec<Reference>, files: &Vec<RefFile>, vertex_dir: &str) -> (out: Vec<
    Reference,
>)
    ensures
        hydrated(refs@, out@, files@, vertex_dir@),
{
    let mut out: Vec<Reference> = Vec::new();
    let mut i: usize = 0;
    while i < refs.len()
        invariant
            0 <= i <= refs@.len(),
            out@.len() == i,
            forall|j: int|
                0 <= j < i ==> #[trigger] hydrate_one_ok(
                    refs@[j],
                    out@[j],
                    files@,
                    vertex_dir@,
                    j,
                ),
        decreases refs@.len() - i,
    {
        let res: Reference = match &refs[i] {
            Reference::VertexLink { .. } => refs[i].clone(),
            Reference::Note { text: _, created_at } => {
                let name = make_indexed_name("note_", i, ".md");
                match find_named_exec(files, name.as_str()) {
                    Option::Some(k) => match &files[k].body {
                        FileBody::Text(t) => Reference::Note {
                            text: t.clone(),
                            created_at: *created_at,
                        },
                        _ => refs[i].clone(),
                    },
                    Option::None => refs[i].clone(),
                }
            },
            Reference::Url { url: _, title } => {
                let name = make_indexed_name("url_", i, ".txt");
                match find_named_exec(files, name.as_str()) {
                    Option::Some(k) => match &files[k].body {
                        FileBody::Text(t) => Reference::Url {
                            url: trim(t.as_str()),
                            title: clone_opt_string(title),
                        },
                        _ => refs[i].clone(),
                    },
                    Option::None => refs[i].clone(),
                }
            },
            Reference::Image { path: _, alt, description } => {
                let prefix = make_prefix("image_", i);
                let skip = make_indexed_name("reference_", i, ".json");
                match find_prefixed_exec(files, prefix.as_str(), skip.as_str()) {
                    Option::Some(k) => Reference::Image {
                        path: resolve_loc(vertex_dir, &files[k].name),
                        alt: clone_opt_string(alt),
                        description: clone_opt_string(description),
                    },
                    Option::None => refs[i].clone(),
                }
            },
            Reference::File { path: _, alt, extension, icon_path } => {
                let prefix = make_prefix("file_", i);
                let skip = make_indexed_name("reference_", i, ".json");
                match find_prefixed_exec(files, prefix.as_str(), skip.as_str()) {
                    Option::Some(k) => Reference::File {
                        path: resolve_loc(vertex_dir, &files[k].name),
                        alt: clone_opt_string(alt),
                        extension: clone_opt_string(extension),
                        icon_path: clone_opt_string(icon_path),
                    },
                    Option::None => refs[i].clone(),
                }
            },
        };
        out.push(res);
        i += 1;
    }
    out
}

// ---------------------------------------------------------------------------
// Laws of materialization and hydration.
// ---------------------------------------------------------------------------

/// Which reference owns the file at flat index `m`: its metadata slot, or its
/// payload slot when its kind carries one.
pub open spec fn owns_slot(refs: Seq<Reference>, q: int, m: int) -> bool {
    m == files_before(refs, q) || (file_count(refs[q]) == 2 && m == files_before(refs, q) + 1)
}

/// Every file of a materialized directory belongs to some reference below `i`.
pub proof fn lemma_slot_cover(refs: Seq<Reference>, i: int, m: int)
    requires
        0 <= i <= refs.len(),
        0 <= m < files_before(refs, i),
    ensures
        exists|q: int| 0 <= q < i && #[trigger] owns_slot(refs, q, m),
    decreases i,
{
    if i <= 0 {
    } else {
        if m >= files_before(refs, i - 1) {
            assert(files_before(refs, i) == files_before(refs, i - 1) + file_count(
                refs[i - 1],
            ));
            assert(owns_slot(refs, i - 1, m));
        } else {
            lemma_slot_cover(refs, i - 1, m);
            let q = choose|q: int| 0 <= q < i - 1 && #[trigger] owns_slot(refs, q, m);
            assert(owns_slot(refs, q, m));
        }
    }
}

/// The first characters and lengths of the name words.
proof fn lemma_words()
    ensures
        "reference_"@.len() == 10,
        "reference_"@[0] == 'r',
        "note_"@.len() == 5,
        "note_"@[0] == 'n',
        "url_"@.len() == 4,
        "url_"@[0] == 'u',
        "image_"@.len() == 6,
        "image_"@[0] == 'i',
        "file_"@.len() == 5,
        "file_"@[0] == 'f',
        ".json"@.len() == 5,
        ".json"@[0] == '.',
        ".md"@.len() == 3,
        ".md"@[0] == '.',
        ".txt"@.len() == 4,
        ".txt"@[0] == '.',
        "."@.len() == 1,
        "."@[0] == '.',
{
    reveal_strlit("reference_");
    reveal_strlit("note_");
    reveal_strlit("url_");
    reveal_strlit("image_");
    reveal_strlit("file_");
    reveal_strlit(".json");
    reveal_strlit(".md");
    reveal_strlit(".txt");
    reveal_strlit(".");
}

/// Two index-named files coincide only when both their words and their
/// indices coincide.
proof fn lemma_names_differ(w1: Seq<char>, i: nat, s1: Seq<char>, w2: Seq<char>, q: nat, s2: Seq<char>)
    requires
        w1.len() > 0,
        w2.len() > 0,
        (w1[0] != w2[0]) || (w1 == w2 && s1 == s2 && i != q),
    ensures
        w1 + dec_str(i) + s1 != w2 + dec_str(q) + s2,
{
    let a = w1 + dec_str(i) + s1;
    let b = w2 + dec_str(q) + s2;
    if a == b {
        if w1[0] != w2[0] {
            assert(a[0] == (w1 + dec_str(i))[0]);
            assert((w1 + dec_str(i))[0] == w1[0]);
            assert(b[0] == (w2 + dec_str(q))[0]);
            assert((w2 + dec_str(q))[0] == w2[0]);
            assert(false);
        } else {
            crate::text::lemma_dec_str_bounds(i);
            crate::text::lemma_dec_str_bounds(q);
            let di = dec_str(i);
            let dq = dec_str(q);
            assert(a.len() == w1.len() + di.len() + s1.len());
            assert(b.len() == w1.len() + dq.len() + s1.len());
            assert(di.len() == dq.len());
            assert forall|k: int| 0 <= k < di.len() implies di[k] == dq[k] by {
                assert(a[w1.len() + k] == (w1 + di)[w1.len() + k]);
                assert((w1 + di)[w1.len() + k] == di[k]);
                assert(b[w1.len() + k] == (w1 + dq)[w1.len() + k]);
                assert((w1 + dq)[w1.len() + k] == dq[k]);
            }
            assert(di =~= dq);
            crate::text::lemma_dec_str_injective(i, q);
            assert(false);
        }
    }
}

/// An index prefix of one reference never matches the payload file of a
/// lower-indexed reference, whatever that file's extension.
proof fn lemma_prefix_no_match(w1: Seq<char>, i: nat, w2: Seq<char>, q: nat, s2: Seq<char>)
    requires
        (w1.len() > 0 && w2.len() > 0 && w1[0] != w2[0]) || (w1 == w2 && w1.len() > 0 && q < i
            && s2.len() > 0 && s2[0] == '.'),
    ensures
        !(w1 + dec_str(i)).is_prefix_of(w2 + dec_str(q) + s2),
{
    let p = w1 + dec_str(i);
    let n = w2 + dec_str(q) + s2;
    crate::text::lemma_dec_str_bounds(i);
    crate::text::lemma_dec_str_bounds(q);
    crate::text::lemma_dec_str_digits(i);
    if p.is_prefix_of(n) {
        assert(p.len() <= n.len());
        assert(p =~= n.subrange(0, p.len() as int));
        if w1[0] != w2[0] {
            assert(p[0] == w1[0]);
            assert(n[0] == (w2 + dec_str(q))[0]);
            assert((w2 + dec_str(q))[0] == w2[0]);
            assert(p[0] == n.subrange(0, p.len() as int)[0]);
            assert(false);
        } else {
            let wl = w1.len();
            let di = dec_str(i);
            let dq = dec_str(q);
            if di.len() <= dq.len() {
                assert forall|k: int| 0 <= k < di.len() implies di[k] == dq[k] by {
                    assert(p[wl + k] == di[k]);
                    assert(p[wl + k] == n[wl + k]);
                    assert(n[wl + k] == (w1 + dq)[wl + k]);
                    assert((w1 + dq)[wl + k] == dq[k]);
                }
                assert(di =~= dq.subrange(0, di.len() as int));
                assert(di.is_prefix_of(dq));
                if i == q {
                    assert(false);
                } else {
                    crate::text::lemma_dec_str_prefix(i, q);
                    assert(false);
                }
            } else {
                let k = dq.len() as int;
                assert(p[wl + k] == di[k]);
                assert(is_digit_char(di[k]));
                assert(p[wl + k] == n[wl + k]);
                assert(n[wl + k] == s2[0]) by {
                    assert(n[wl + k] == (w1 + dq + s2)[wl + k]);
                    assert((w1 + dq).len() == wl + k);
                }
                assert(false);
            }
        }
    }
}

/// A first-match scan lands exactly on the first matching file.
proof fn lemma_find_named_is(files: Seq<RefFile>, name: Seq<char>, k: int, t: int)
    requires
        0 <= k <= t < files.len(),
        files[t].name@ == name,
        forall|m: int| k <= m < t ==> (#[trigger] files[m]).name@ != name,
    ensures
        find_named_from(files, name, k) == Option::Some(t),
    decreases t - k,
{
    if k < t {
        lemma_find_named_is(files, name, k + 1, t);
    }
}

proof fn lemma_find_prefixed_is(
    files: Seq<RefFile>,
    prefix: Seq<char>,
    skip: Seq<char>,
    k: int,
    t: int,
)
    requires
        0 <= k <= t < files.len(),
        prefix.is_prefix_of(files[t].name@),
        files[t].name@ != skip,
        forall|m: int|
            k <= m < t ==> !(prefix.is_prefix_of((#[trigger] files[m]).name@) && files[m].name@
                != skip),
    ensures
        find_prefixed_from(files, prefix, skip, k) == Option::Some(t),
    decreases t - k,
{
    if k < t {
        lemma_find_prefixed_is(files, prefix, skip, k + 1, t);
    }
}

/// The payload slot of reference `i` is within the listing, and every file
/// before it belongs to a reference at or below `i`.
proof fn lemma_slot_geometry(refs: Seq<Reference>, assets: Seq<AssetSource>, out: Seq<RefFile>, i: int)
    requires
        materialized(refs, assets, out),
        0 <= i < refs.len(),
    ensures
        0 <= files_before(refs, i),
        files_before(refs, i) + file_count(refs[i]) <= out.len(),
        forall|q: int|
            0 <= q <= i ==> 0 <= files_before(refs, q) && #[trigger] files_before(refs, q)
                + file_count(refs[q]) <= out.len(),
{
    assert forall|q: int|
        0 <= q <= i implies 0 <= files_before(refs, q) && #[trigger] files_before(refs, q)
        + file_count(refs[q]) <= out.len() by {
        lemma_files_before_mono(refs, 0, q);
        assert(files_before(refs, q) + file_count(refs[q]) == files_before(refs, q + 1));
        lemma_files_before_mono(refs, q + 1, refs.len() as int);
    }
}

/// The name of the file at `m`, for each way reference `q` can own slot `m`,
/// written as word + index + suffix.
proof fn lemma_slot_name_shape(
    refs: Seq<Reference>,
    assets: Seq<AssetSource>,
    out: Seq<RefFile>,
    q: int,
    m: int,
)
    requires
        materialized(refs, assets, out),
        0 <= q < refs.len(),
        owns_slot(refs, q, m),
    ensures
        m == files_before(refs, q) ==> out[m].name@ == "reference_"@ + dec_str(q as nat)
            + ".json"@,
        m != files_before(refs, q) ==> match refs[q] {
            Reference::VertexLink { .. } => false,
            Reference::Note { .. } => out[m].name@ == "note_"@ + dec_str(q as nat) + ".md"@,
            Reference::Url { .. } => out[m].name@ == "url_"@ + dec_str(q as nat) + ".txt"@,
            Reference::Image { path, .. } => match assets[q] {
                AssetSource::Bytes(_) => out[m].name@ == "image_"@ + dec_str(q as nat) + (
                "."@ + ext_of_spec(path@)),
                AssetSource::Missing => out[m].name@ == "image_"@ + dec_str(q as nat)
                    + ".txt"@,
            },
            Reference::File { path, .. } => match assets[q] {
                AssetSource::Bytes(_) => out[m].name@ == "file_"@ + dec_str(q as nat) + ("."@
                    + ext_of_spec(path@)),
                AssetSource::Missing => out[m].name@ == "file_"@ + dec_str(q as nat) + ".txt"@,
            },
        },
{
    assert(meta_slot_ok(refs, out, q));
    assert(payload_slot_ok(refs, assets, out, q));
    if m != files_before(refs, q) {
        match refs[q] {
            Reference::Image { path, .. } => match assets[q] {
                AssetSource::Bytes(_) => {
                    assert("image_"@ + dec_str(q as nat) + "."@ + ext_of_spec(path@) =~= "image_"@
                        + dec_str(q as nat) + ("."@ + ext_of_spec(path@)));
                },
                AssetSource::Missing => {},
            },
            Reference::File { path, .. } => match assets[q] {
                AssetSource::Bytes(_) => {
                    assert("file_"@ + dec_str(q as nat) + "."@ + ext_of_spec(path@) =~= "file_"@
                        + dec_str(q as nat) + ("."@ + ext_of_spec(path@)));
                },
                AssetSource::Missing => {},
            },
            _ => {},
        }
    }
}

/// No file before the payload slot of reference `i` carries the exact name
/// `w + i + s`, where `w`/`s` name a payload kind (first letter not 'r').
proof fn lemma_no_early_exact(
    refs: Seq<Reference>,
    assets: Seq<AssetSource>,
    out: Seq<RefFile>,
    i: int,
    w: Seq<char>,
    s: Seq<char>,
    m: int,
)
    requires
        materialized(refs, assets, out),
        0 <= i < refs.len(),
        0 <= m < files_before(refs, i) + 1,
        w.len() > 0,
        (w == "note_"@ && s == ".md"@) || (w == "url_"@ && s == ".txt"@),
    ensures
        out[m].name@ != w + dec_str(i as nat) + s,
{
    lemma_words();
    lemma_slot_geometry(refs, assets, out, i);
    lemma_slot_cover(refs, i + 1, m);
    let q = choose|q: int| 0 <= q < i + 1 && #[trigger] owns_slot(refs, q, m);
    lemma_slot_name_shape(refs, assets, out, q, m);
    if m == files_before(refs, q) {
        lemma_names_differ(w, i as nat, s, "reference_"@, q as nat, ".json"@);
    } else {
        assert(q < i);
        if q < i {
            match refs[q] {
                Reference::VertexLink { .. } => {},
                Reference::Note { .. } => {
                    lemma_names_differ(w, i as nat, s, "note_"@, q as nat, ".md"@);
                },
                Reference::Url { .. } => {
                    lemma_names_differ(w, i as nat, s, "url_"@, q as nat, ".txt"@);
                },
                Reference::Image { path, .. } => match assets[q] {
                    AssetSource::Bytes(_) => {
                        lemma_names_differ(
                            w,
                            i as nat,
                            s,
                            "image_"@,
                            q as nat,
                            "."@ + ext_of_spec(path@),
                        );
                    },
                    AssetSource::Missing => {
                        lemma_names_differ(w, i as nat, s, "image_"@, q as nat, ".txt"@);
                    },
                },
                Reference::File { path, .. } => match assets[q] {
                    AssetSource::Bytes(_) => {
                        lemma_names_differ(
                            w,
                            i as nat,
                            s,
                            "file_"@,
                            q as nat,
                            "."@ + ext_of_spec(path@),
                        );
                    },
                    AssetSource::Missing => {
                        lemma_names_differ(w, i as nat, s, "file_"@, q as nat, ".txt"@);
                    },
                },
            }
        }
    }
}

/// No file before the payload slot of reference `i` even matches its index
/// prefix.
proof fn lemma_no_early_prefixed(
    refs: Seq<Reference>,
    assets: Seq<AssetSource>,
    out: Seq<RefFile>,
    i: int,
    w: Seq<char>,
    m: int,
)
    requires
        materialized(refs, assets, out),
        0 <= i < refs.len(),
        0 <= m < files_before(refs, i) + 1,
        w == "image_"@ || w == "file_"@,
    ensures
        !(w + dec_str(i as nat)).is_prefix_of(out[m].name@),
{
    lemma_words();
    lemma_slot_geometry(refs, assets, out, i);
    lemma_slot_cover(refs, i + 1, m);
    let q = choose|q: int| 0 <= q < i + 1 && #[trigger] owns_slot(refs, q, m);
    lemma_slot_name_shape(refs, assets, out, q, m);
    if m == files_before(refs, q) {
        lemma_prefix_no_match(w, i as nat, "reference_"@, q as nat, ".json"@);
    } else {
        assert(q < i);
        match refs[q] {
            Reference::VertexLink { .. } => {},
            Reference::Note { .. } => {
                lemma_prefix_no_match(w, i as nat, "note_"@, q as nat, ".md"@);
            },
            Reference::Url { .. } => {
                lemma_prefix_no_match(w, i as nat, "url_"@, q as nat, ".txt"@);
            },
            Reference::Image { path, .. } => match assets[q] {
                AssetSource::Bytes(_) => {
                    assert(("."@ + ext_of_spec(path@))[0] == '.');
                    lemma_prefix_no_match(
                        w,
                        i as nat,
                        "image_"@,
                        q as nat,
                        "."@ + ext_of_spec(path@),
                    );
                },
                AssetSource::Missing => {
                    lemma_prefix_no_match(w, i as nat, "image_"@, q as nat, ".txt"@);
                },
            },
            Reference::File { path, .. } => match assets[q] {
                AssetSource::Bytes(_) => {
                    assert(("."@ + ext_of_spec(path@))[0] == '.');
                    lemma_prefix_no_match(
                        w,
                        i as nat,
                        "file_"@,
                        q as nat,
                        "."@ + ext_of_spec(path@),
                    );
                },
                AssetSource::Missing => {
                    lemma_prefix_no_match(w, i as nat, "file_"@, q as nat, ".txt"@);
                },
            },
        }
    }
}

/// The exact-name scan for a note or url payload lands on its own slot.
proof fn lemma_text_first_match(
    refs: Seq<Reference>,
    assets: Seq<AssetSource>,
    out: Seq<RefFile>,
    i: int,
    w: Seq<char>,
    s: Seq<char>,
)
    requires
        materialized(refs, assets, out),
        0 <= i < refs.len(),
        (w == "note_"@ && s == ".md"@ && refs[i] is Note) || (w == "url_"@ && s == ".txt"@
            && refs[i] is Url),
    ensures
        find_named_from(out, w + dec_str(i as nat) + s, 0) == Option::Some(
            files_before(refs, i) + 1,
        ),
{
    lemma_words();
    lemma_slot_geometry(refs, assets, out, i);
    let t = files_before(refs, i) + 1;
    let nm = w + dec_str(i as nat) + s;
    assert(payload_slot_ok(refs, assets, out, i));
    assert(out[t].name@ == nm);
    assert forall|m: int| 0 <= m < t implies (#[trigger] out[m]).name@ != nm by {
        lemma_no_early_exact(refs, assets, out, i, w, s, m);
    }
    lemma_find_named_is(out, nm, 0, t);
}

/// The prefix scan for an asset payload lands on its own slot.
proof fn lemma_asset_first_match(
    refs: Seq<Reference>,
    assets: Seq<AssetSource>,
    out: Seq<RefFile>,
    i: int,
    w: Seq<char>,
)
    requires
        materialized(refs, assets, out),
        0 <= i < refs.len(),
        (w == "image_"@ && refs[i] is Image) || (w == "file_"@ && refs[i] is File),
    ensures
        find_prefixed_from(out, w + dec_str(i as nat), meta_name_spec(i as nat), 0)
            == Option::Some(files_before(refs, i) + 1),
{
    lemma_words();
    lemma_slot_geometry(refs, assets, out, i);
    let t = files_before(refs, i) + 1;
    let p = w + dec_str(i as nat);
    assert(payload_slot_ok(refs, assets, out, i));
    lemma_slot_name_shape(refs, assets, out, i, t);
    assert(p.is_prefix_of(out[t].name@)) by {
        match refs[i as int] {
            Reference::Image { path, .. } => match assets[i as int] {
                AssetSource::Bytes(_) => {
                    assert(out[t].name@.subrange(0, p.len() as int) =~= p);
                },
                AssetSource::Missing => {
                    assert(out[t].name@.subrange(0, p.len() as int) =~= p);
                },
            },
            Reference::File { path, .. } => match assets[i as int] {
                AssetSource::Bytes(_) => {
                    assert(out[t].name@.subrange(0, p.len() as int) =~= p);
                },
                AssetSource::Missing => {
                    assert(out[t].name@.subrange(0, p.len() as int) =~= p);
                },
            },
            _ => {},
        }
    }
    assert(out[t].name@ != meta_name_spec(i as nat)) by {
        if refs[i as int] is Image {
            match assets[i as int] {
                AssetSource::Bytes(_) => {},
                AssetSource::Missing => {},
            }
        }
        match refs[i as int] {
            Reference::Image { path, .. } => match assets[i as int] {
                AssetSource::Bytes(_) => {
                    lemma_names_differ(
                        "image_"@,
                        i as nat,
                        "."@ + ext_of_spec(path@),
                        "reference_"@,
                        i as nat,
                        ".json"@,
                    );
                },
                AssetSource::Missing => {
                    lemma_names_differ(
                        "image_"@,
                        i as nat,
                        ".txt"@,
                        "reference_"@,
                        i as nat,
                        ".json"@,
                    );
                },
            },
            Reference::File { path, .. } => match assets[i as int] {
                AssetSource::Bytes(_) => {
                    lemma_names_differ(
                        "file_"@,
                        i as nat,
                        "."@ + ext_of_spec(path@),
                        "reference_"@,
                        i as nat,
                        ".json"@,
                    );
                },
                AssetSource::Missing => {
                    lemma_names_differ(
                        "file_"@,
                        i as nat,
                        ".txt"@,
                        "reference_"@,
                        i as nat,
                        ".json"@,
                    );
                },
            },
            _ => {},
        }
    }
    assert forall|m: int|
        0 <= m < t implies !(p.is_prefix_of((#[trigger] out[m]).name@) && out[m].name@
        != meta_name_spec(i as nat)) by {
        lemma_no_early_prefixed(refs, assets, out, i, w, m);
    }
    lemma_find_prefixed_is(out, p, meta_name_spec(i as nat), 0, t);
}

/// What reading back a freshly materialized reference yields: notes and
/// vertex links verbatim, urls trimmed of surrounding whitespace, asset
/// paths resolved to the copied payload file under the vertex directory.
pub open spec fn round_trip_ok(
    orig: Reference,
    a: AssetSource,
    res: Reference,
    dir: Seq<char>,
    i: int,
) -> bool {
    match orig {
        Reference::VertexLink { .. } => res == orig,
        Reference::Note { .. } => res == orig,
        Reference::Url { url, title } => match res {
            Reference::Url { url: ru, title: rt } => ru@ == trim_spec(url@) && rt == title,
            _ => false,
        },
        Reference::Image { path, alt, description } => match res {
            Reference::Image { path: rp, alt: ra, description: rd } => {
                &&& ra == alt
                &&& rd == description
                &&& match a {
                    AssetSource::Bytes(_) => rp@ == loc_of(
                        dir,
                        "image_"@ + dec_str(i as nat) + ("."@ + ext_of_spec(path@)),
                    ),
                    AssetSource::Missing => rp@ == loc_of(
                        dir,
                        "image_"@ + dec_str(i as nat) + ".txt"@,
                    ),
                }
            },
            _ => false,
        },
        Reference::File { path, alt, extension, icon_path } => match res {
            Reference::File { path: rp, alt: ra, extension: re, icon_path: ri } => {
                &&& ra == alt
                &&& re == extension
                &&& ri == icon_path
                &&& match a {
                    AssetSource::Bytes(_) => rp@ == loc_of(
                        dir,
                        "file_"@ + dec_str(i as nat) + ("."@ + ext_of_spec(path@)),
                    ),
                    AssetSource::Missing => rp@ == loc_of(
                        dir,
                        "file_"@ + dec_str(i as nat) + ".txt"@,
                    ),
                }
            },
            _ => false,
        },
    }
}

/// Materializing a reference list and hydrating it back returns the original
/// payload values: note texts and vertex links verbatim, urls trimmed, and
/// each asset path resolved to its copied payload file, whose bytes
/// materialization preserves (`payload_slot_ok`).
pub proof fn lemma_materialize_hydrate_round_trip(
    refs: Seq<Reference>,
    assets: Seq<AssetSource>,
    out: Seq<RefFile>,
    res: Seq<Reference>,
    dir: Seq<char>,
)
    requires
        assets.len() == refs.len(),
        materialized(refs, assets, out),
        hydrated(refs, res, out, dir),
    ensures
        forall|i: int|
            0 <= i < refs.len() ==> #[trigger] round_trip_ok(refs[i], assets[i], res[i], dir, i),
{
    assert forall|i: int|
        0 <= i < refs.len() implies #[trigger] round_trip_ok(
        refs[i],
        assets[i],
        res[i],
        dir,
        i,
    ) by {
        assert(hydrate_one_ok(refs[i], res[i], out, dir, i));
        lemma_slot_geometry(refs, assets, out, i);
        assert(payload_slot_ok(refs, assets, out, i));
        let t = files_before(refs, i) + 1;
        match refs[i] {
            Reference::VertexLink { .. } => {},
            Reference::Note { .. } => {
                lemma_text_first_match(refs, assets, out, i, "note_"@, ".md"@);
            },
            Reference::Url { .. } => {
                lemma_text_first_match(refs, assets, out, i, "url_"@, ".txt"@);
            },
            Reference::Image { .. } => {
                lemma_asset_first_match(refs, assets, out, i, "image_"@);
                lemma_slot_name_shape(refs, assets, out, i, t);
            },
            Reference::File { .. } => {
                lemma_asset_first_match(refs, assets, out, i, "file_"@);
                lemma_slot_name_shape(refs, assets, out, i, t);
            },
        }
    }
}

/// Hydrating a second time from the same directory changes nothing.
pub proof fn lemma_hydrate_idempotent(
    refs: Seq<Reference>,
    h1: Seq<Reference>,
    h2: Seq<Reference>,
    files: Seq<RefFile>,
    dir: Seq<char>,
)
    requires
        hydrated(refs, h1, files, dir),
        hydrated(h1, h2, files, dir),
    ensures
        forall|i: int| 0 <= i < refs.len() ==> crate::record::ref_eqv(#[trigger] h2[i], h1[i]),
{
    assert forall|i: int|
        0 <= i < refs.len() implies crate::record::ref_eqv(#[trigger] h2[i], h1[i]) by {
        assert(hydrate_one_ok(refs[i], h1[i], files, dir, i));
        assert(hydrate_one_ok(h1[i], h2[i], files, dir, i));
        crate::record::lemma_ref_eqv_refl(h1[i]);
        match refs[i] {
            Reference::VertexLink { .. } => {},
            Reference::Note { .. } => {},
            Reference::Url { .. } => {},
            Reference::Image { .. } => {},
            Reference::File { .. } => {},
        }
    }
}

/// After a wholesale rewrite of a references directory, no metadata file of
/// any index at or above the new count survives: a stale `reference_<j>.json`
/// from an earlier, longer write is gone.
pub proof fn lemma_no_stale_meta(
    refs: Seq<Reference>,
    assets: Seq<AssetSource>,
    out: Seq<RefFile>,
    j: nat,
)
    requires
        materialized(refs, assets, out),
        j >= refs.len(),
    ensures
        forall|m: int| 0 <= m < out.len() ==> (#[trigger] out[m]).name@ != meta_name_spec(j),
{
    assert forall|m: int|
        0 <= m < out.len() implies (#[trigger] out[m]).name@ != meta_name_spec(j) by {
        lemma_words();
        lemma_slot_cover(refs, refs.len() as int, m);
        let q = choose|q: int| 0 <= q < refs.len() && #[trigger] owns_slot(refs, q, m);
        lemma_slot_name_shape(refs, assets, out, q, m);
        if m == files_before(refs, q) {
            lemma_names_differ("reference_"@, q as nat, ".json"@, "reference_"@, j, ".json"@);
        } else {
            match refs[q] {
                Reference::VertexLink { .. } => {},
                Reference::Note { .. } => {
                    lemma_names_differ("note_"@, q as nat, ".md"@, "reference_"@, j, ".json"@);
                },
                Reference::Url { .. } => {
                    lemma_names_differ("url_"@, q as nat, ".txt"@, "reference_"@, j, ".json"@);
                },
                Reference::Image { path, .. } => match assets[q] {
                    AssetSource::Bytes(_) => {
                        lemma_names_differ(
                            "image_"@,
                            q as nat,
                            "."@ + ext_of_spec(path@),
                            "reference_"@,
                            j,
                            ".json"@,
                        );
                    },
                    AssetSource::Missing => {
                        lemma_names_differ(
                            "image_"@,
                            q as nat,
                            ".txt"@,
                            "reference_"@,
                            j,
                            ".json"@,
                        );
                    },
                },
                Reference::File { path, .. } => match assets[q] {
                    AssetSource::Bytes(_) => {
                        lemma_names_differ(
                            "file_"@,
                            q as nat,
                            "."@ + ext_of_spec(path@),
                            "reference_"@,
                            j,
                            ".json"@,
                        );
                    },
                    AssetSource::Missing => {
                        lemma_names_differ(
                            "file_"@,
                            q as nat,
                            ".txt"@,
                            "reference_"@,
                            j,
                            ".json"@,
                        );
                    },
                },
            }
        }
    }
}

} // verus!
