//! The snapshot store's naming and containment rules: parsing persisted
//! file names back into their parts, resolving tool-supplied paths and
//! rejecting anything that escapes the store root.
use crate::error::SniffError;
use crate::snapshot::{
    domain_of, domain_spec, file_name_spec, is_timestamp_text, lemma_utc_text_shape, path_spec,
    slug_of, snapshot_file_name_at, utc_now, utc_text, DEFAULT_ROOT,
};
use crate::text::{
    all_digits_exec, chars_of, ends_with, push_str, slice_of, string_of,
};
use vstd::prelude::*;

verus! {

/// One persisted snapshot listed by the store.
#[derive(Debug, Clone, PartialEq, Eq)]
pub struct SnapshotEntry {
    /// Sanitized host (e.g. `localhost_3000`), the subdirectory name.
    pub domain: String,
    /// Stable identity of the captured target (`[path]-[selector]`).
    pub target: String,
    /// Path relative to the snapshot root.
    pub path: String,
    /// UTC capture time, `YYYYMMDDTHHMMSSZ`.
    pub created_at: String,
    /// Bytes on disk.
    pub size: u64,
}

/// Filters of the snapshot listing.
#[derive(Debug, Clone, PartialEq, Eq)]
pub struct ListSnapshotsRequest {
    /// Keep only this sanitized host directory.
    pub domain: Option<String>,
    /// Keep only this target identity (`[path]-[selector]`).
    pub target: Option<String>,
    /// Keep only the first `limit` (most recent) snapshots.
    pub limit: Option<usize>,
}

// ---------------------------------------------------------------------------
// File names
// ---------------------------------------------------------------------------

/// Whether `s` is a `YYYYMMDDTHHMMSS` stamp.
pub fn is_timestamp(s: &str) -> (r: bool)
    ensures
        r == is_timestamp_text(s@),
{
    timestamp_chars(&chars_of(s))
}

fn timestamp_chars(s: &Vec<char>) -> (r: bool)
    ensures
        r == is_timestamp_text(s@),
{
    if s.len() != 15 {
        return false;
    }
    assert(s@.subrange(0, 8) =~= s@.take(8));
    assert(s@.subrange(9, 15) =~= s@.skip(9));
    all_digits_exec(&slice_of(s, 0, 8)) && s[8] == 'T' && all_digits_exec(&slice_of(s, 9, 15))
}

/// The parts of a persisted snapshot name
/// `YYYYMMDDTHHMMSSZ-[target].jsonl`: the target and the timestamp
/// (with its `Z`); `None` for any other name.
pub open spec fn snapshot_name_parts(name: Seq<char>) -> Option<(Seq<char>, Seq<char>)> {
    if !".jsonl"@.is_suffix_of(name) {
        None
    } else {
        let stem = name.take(name.len() - ".jsonl"@.len());
        if stem.len() < 15 || !is_timestamp_text(stem.take(15)) {
            None
        } else {
            let r = stem.skip(15);
            if r.len() < 2 || r[0] != 'Z' || r[1] != '-' || r.len() == 2 {
                None
            } else {
                Some((r.skip(2), stem.take(15).push('Z')))
            }
        }
    }
}

/// Split `YYYYMMDDTHHMMSSZ-[target].jsonl` into `(target, timestamp)`.
pub fn parse_snapshot_name(name: &str) -> (r: Option<(String, String)>)
    ensures
        match r {
            Some(p) => snapshot_name_parts(name@) == Some((p.0@, p.1@)),
            None => snapshot_name_parts(name@) is None,
        },
{
    let n = chars_of(name);
    let ext = chars_of(".jsonl");
    if !ends_with(&n, ".jsonl") {
        return None;
    }
    let stem = slice_of(&n, 0, n.len() - ext.len());
    assert(stem@ =~= n@.take(n@.len() - ".jsonl"@.len()));
    if stem.len() < 15 {
        return None;
    }
    let created = slice_of(&stem, 0, 15);
    assert(created@ =~= stem@.take(15));
    if !timestamp_chars(&created) {
        return None;
    }
    let r = slice_of(&stem, 15, stem.len());
    assert(r@ =~= stem@.skip(15));
    if r.len() < 2 || r[0] != 'Z' || r[1] != '-' || r.len() == 2 {
        return None;
    }
    let target = slice_of(&r, 2, r.len());
    assert(target@ =~= r@.skip(2));
    let mut stamp = created;
    stamp.push('Z');
    Some((string_of(target), string_of(stamp)))
}

// ---------------------------------------------------------------------------
// Paths and containment
// ---------------------------------------------------------------------------

/// One lexical component of a path (`std::path::Component`), with its
/// text where it has one.
#[derive(Debug, Clone, PartialEq, Eq)]
pub enum PathPart {
    Prefix(String),
    RootDir,
    CurDir,
    ParentDir,
    Normal(String),
}

pub enum PathPartModel {
    Prefix(Seq<char>),
    RootDir,
    CurDir,
    ParentDir,
    Normal(Seq<char>),
}

impl View for PathPart {
    type V = PathPartModel;

    open spec fn view(&self) -> PathPartModel {
        match self {
            PathPart::Prefix(s) => PathPartModel::Prefix(s@),
            PathPart::RootDir => PathPartModel::RootDir,
            PathPart::CurDir => PathPartModel::CurDir,
            PathPart::ParentDir => PathPartModel::ParentDir,
            PathPart::Normal(s) => PathPartModel::Normal(s@),
        }
    }
}

pub open spec fn parts_model(v: Seq<PathPart>) -> Seq<PathPartModel> {
    v.map_values(|p: PathPart| p@)
}

/// The components of the path `p`, as `std::path::Path::components`
/// yields them on this platform.
pub uninterp spec fn path_components(p: Seq<char>) -> Seq<PathPartModel>;

/// The path `rel` joined onto `base` (`std::path::Path::join`).
pub uninterp spec fn joined_path(base: Seq<char>, rel: Seq<char>) -> Seq<char>;

/// Whether `p` is an absolute path (`std::path::Path::is_absolute`).
pub uninterp spec fn path_is_absolute(p: Seq<char>) -> bool;

/// `std::path::Path::components` of `p`, each component converted to a
/// [`PathPart`]; the result is the named `path_components` of `p`.
#[verifier::external_body]
fn components_of(p: &str) -> (r: Vec<PathPart>)
    ensures
        parts_model(r@) == path_components(p@),
{
    let mut out = Vec::new();
    for c in std::path::Path::new(p).components() {
        out.push(match c {
            std::path::Component::Prefix(x) => PathPart::Prefix(x.as_os_str().to_string_lossy().into_owned()),
            std::path::Component::RootDir => PathPart::RootDir,
            std::path::Component::CurDir => PathPart::CurDir,
            std::path::Component::ParentDir => PathPart::ParentDir,
            std::path::Component::Normal(x) => PathPart::Normal(x.to_string_lossy().into_owned()),
        });
    }
    out
}

/// `std::path::Path::join` of `rel` onto `base`, as text; the result is the
/// named `joined_path` of the two.
#[verifier::external_body]
fn join_path(base: &str, rel: &str) -> (r: String)
    ensures
        r@ == joined_path(base@, rel@),
{
    std::path::Path::new(base).join(rel).to_string_lossy().into_owned()
}

/// `std::path::Path::is_absolute` of `p`; the result is the named
/// `path_is_absolute` of `p`.
#[verifier::external_body]
fn is_absolute_path(p: &str) -> (r: bool)
    ensures
        r == path_is_absolute(p@),
{
    std::path::Path::new(p).is_absolute()
}

/// The verdict on an absolute path with components `abs` under a root with
/// components `root`: no `..` anywhere, and the root's components are a
/// prefix of the path's.
pub open spec fn containment(root: Seq<PathPartModel>, abs: Seq<PathPartModel>) -> Result<(), Seq<char>> {
    if exists|i: int| 0 <= i < abs.len() && abs[i] == PathPartModel::ParentDir {
        Err("`..` not allowed"@)
    } else if !root.is_prefix_of(abs) {
        Err("escapes the snapshot root"@)
    } else {
        Ok(())
    }
}

fn part_eq(a: &PathPart, b: &PathPart) -> (r: bool)
    ensures
        r == (a@ == b@),
{
    match a {
        PathPart::Prefix(x) => match b {
            PathPart::Prefix(y) => *x == *y,
            _ => false,
        },
        PathPart::RootDir => match b {
            PathPart::RootDir => true,
            _ => false,
        },
        PathPart::CurDir => match b {
            PathPart::CurDir => true,
            _ => false,
        },
        PathPart::ParentDir => match b {
            PathPart::ParentDir => true,
            _ => false,
        },
        PathPart::Normal(x) => match b {
            PathPart::Normal(y) => *x == *y,
            _ => false,
        },
    }
}

/// The containment verdict over already-split components.
pub fn check_contained(root: &Vec<PathPart>, abs: &Vec<PathPart>) -> (r: Result<(), String>)
    ensures
        match r {
            Ok(()) => containment(parts_model(root@), parts_model(abs@)) == Ok::<(), Seq<char>>(()),
            Err(m) => containment(parts_model(root@), parts_model(abs@)) == Err::<(), Seq<char>>(m@),
        },
{
    let ghost rm = parts_model(root@);
    let ghost am = parts_model(abs@);
    let mut i: usize = 0;
    while i < abs.len()
        invariant
            i <= abs.len(),
            am == parts_model(abs@),
            forall|k: int| 0 <= k < i ==> am[k] != PathPartModel::ParentDir,
        decreases abs.len() - i,
    {
        if let PathPart::ParentDir = abs[i] {
            assert(am[i as int] == PathPartModel::ParentDir);
            return Err(String::from_str("`..` not allowed"));
        }
        i = i + 1;
    }
    if abs.len() < root.len() {
        return Err(String::from_str("escapes the snapshot root"));
    }
    let mut j: usize = 0;
    while j < root.len()
        invariant
            j <= root.len() <= abs.len(),
            rm == parts_model(root@),
            am == parts_model(abs@),
            forall|k: int| 0 <= k < j ==> rm[k] == am[k],
            forall|k: int| 0 <= k < abs.len() ==> am[k] != PathPartModel::ParentDir,
        decreases root.len() - j,
    {
        if !part_eq(&root[j], &abs[j]) {
            assert(rm[j as int] != am[j as int]);
            assert(!rm.is_prefix_of(am)) by {
                if rm.is_prefix_of(am) {
                    assert(am.subrange(0, rm.len() as int)[j as int] == am[j as int]);
                }
            }
            return Err(String::from_str("escapes the snapshot root"));
        }
        j = j + 1;
    }
    Ok(())
}

/// Accept `abs` only when it stays inside `root`.
pub fn ensure_contained(root: &str, abs: &str) -> (r: Result<(), String>)
    ensures
        match r {
            Ok(()) => containment(path_components(root@), path_components(abs@)) == Ok::<
                (),
                Seq<char>,
            >(()),
            Err(m) => containment(path_components(root@), path_components(abs@)) == Err::<
                (),
                Seq<char>,
            >(m@),
        },
{
    let rp = components_of(root);
    let ap = components_of(abs);
    check_contained(&rp, &ap)
}

// ---------------------------------------------------------------------------
// The store
// ---------------------------------------------------------------------------

/// Shared handle to the structured snapshot directory.
#[derive(Debug, Clone, PartialEq, Eq)]
pub struct SnapshotStore {
    root: String,
}

/// The path `rel` names under `root`: itself when absolute, else joined
/// onto the root.
pub open spec fn resolved_path(root: Seq<char>, rel: Seq<char>) -> Seq<char> {
    if path_is_absolute(rel) {
        rel
    } else {
        joined_path(root, rel)
    }
}

/// What `resolve` gives: the resolved path when it stays inside the root,
/// else an `Other` error naming `rel` and the reason.
pub open spec fn resolve_spec(root: Seq<char>, rel: Seq<char>) -> Result<Seq<char>, Seq<char>> {
    let abs = resolved_path(root, rel);
    match containment(path_components(root), path_components(abs)) {
        Ok(()) => Ok(abs),
        Err(m) => Err("snapshot path `"@ + rel + "` rejected: "@ + m),
    }
}

impl SnapshotStore {
    pub closed spec fn root_spec(&self) -> Seq<char> {
        self.root@
    }

    /// Root from the `SNIFF_SNAPSHOT_DIR` setting (`dir`, when set) or
    /// `sniffCSS` under the working directory.
    pub fn from_env(dir: Option<String>) -> (s: SnapshotStore)
        ensures
            s.root_spec() == (match dir {
                Some(d) => d@,
                None => DEFAULT_ROOT@,
            }),
    {
        match dir {
            Some(d) => SnapshotStore { root: d },
            None => SnapshotStore { root: String::from_str(DEFAULT_ROOT) },
        }
    }

    /// Root at an explicit path.
    pub fn new(root: String) -> (s: SnapshotStore)
        ensures
            s.root_spec() == root@,
    {
        SnapshotStore { root }
    }

    /// The snapshot root.
    pub fn root(&self) -> (r: &str)
        ensures
            r@ == self.root_spec(),
    {
        self.root.as_str()
    }

    /// Resolve a tool-supplied path (relative to the root, or absolute),
    /// rejecting anything that escapes the snapshot root.
    pub fn resolve(&self, rel: &str) -> (r: Result<String, SniffError>)
        ensures
            match r {
                Ok(p) => resolve_spec(self.root_spec(), rel@) == Ok::<Seq<char>, Seq<char>>(p@),
                Err(e) => e is Other && resolve_spec(self.root_spec(), rel@) == Err::<
                    Seq<char>,
                    Seq<char>,
                >(e@.1),
            },
    {
        let abs = if is_absolute_path(rel) {
            String::from_str(rel)
        } else {
            join_path(self.root.as_str(), rel)
        };
        match ensure_contained(self.root.as_str(), abs.as_str()) {
            Ok(()) => Ok(abs),
            Err(m) => {
                let mut v: Vec<char> = Vec::new();
                push_str(&mut v, "snapshot path `");
                push_str(&mut v, rel);
                push_str(&mut v, "` rejected: ");
                push_str(&mut v, m.as_str());
                Err(SniffError::Other(string_of(v)))
            },
        }
    }
}

/// Where a capture of `selector` on `url` at `stamp` is written: the
/// root-relative path `<domain>/<file name>`, and that path resolved under
/// the root.
pub open spec fn save_location_spec(root: Seq<char>, stamp: Seq<char>, url: Seq<char>, selector: Seq<char>, ext: Seq<char>) -> Result<(Seq<char>, Seq<char>), Seq<char>> {
    let rel = joined_path(domain_spec(url), file_name_spec(stamp, url, selector, ext));
    match resolve_spec(root, rel) {
        Ok(abs) => Ok((rel, abs)),
        Err(m) => Err(m),
    }
}

/// The temporary sibling a file is first written to before it is renamed
/// into place.
pub open spec fn temp_name_spec(name: Seq<char>) -> Seq<char> {
    "."@ + name + ".tmp"@
}

/// The temporary name `.<name>.tmp` of an atomic write.
pub fn temp_name(name: &str) -> (r: String)
    ensures
        r@ == temp_name_spec(name@),
{
    let mut v = chars_of(".");
    push_str(&mut v, name);
    push_str(&mut v, ".tmp");
    string_of(v)
}

impl SnapshotStore {
    /// Where a capture taken at `stamp` is persisted (the snapshot itself
    /// with `ext` = `jsonl`, or a binary artifact such as a screenshot):
    /// its root-relative path and its resolved path.
    pub fn save_location_at(&self, stamp: &str, url: &str, selector: &str, ext: &str) -> (r: Result<(String, String), SniffError>)
        ensures
            match r {
                Ok((rel, abs)) => save_location_spec(self.root_spec(), stamp@, url@, selector@, ext@) == Ok::<
                    (Seq<char>, Seq<char>),
                    Seq<char>,
                >((rel@, abs@)),
                Err(e) => e is Other && save_location_spec(self.root_spec(), stamp@, url@, selector@, ext@)
                    == Err::<(Seq<char>, Seq<char>), Seq<char>>(e@.1),
            },
    {
        let domain = domain_of(url);
        let name = snapshot_file_name_at(stamp, url, selector, ext);
        let rel = join_path(domain.as_str(), name.as_str());
        match self.resolve(rel.as_str()) {
            Ok(abs) => Ok((rel, abs)),
            Err(e) => Err(e),
        }
    }

    /// Where a capture taken now is persisted; as
    /// [`SnapshotStore::save_location_at`] at the current UTC second.
    pub fn save_location(&self, url: &str, selector: &str, ext: &str) -> (r: Result<(String, String), SniffError>)
        ensures
            exists|secs: u64| {
                let expected = save_location_spec(self.root_spec(), #[trigger] utc_text(secs), url@, selector@, ext@);
                match r {
                    Ok((rel, abs)) => expected == Ok::<(Seq<char>, Seq<char>), Seq<char>>((rel@, abs@)),
                    Err(e) => e is Other && expected == Err::<(Seq<char>, Seq<char>), Seq<char>>(e@.1),
                }
            },
    {
        let stamp = utc_now();
        self.save_location_at(stamp.as_str(), url, selector, ext)
    }
}

// ---------------------------------------------------------------------------
// Names written by the store read back
// ---------------------------------------------------------------------------

/// A snapshot file name written at a `YYYYMMDDTHHMMSS` + `Z` stamp reads
/// back as its target `[path]-[selector]` and that stamp.
pub proof fn lemma_file_name_round_trip(stamp: Seq<char>, url: Seq<char>, selector: Seq<char>)
    requires
        stamp.len() == 16,
        is_timestamp_text(stamp.take(15)),
        stamp[15] == 'Z',
    ensures
        snapshot_name_parts(file_name_spec(stamp, url, selector, "jsonl"@)) == Some(
            (path_spec(url) + seq!['-'] + slug_of(selector, 40), stamp),
        ),
{
    reveal_strlit(".jsonl");
    reveal_strlit("jsonl");
    reveal_strlit("index");
    let target = path_spec(url) + seq!['-'] + slug_of(selector, 40);
    assert(target.len() > 0);
    let name = file_name_spec(stamp, url, selector, "jsonl"@);
    let stem = stamp + seq!['-'] + target;
    assert(name =~= stem + ".jsonl"@);
    assert(".jsonl"@.is_suffix_of(name)) by {
        assert(name.subrange(name.len() - 6, name.len() as int) =~= ".jsonl"@);
    }
    assert(name.take(name.len() - ".jsonl"@.len()) =~= stem);
    assert(stem.take(15) =~= stamp.take(15));
    let r = stem.skip(15);
    assert(r =~= seq!['Z', '-'] + target);
    assert(r.skip(2) =~= target);
    assert(stem.take(15).push('Z') =~= stamp);
}

/// The name `snapshot_file_name` gives a snapshot taken `secs` seconds
/// after the epoch (before the year 10000) is read back by
/// `parse_snapshot_name` as the target (path, `-`, selector slug) and the
/// UTC timestamp of `secs`.
pub proof fn lemma_persisted_name_round_trip(secs: u64, url: Seq<char>, selector: Seq<char>)
    requires
        secs < 253_402_300_800,
    ensures
        snapshot_name_parts(file_name_spec(utc_text(secs), url, selector, "jsonl"@)) == Some(
            (path_spec(url) + seq!['-'] + slug_of(selector, 40), utc_text(secs)),
        ),
{
    lemma_utc_text_shape(secs);
    lemma_file_name_round_trip(utc_text(secs), url, selector);
}

// ---------------------------------------------------------------------------
// Listing order
// ---------------------------------------------------------------------------

/// `a` sorts strictly before `b` in the order of `String`'s `Ord`
/// (character by character, a proper prefix first).
pub open spec fn text_lt(a: Seq<char>, b: Seq<char>) -> bool
    decreases a.len(),
{
    if a.len() == 0 {
        b.len() > 0
    } else if b.len() == 0 {
        false
    } else if a[0] != b[0] {
        a[0] < b[0]
    } else {
        text_lt(a.drop_first(), b.drop_first())
    }
}

/// No text sorts before itself, and of two texts at most one sorts first.
pub proof fn lemma_text_lt_strict(a: Seq<char>, b: Seq<char>)
    ensures
        !text_lt(a, a),
        !(text_lt(a, b) && text_lt(b, a)),
    decreases a.len(),
{
    if a.len() > 0 {
        lemma_text_lt_strict(a.drop_first(), a.drop_first());
        if b.len() > 0 {
            lemma_text_lt_strict(a.drop_first(), b.drop_first());
        }
    }
}

/// The order of texts is transitive.
pub proof fn lemma_text_lt_transitive(a: Seq<char>, b: Seq<char>, c: Seq<char>)
    requires
        text_lt(a, b),
        text_lt(b, c),
    ensures
        text_lt(a, c),
    decreases a.len(),
{
    if a.len() > 0 && b.len() > 0 && c.len() > 0 && a[0] == b[0] && b[0] == c[0] {
        lemma_text_lt_transitive(a.drop_first(), b.drop_first(), c.drop_first());
    }
}

/// Two different texts are ordered one way or the other.
pub proof fn lemma_text_lt_total(a: Seq<char>, b: Seq<char>)
    ensures
        a == b || text_lt(a, b) || text_lt(b, a),
    decreases a.len(),
{
    if a.len() > 0 && b.len() > 0 {
        if a[0] == b[0] {
            lemma_text_lt_total(a.drop_first(), b.drop_first());
            if a.drop_first() == b.drop_first() {
                assert(a =~= seq![a[0]] + a.drop_first());
                assert(b =~= seq![b[0]] + b.drop_first());
            }
        }
    } else if a.len() == 0 && b.len() == 0 {
        assert(a =~= b);
    }
}

/// `created_at` order: whether `a` was captured strictly before `b`.
pub fn text_lt_exec(a: &Vec<char>, b: &Vec<char>) -> (r: bool)
    ensures
        r == text_lt(a@, b@),
{
    let mut i: usize = 0;
    assert(a@.skip(0) =~= a@);
    assert(b@.skip(0) =~= b@);
    while i < a.len() && i < b.len()
        invariant
            i <= a.len(),
            i <= b.len(),
            text_lt(a@, b@) == text_lt(a@.skip(i as int), b@.skip(i as int)),
        decreases a.len() - i,
    {
        assert(a@.skip(i as int).drop_first() =~= a@.skip(i + 1));
        assert(b@.skip(i as int).drop_first() =~= b@.skip(i + 1));
        if a[i] != b[i] {
            return a[i] < b[i];
        }
        i = i + 1;
    }
    i < b.len()
}

/// Newest first: no entry was captured before a later one.
pub open spec fn newest_first_sorted(es: Seq<SnapshotEntry>) -> bool {
    forall|i: int, j: int|
        0 <= i < j < es.len() ==> !text_lt(#[trigger] es[i].created_at@, #[trigger] es[j].created_at@)
}

/// The entries captured at `stamp`, in order.
pub open spec fn captured_at(es: Seq<SnapshotEntry>, stamp: Seq<char>) -> Seq<SnapshotEntry>
    decreases es.len(),
{
    if es.len() == 0 {
        Seq::empty()
    } else {
        let rest = captured_at(es.drop_last(), stamp);
        if es.last().created_at@ == stamp {
            rest.push(es.last())
        } else {
            rest
        }
    }
}

proof fn lemma_captured_at_concat(a: Seq<SnapshotEntry>, b: Seq<SnapshotEntry>, stamp: Seq<char>)
    ensures
        captured_at(a + b, stamp) == captured_at(a, stamp) + captured_at(b, stamp),
    decreases b.len(),
{
    if b.len() == 0 {
        assert(a + b =~= a);
        assert(captured_at(a, stamp) + captured_at(b, stamp) =~= captured_at(a, stamp));
    } else {
        lemma_captured_at_concat(a, b.drop_last(), stamp);
        assert((a + b).drop_last() =~= a + b.drop_last());
        assert((a + b).last() == b.last());
        if b.last().created_at@ == stamp {
            assert(captured_at(a, stamp) + captured_at(b, stamp) =~= (captured_at(a, stamp)
                + captured_at(b.drop_last(), stamp)).push(b.last()));
        }
    }
}

proof fn lemma_captured_at_none(b: Seq<SnapshotEntry>, stamp: Seq<char>)
    requires
        forall|j: int| 0 <= j < b.len() ==> #[trigger] b[j].created_at@ != stamp,
    ensures
        captured_at(b, stamp) == Seq::<SnapshotEntry>::empty(),
    decreases b.len(),
{
    if b.len() > 0 {
        lemma_captured_at_none(b.drop_last(), stamp);
        assert(b.last() == b[b.len() - 1]);
    }
}

proof fn lemma_captured_at_single(x: SnapshotEntry, stamp: Seq<char>)
    ensures
        captured_at(seq![x], stamp) == (if x.created_at@ == stamp {
            seq![x]
        } else {
            Seq::<SnapshotEntry>::empty()
        }),
{
    assert(seq![x].drop_last() =~= Seq::<SnapshotEntry>::empty());
    assert(seq![x].last() == x);
    assert(captured_at(Seq::<SnapshotEntry>::empty(), stamp) =~= Seq::<SnapshotEntry>::empty());
    assert(Seq::<SnapshotEntry>::empty().push(x) =~= seq![x]);
}

/// Where an entry captured at `key` goes in a newest-first listing: after
/// every entry captured at or after `key`.
fn insertion_point(out: &Vec<SnapshotEntry>, key: &Vec<char>) -> (p: usize)
    ensures
        p <= out.len(),
        forall|q: int| 0 <= q < p ==> !text_lt(#[trigger] out@[q].created_at@, key@),
        p < out.len() ==> text_lt(out@[p as int].created_at@, key@),
{
    let mut p: usize = 0;
    while p < out.len()
        invariant
            p <= out.len(),
            forall|q: int| 0 <= q < p ==> !text_lt(#[trigger] out@[q].created_at@, key@),
        decreases out.len() - p,
    {
        let at = chars_of(out[p].created_at.as_str());
        if text_lt_exec(&at, key) {
            return p;
        }
        p = p + 1;
    }
    p
}

proof fn lemma_insert_keeps_order(before: Seq<SnapshotEntry>, p: int, x: SnapshotEntry)
    requires
        0 <= p <= before.len(),
        newest_first_sorted(before),
        forall|q: int| 0 <= q < p ==> !text_lt(#[trigger] before[q].created_at@, x.created_at@),
        p < before.len() ==> text_lt(before[p].created_at@, x.created_at@),
    ensures
        newest_first_sorted(before.insert(p, x)),
        forall|q: int| p <= q < before.len() ==> #[trigger] before[q].created_at@ != x.created_at@,
{
    let after = before.insert(p, x);
    assert forall|a: int, b: int| 0 <= a < b < after.len() implies !text_lt(
        #[trigger] after[a].created_at@,
        #[trigger] after[b].created_at@,
    ) by {
        if a < p && b == p {
            assert(after[a] == before[a]);
        } else if a < p && b > p {
            assert(after[a] == before[a] && after[b] == before[b - 1]);
        } else if a == p && b > p {
            assert(after[b] == before[b - 1]);
            if text_lt(x.created_at@, before[b - 1].created_at@) {
                lemma_text_lt_transitive(before[p].created_at@, x.created_at@, before[b - 1].created_at@);
                lemma_text_lt_strict(before[p].created_at@, before[p].created_at@);
            }
        } else if a > p {
            assert(after[a] == before[a - 1] && after[b] == before[b - 1]);
        } else {
            assert(after[a] == before[a] && after[b] == before[b]);
        }
    }
    assert forall|q: int| p <= q < before.len() implies #[trigger] before[q].created_at@ != x.created_at@ by {
        if before[q].created_at@ == x.created_at@ {
            lemma_text_lt_strict(before[p].created_at@, before[p].created_at@);
        }
    }
}

/// Orders snapshot entries newest first (by `created_at`, descending);
/// entries captured at the same time keep their order.
pub fn newest_first(entries: Vec<SnapshotEntry>) -> (r: Vec<SnapshotEntry>)
    ensures
        newest_first_sorted(r@),
        r@.to_multiset() == entries@.to_multiset(),
        forall|stamp: Seq<char>| #[trigger] captured_at(r@, stamp) == captured_at(entries@, stamp),
{
    let ghost es = entries@;
    let mut entries = entries;
    let mut rev: Vec<SnapshotEntry> = Vec::new();
    let n = entries.len();
    let mut k: usize = 0;
    while k < n
        invariant
            k <= n,
            n == es.len(),
            entries@ == es.take((n - k) as int),
            rev@ == es.skip((n - k) as int).reverse(),
        decreases n - k,
    {
        let item = entries.pop().unwrap();
        rev.push(item);
        assert(entries@ =~= es.take((n - k - 1) as int));
        assert(rev@ =~= es.skip((n - k - 1) as int).reverse());
        k = k + 1;
    }
    let mut out: Vec<SnapshotEntry> = Vec::new();
    let mut j: usize = 0;
    assert(es.take(0) =~= Seq::<SnapshotEntry>::empty());
    while j < n
        invariant
            j <= n,
            n == es.len(),
            rev@ == es.skip(j as int).reverse(),
            newest_first_sorted(out@),
            out@.to_multiset() == es.take(j as int).to_multiset(),
            forall|stamp: Seq<char>| #[trigger] captured_at(out@, stamp) == captured_at(es.take(j as int), stamp),
        decreases n - j,
    {
        let item = rev.pop().unwrap();
        assert(rev@ =~= es.skip(j + 1).reverse());
        assert(item == es[j as int]);
        let key = chars_of(item.created_at.as_str());
        let p = insertion_point(&out, &key);
        let ghost before = out@;
        proof {
            lemma_insert_keeps_order(before, p as int, item);
        }
        out.insert(p, item);
        proof {
            assert(es.take(j + 1) =~= es.take(j as int).push(item));
            assert(out@ == before.insert(p as int, item));
            vstd::seq_lib::to_multiset_insert(before, p as int, item);
            vstd::seq_lib::to_multiset_build(es.take(j as int), item);
            assert(es.take(j + 1).drop_last() =~= es.take(j as int));
            let b0 = before.subrange(0, p as int);
            let b1 = before.subrange(p as int, before.len() as int);
            assert(before =~= b0 + b1);
            assert(out@ =~= b0 + (seq![item] + b1));
            assert forall|stamp: Seq<char>| #[trigger] captured_at(out@, stamp) == captured_at(es.take(j + 1), stamp) by {
                lemma_captured_at_concat(b0, b1, stamp);
                lemma_captured_at_concat(seq![item], b1, stamp);
                lemma_captured_at_concat(b0, seq![item] + b1, stamp);
                lemma_captured_at_single(item, stamp);
                if item.created_at@ == stamp {
                    assert forall|q: int| 0 <= q < b1.len() implies #[trigger] b1[q].created_at@ != stamp by {
                        assert(b1[q] == before[p + q]);
                    }
                    lemma_captured_at_none(b1, stamp);
                    assert(captured_at(out@, stamp) =~= captured_at(before, stamp).push(item));
                } else {
                    assert(captured_at(out@, stamp) =~= captured_at(before, stamp));
                }
            }
        }
        j = j + 1;
    }
    assert(es.take(n as int) =~= es);
    out
}

} // verus!
