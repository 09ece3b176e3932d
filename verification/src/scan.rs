//! Where to scan, and what was found there.
use crate::disk;
use crate::disk::{Disk, DiskView};
use crate::order;
use crate::order::Located;
use crate::paths;
use crate::paths::FilePath;
use crate::text;
use vstd::prelude::*;

verus! {

/// A place to scan, with the name of the machine that it came from.
#[derive(Debug)]
pub struct ScanRoot {
    pub path: FilePath,
    pub origin: String,
}

/// The model of a place to scan.
pub struct RootView {
    pub path: Seq<Seq<char>>,
    pub origin: Seq<char>,
}

impl View for ScanRoot {
    type V = RootView;

    open spec fn view(&self) -> RootView {
        RootView { path: self.path@, origin: self.origin@ }
    }
}

impl Located for ScanRoot {
    open spec fn place(view: RootView) -> Seq<Seq<char>> {
        view.path
    }

    fn path(&self) -> (path: &FilePath) {
        &self.path
    }
}

/// A place on this machine.
pub open spec fn local_root(path: Seq<Seq<char>>) -> RootView {
    RootView { path, origin: "local"@ }
}

/// Places on one machine.
pub open spec fn roots_at(paths: Seq<Seq<Seq<char>>>, origin: Seq<char>) -> Seq<RootView> {
    paths.map_values(|path: Seq<Seq<char>>| RootView { path, origin })
}

impl ScanRoot {
    /// A place on this machine.
    pub fn local(path: FilePath) -> (root: ScanRoot)
        ensures
            root@ == local_root(path@),
    {
        ScanRoot { path, origin: "local".to_owned() }
    }

    /// Another place on the same machine.
    pub fn with_path(&self, path: FilePath) -> (root: ScanRoot)
        ensures
            root@ == (RootView { path: path@, origin: self@.origin }),
    {
        ScanRoot { path, origin: self.origin.clone() }
    }

    /// The same place.
    pub fn copy(&self) -> (root: ScanRoot)
        ensures
            root@ == self@,
    {
        self.with_path(self.path.copy())
    }
}

/// Puts places on one machine behind others.
pub fn push_roots(out: &mut Vec<ScanRoot>, more: Vec<FilePath>, like: &ScanRoot)
    ensures
        order::seen::<ScanRoot>(final(out)@) == order::seen::<ScanRoot>(old(out)@)
            + roots_at(paths::views(more@), like@.origin),
{
    let ghost before = order::seen::<ScanRoot>(out@);
    let ghost all = paths::views(more@);
    for path in it: more
        invariant
            it.seq() == more@,
            all == paths::views(more@),
            order::seen::<ScanRoot>(out@) =~= before + roots_at(
                all.take(it.index() as int),
                like@.origin,
            ),
    {
        let ghost now = order::seen::<ScanRoot>(out@);
        let root = like.with_path(path);
        out.push(root);
        assert(order::seen::<ScanRoot>(out@) =~= now.push(root@));
        assert(all.take(it.index() + 1) =~= all.take(it.index() as int).push(path@));
        assert(roots_at(all.take(it.index() + 1), like@.origin) =~= roots_at(
            all.take(it.index() as int),
            like@.origin,
        ).push(root@));
    }
    assert(all.take(all.len() as int) =~= all);
}

/// Copies of some places.
pub fn copy_roots(list: &Vec<ScanRoot>) -> (out: Vec<ScanRoot>)
    ensures
        order::seen::<ScanRoot>(out@) == order::seen::<ScanRoot>(list@),
{
    let mut out: Vec<ScanRoot> = Vec::new();
    let mut i: usize = 0;
    while i < list.len()
        invariant
            i <= list.len(),
            out.len() == i,
            forall|j: int| 0 <= j < i ==> (#[trigger] out[j])@ == list[j]@,
        decreases list.len() - i,
    {
        out.push(list[i].copy());
        i += 1;
    }
    assert(order::seen::<ScanRoot>(out@) =~= order::seen::<ScanRoot>(list@));
    out
}

/// What to scan: some places, or the default ones of this machine where none is
/// given. Files that did not change since a time are left out.
#[derive(Debug)]
pub struct ScanContext {
    pub data_dir: FilePath,
    pub scan_roots: Vec<ScanRoot>,
    pub since_ts: Option<i64>,
}

/// The model of what to scan.
pub struct ContextView {
    pub data_dir: Seq<Seq<char>>,
    pub scan_roots: Seq<RootView>,
    pub since_ts: Option<i64>,
}

impl View for ScanContext {
    type V = ContextView;

    open spec fn view(&self) -> ContextView {
        ContextView {
            data_dir: self.data_dir@,
            scan_roots: self.scan_roots@.map_values(|root: ScanRoot| root@),
            since_ts: self.since_ts,
        }
    }
}

impl ScanContext {
    /// The default places, or a directory given in their stead.
    pub fn local_default(data_dir: FilePath, since_ts: Option<i64>) -> (context: ScanContext)
        ensures
            context@ == (ContextView { data_dir: data_dir@, scan_roots: Seq::empty(), since_ts }),
    {
        let none: Vec<ScanRoot> = Vec::new();
        assert(none@.map_values(|root: ScanRoot| root@) =~= Seq::empty());
        ScanContext { data_dir, scan_roots: none, since_ts }
    }

    /// The given places.
    pub fn with_roots(
        data_dir: FilePath,
        scan_roots: Vec<ScanRoot>,
        since_ts: Option<i64>,
    ) -> (context: ScanContext)
        ensures
            context.data_dir == data_dir,
            context.scan_roots == scan_roots,
            context.since_ts == since_ts,
    {
        ScanContext { data_dir, scan_roots, since_ts }
    }

    /// Whether the default places are to be scanned.
    pub fn use_default_detection(&self) -> (yes: bool)
        ensures
            yes == (self@.scan_roots.len() == 0),
    {
        self.scan_roots.len() == 0
    }
}

/// The user's own directories, where they are known.
#[derive(Debug)]
pub struct UserDirs {
    pub home: Option<FilePath>,
    pub config: Option<FilePath>,
}

/// The model of the user's own directories.
pub struct UserView {
    pub home: Option<Seq<Seq<char>>>,
    pub config: Option<Seq<Seq<char>>>,
}

impl View for UserDirs {
    type V = UserView;

    open spec fn view(&self) -> UserView {
        UserView { home: paths::held(self.home), config: paths::held(self.config) }
    }
}

/// Why a file yields no conversation.
#[derive(Clone, Copy, Debug, PartialEq, Eq, Structural)]
pub enum ReadError {
    /// It could not be read.
    Unreadable,
}

/// What a discovered file is.
#[derive(Clone, Copy, Debug, PartialEq, Eq, Structural)]
pub enum DiscoveredSourceRole {
    PrimarySessionLog,
    SqliteDatabase,
}

/// A file that a scan reads.
#[derive(Debug)]
pub struct DiscoveredSourceFile {
    pub connector: String,
    pub root: ScanRoot,
    pub source_path: FilePath,
    pub role: DiscoveredSourceRole,
    pub required: bool,
    pub modified: Option<i64>,
}

/// The model of a file that a scan reads.
pub struct SourceView {
    pub connector: Seq<char>,
    pub root: RootView,
    pub source_path: Seq<Seq<char>>,
    pub role: DiscoveredSourceRole,
    pub required: bool,
    pub modified: Option<i64>,
}

impl View for DiscoveredSourceFile {
    type V = SourceView;

    open spec fn view(&self) -> SourceView {
        SourceView {
            connector: self.connector@,
            root: self.root@,
            source_path: self.source_path@,
            role: self.role,
            required: self.required,
            modified: self.modified,
        }
    }
}

impl Located for DiscoveredSourceFile {
    open spec fn place(view: SourceView) -> Seq<Seq<char>> {
        view.source_path
    }

    fn path(&self) -> (path: &FilePath) {
        &self.source_path
    }
}

/// A file below a place, as a source.
pub open spec fn source(
    connector: Seq<char>,
    root: RootView,
    path: Seq<Seq<char>>,
    role: DiscoveredSourceRole,
    disk: DiskView,
) -> SourceView {
    SourceView {
        connector,
        root,
        source_path: path,
        role,
        required: true,
        modified: disk.modified(path),
    }
}

/// Those of some files below a place that changed since a time, as sources.
pub open spec fn fresh_sources(
    connector: Seq<char>,
    root: RootView,
    files: Seq<Seq<Seq<char>>>,
    role: DiscoveredSourceRole,
    since: Option<i64>,
    disk: DiskView,
) -> Seq<SourceView>
    decreases files.len(),
{
    if files.len() == 0 {
        Seq::empty()
    } else {
        let before = fresh_sources(connector, root, files.drop_last(), role, since, disk);
        if disk.fresh(files.last(), since) {
            before.push(source(connector, root, files.last(), role, disk))
        } else {
            before
        }
    }
}

/// Each of the sources changed since the time given and is one of the files.
pub proof fn lemma_fresh_sources(
    connector: Seq<char>,
    root: RootView,
    files: Seq<Seq<Seq<char>>>,
    role: DiscoveredSourceRole,
    since: Option<i64>,
    disk: DiskView,
)
    ensures
        forall|i: int|
            0 <= i < fresh_sources(connector, root, files, role, since, disk).len() ==> {
                let found = #[trigger] fresh_sources(connector, root, files, role, since, disk)[i];
                disk.fresh(found.source_path, since) && files.contains(found.source_path)
            },
    decreases files.len(),
{
    if files.len() > 0 {
        let earlier = files.drop_last();
        let before = fresh_sources(connector, root, earlier, role, since, disk);
        let out = fresh_sources(connector, root, files, role, since, disk);
        lemma_fresh_sources(connector, root, earlier, role, since, disk);
        assert(files[files.len() - 1] == files.last());
        assert forall|i: int| 0 <= i < out.len() implies ({
            let found = #[trigger] out[i];
            disk.fresh(found.source_path, since) && files.contains(found.source_path)
        }) by {
            if i < before.len() {
                assert(out[i] == before[i]);
                let k = choose|k: int| 0 <= k < earlier.len() && earlier[k] == before[i].source_path;
                assert(files[k] == out[i].source_path);
            }
        }
    }
}

/// The sources have the role given.
pub proof fn lemma_source_roles(
    connector: Seq<char>,
    root: RootView,
    files: Seq<Seq<Seq<char>>>,
    role: DiscoveredSourceRole,
    since: Option<i64>,
    disk: DiskView,
)
    ensures
        forall|i: int|
            0 <= i < fresh_sources(connector, root, files, role, since, disk).len() ==> (
            #[trigger] fresh_sources(connector, root, files, role, since, disk)[i]).role == role,
    decreases files.len(),
{
    if files.len() > 0 {
        lemma_source_roles(connector, root, files.drop_last(), role, since, disk);
    }
}

/// A file below a place, as a source.
pub fn source_at(
    connector: &str,
    root: &ScanRoot,
    path: &FilePath,
    role: DiscoveredSourceRole,
    disk: &Disk,
) -> (found: DiscoveredSourceFile)
    ensures
        found@ == source(connector@, root@, path@, role, disk@),
{
    DiscoveredSourceFile {
        connector: connector.to_owned(),
        root: root.copy(),
        source_path: path.copy(),
        role,
        required: true,
        modified: disk.modified(path),
    }
}

/// Puts those of some files below a place that changed since a time behind the
/// sources found so far.
pub fn add_fresh_sources(
    out: &mut Vec<DiscoveredSourceFile>,
    connector: &str,
    root: &ScanRoot,
    files: &Vec<FilePath>,
    role: DiscoveredSourceRole,
    since: Option<i64>,
    disk: &Disk,
)
    ensures
        order::seen::<DiscoveredSourceFile>(final(out)@) == order::seen::<DiscoveredSourceFile>(
            old(out)@,
        ) + fresh_sources(connector@, root@, paths::views(files@), role, since, disk@),
{
    let ghost before = order::seen::<DiscoveredSourceFile>(out@);
    let ghost all = paths::views(files@);
    let mut i: usize = 0;
    while i < files.len()
        invariant
            i <= files.len(),
            all == paths::views(files@),
            order::seen::<DiscoveredSourceFile>(out@) =~= before + fresh_sources(
                connector@,
                root@,
                all.take(i as int),
                role,
                since,
                disk@,
            ),
        decreases files.len() - i,
    {
        assert(all.take(i + 1).drop_last() =~= all.take(i as int));
        assert(all.take(i + 1).last() == files[i as int]@);
        if disk.fresh(&files[i], since) {
            let ghost now = order::seen::<DiscoveredSourceFile>(out@);
            let found = source_at(connector, root, &files[i], role, disk);
            out.push(found);
            assert(order::seen::<DiscoveredSourceFile>(out@) =~= now.push(found@));
        }
        i += 1;
    }
    assert(all.take(i as int) =~= all);
}

/// Whether an agent was found, what was looked for, and where it is.
#[derive(Debug)]
pub struct DetectionResult {
    pub detected: bool,
    pub evidence: Vec<String>,
    pub root_paths: Vec<FilePath>,
}

/// The model of a detection.
pub struct DetectionView {
    pub detected: bool,
    pub evidence: Seq<Seq<char>>,
    pub root_paths: Seq<Seq<Seq<char>>>,
}

impl View for DetectionResult {
    type V = DetectionView;

    open spec fn view(&self) -> DetectionView {
        DetectionView {
            detected: self.detected,
            evidence: text::texts(self.evidence@),
            root_paths: paths::views(self.root_paths@),
        }
    }
}

/// What was found of one place that was looked at.
pub open spec fn probe_note(path: Seq<Seq<char>>, disk: DiskView) -> Seq<char> {
    if disk.present(path) {
        "root exists: "@ + paths::rendered(path)
    } else {
        "root missing: "@ + paths::rendered(path)
    }
}

/// What looking at some places says: the agent is there if one of them exists.
pub open spec fn detection(probes: Seq<Seq<Seq<char>>>, disk: DiskView) -> DetectionView {
    DetectionView {
        detected: disk::present_ones(probes, disk).len() > 0,
        evidence: probes.map_values(|path: Seq<Seq<char>>| probe_note(path, disk)),
        root_paths: disk::present_ones(probes, disk),
    }
}

/// Looks at some places.
pub fn detect_at(probes: &Vec<FilePath>, disk: &Disk) -> (result: DetectionResult)
    ensures
        result@ == detection(paths::views(probes@), disk@),
{
    let root_paths = disk::present_paths(probes, disk);
    assert(paths::views(root_paths@).len() == root_paths.len());
    let mut evidence: Vec<String> = Vec::new();
    let mut i: usize = 0;
    while i < probes.len()
        invariant
            i <= probes.len(),
            evidence.len() == i,
            forall|j: int|
                0 <= j < i ==> (#[trigger] evidence[j])@ == probe_note(probes[j]@, disk@),
        decreases probes.len() - i,
    {
        let mut note = if disk.present(&probes[i]) {
            "root exists: ".to_owned()
        } else {
            "root missing: ".to_owned()
        };
        let place = probes[i].to_text();
        note.append(place.as_str());
        evidence.push(note);
        i += 1;
    }
    assert(text::texts(evidence@) =~= detection(paths::views(probes@), disk@).evidence);
    DetectionResult { detected: root_paths.len() > 0, evidence, root_paths }
}

/// A place that may be unknown, as a list of places to look at.
pub open spec fn probe_at(place: Option<Seq<Seq<char>>>) -> Seq<Seq<Seq<char>>> {
    match place {
        Some(path) => seq![path],
        None => Seq::empty(),
    }
}

/// Looks at a place that may be unknown.
pub fn detect_one(place: Option<FilePath>, disk: &Disk) -> (result: DetectionResult)
    ensures
        result@ == detection(probe_at(paths::held(place)), disk@),
{
    let mut probes: Vec<FilePath> = Vec::new();
    let ghost known = probe_at(paths::held(place));
    if let Some(path) = place {
        probes.push(path);
    }
    assert(paths::views(probes@) =~= known);
    detect_at(&probes, disk)
}

/// An agent that was found is somewhere, and what was looked at is told of each
/// place, found or not.
pub proof fn law_detection_is_backed(probes: Seq<Seq<Seq<char>>>, disk: DiskView)
    ensures
        detection(probes, disk).evidence.len() == probes.len(),
        detection(probes, disk).detected <==> detection(probes, disk).root_paths.len() > 0,
        detection(probes, disk).detected <==> exists|i: int|
            0 <= i < probes.len() && disk.present(#[trigger] probes[i]),
        forall|i: int|
            0 <= i < detection(probes, disk).root_paths.len() ==> disk.present(
                #[trigger] detection(probes, disk).root_paths[i],
            ) && probes.contains(detection(probes, disk).root_paths[i]),
{
    disk::lemma_present_ones(probes, disk);
}

proof fn lemma_fresh_add(
    connector: Seq<char>,
    root: RootView,
    a: Seq<Seq<Seq<char>>>,
    b: Seq<Seq<Seq<char>>>,
    role: DiscoveredSourceRole,
    since: Option<i64>,
    disk: DiskView,
)
    ensures
        fresh_sources(connector, root, a + b, role, since, disk) == fresh_sources(
            connector,
            root,
            a,
            role,
            since,
            disk,
        ) + fresh_sources(connector, root, b, role, since, disk),
    decreases b.len(),
{
    let first = fresh_sources(connector, root, a, role, since, disk);
    let second = fresh_sources(connector, root, b, role, since, disk);
    if b.len() == 0 {
        assert(a + b =~= a);
        assert(first + second =~= first);
    } else {
        lemma_fresh_add(connector, root, a, b.drop_last(), role, since, disk);
        assert((a + b).drop_last() =~= a + b.drop_last());
        assert((a + b).last() == b.last());
        assert(fresh_sources(connector, root, a + b, role, since, disk) =~= first + second);
    }
}

/// Each file that was not changed too long ago is a source, once and in order,
/// with the connector, the root and the role given and its own path and time.
pub proof fn law_each_fresh_file_is_a_source(
    connector: Seq<char>,
    root: RootView,
    before: Seq<Seq<Seq<char>>>,
    path: Seq<Seq<char>>,
    behind: Seq<Seq<Seq<char>>>,
    role: DiscoveredSourceRole,
    since: Option<i64>,
    disk: DiskView,
)
    ensures
        fresh_sources(connector, root, before + seq![path] + behind, role, since, disk)
            == fresh_sources(connector, root, before, role, since, disk) + (if disk.fresh(
            path,
            since,
        ) {
            seq![
                SourceView {
                    connector,
                    root,
                    source_path: path,
                    role,
                    required: true,
                    modified: disk.modified(path),
                },
            ]
        } else {
            Seq::empty()
        }) + fresh_sources(connector, root, behind, role, since, disk),
{
    lemma_fresh_add(connector, root, before + seq![path], behind, role, since, disk);
    lemma_fresh_add(connector, root, before, seq![path], role, since, disk);
    assert(seq![path].drop_last() =~= Seq::empty());
    let none = fresh_sources(connector, root, Seq::empty(), role, since, disk);
    assert(none =~= Seq::empty());
    let one = fresh_sources(connector, root, seq![path], role, since, disk);
    assert(disk.fresh(path, since) ==> one =~= seq![source(connector, root, path, role, disk)]);
    assert(!disk.fresh(path, since) ==> one =~= Seq::empty());
}

/// What is told of a place says whether it exists, and where it is.
pub proof fn law_evidence_tells_the_place(probes: Seq<Seq<Seq<char>>>, disk: DiskView, at: int)
    requires
        0 <= at < probes.len(),
    ensures
        detection(probes, disk).evidence[at] == (if disk.present(probes[at]) {
            "root exists: "@
        } else {
            "root missing: "@
        }) + paths::rendered(probes[at]),
        disk.present(probes[at]) ==> detection(probes, disk).root_paths.contains(probes[at]),
{
    disk::laws::law_existing_places_are_found(probes, disk);
    if disk.present(probes[at]) {
        let keep = |path: Seq<Seq<char>>| disk.is_file(path) || disk.dirs.contains(path);
        lemma_kept(probes, keep, at);
    }
}

proof fn lemma_kept(
    list: Seq<Seq<Seq<char>>>,
    keep: spec_fn(Seq<Seq<char>>) -> bool,
    at: int,
)
    requires
        0 <= at < list.len(),
        keep(list[at]),
    ensures
        list.filter(keep).contains(list[at]),
    decreases list.len(),
{
    reveal(Seq::filter);
    let earlier = list.drop_last();
    let out = list.filter(keep);
    if at < earlier.len() {
        lemma_kept(earlier, keep, at);
        let before = earlier.filter(keep);
        assert(earlier[at] == list[at]);
        let k = choose|k: int| 0 <= k < before.len() && before[k] == list[at];
        assert(out[k] == list[at]);
    } else {
        assert(out[out.len() - 1] == list[at]);
    }
}

} // verus!
