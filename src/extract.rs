//! Unpacking an archive: each entry whose name stays inside the destination
//! becomes a directory or a file placed under it, with its permission mode.
//! The archive is read here; writing the placements out is the caller's.
use vstd::prelude::*;

use vstd::slice::slice_to_vec;

use crate::error::ToolError;
use crate::layout::{join_path, joined};
use crate::text::{chars_of, split_on, suffix_of, has_suffix};

verus! {

#[verifier::external_type_specification]
#[verifier::external_body]
#[verifier::reject_recursive_types(R)]
pub struct ExZipArchive<R>(zip::ZipArchive<R>);

#[verifier::external_type_specification]
#[verifier::external_body]
pub struct ExZipError(zip::result::ZipError);

#[verifier::external_type_specification]
#[verifier::external_body]
#[verifier::reject_recursive_types(T)]
pub struct ExCursor<T>(std::io::Cursor<T>);

/// How many directories deep the path pieces `segs` end, read in order:
/// empty pieces and `.` stay, `..` goes up one, any other piece goes down
/// one; `None` once `..` would leave the start.
pub open spec fn depth_of(segs: Seq<Seq<char>>) -> Option<nat>
    decreases segs.len(),
{
    if segs.len() == 0 {
        Some(0)
    } else {
        match depth_of(segs.drop_last()) {
            None => None,
            Some(d) => {
                let s = segs.last();
                if s.len() == 0 || s == seq!['.'] {
                    Some(d)
                } else if s == seq!['.', '.'] {
                    if d == 0 {
                        None
                    } else {
                        Some((d - 1) as nat)
                    }
                } else {
                    Some(d + 1)
                }
            }
        }
    }
}

/// A relative path that can be placed under a directory without leaving
/// it: no NUL, not absolute, and no `..` that climbs above its start.
pub open spec fn is_enclosed(p: Seq<char>) -> bool {
    &&& !p.contains('\0')
    &&& !(p.len() > 0 && p[0] == '/')
    &&& depth_of(split_on(p, '/')) is Some
}

/// One entry as values: stored name, safe relative path if any, mode,
/// content.
pub type EntryView = (Seq<char>, Option<Seq<char>>, Option<u32>, Seq<u8>);

/// Whether zip reads a central directory from `bytes`.
pub uninterp spec fn zip_opens(bytes: Seq<u8>) -> bool;

/// For each central-directory record of the archive in `bytes`, in stored
/// order, the entry that zip reads there, or `None` where reading it fails.
pub uninterp spec fn zip_listing(bytes: Seq<u8>) -> Seq<
    Option<(Seq<char>, Option<Seq<char>>, Option<u32>, Seq<u8>)>,
>;

/// The bytes that an opened archive reads from.
pub uninterp spec fn archive_bytes(a: zip::ZipArchive<std::io::Cursor<Vec<u8>>>) -> Seq<u8>;

/// The entries of the archive in `bytes`, when it opens and every entry
/// reads.
pub open spec fn zip_entries(bytes: Seq<u8>) -> Option<Seq<EntryView>> {
    if zip_opens(bytes) && forall|i: int|
        0 <= i < zip_listing(bytes).len() ==> (#[trigger] zip_listing(bytes)[i]) is Some {
        Some(zip_listing(bytes).map_values(|o: Option<EntryView>| o->0))
    } else {
        None
    }
}

/// How a finished path piece moves the depth `d`.
pub open spec fn step_depth(d: Option<nat>, s: Seq<char>) -> Option<nat> {
    match d {
        None => None,
        Some(d) => if s.len() == 0 || s == seq!['.'] {
            Some(d)
        } else if s == seq!['.', '.'] {
            if d == 0 {
                None
            } else {
                Some((d - 1) as nat)
            }
        } else {
            Some(d + 1)
        },
    }
}

/// Moves the depth `d` by the piece `cs[from..to]`; `None` once it would
/// climb above the start.
fn piece_step(cs: &Vec<char>, from: usize, to: usize, d: usize) -> (r: Option<usize>)
    requires
        from <= to <= cs.len(),
        d < usize::MAX,
    ensures
        match step_depth(Some(d as nat), cs@.subrange(from as int, to as int)) {
            Some(x) => r == Some(x as usize),
            None => r is None,
        },
{
    let ghost s = cs@.subrange(from as int, to as int);
    if to - from == 1 && cs[from] == '.' {
        assert(s =~= seq!['.']);
        Some(d)
    } else if to - from == 2 && cs[from] == '.' && cs[from + 1] == '.' {
        assert(s =~= seq!['.', '.']);
        if d == 0 {
            None
        } else {
            Some(d - 1)
        }
    } else if to == from {
        Some(d)
    } else {
        assert(s != seq!['.']) by {
            if s.len() == 1 {
                assert(s[0] == cs@[from as int]);
            }
        }
        assert(s != seq!['.', '.']) by {
            if s.len() == 2 {
                assert(s[0] == cs@[from as int] && s[1] == cs@[from + 1]);
            }
        }
        Some(d + 1)
    }
}

/// Whether the relative path `p` stays inside the directory it is placed
/// under, by the rule of `is_enclosed`.
pub fn is_enclosed_path(p: &str) -> (r: bool)
    ensures
        r == is_enclosed(p@),
{
    let cs = chars_of(p);
    let mut k: usize = 0;
    while k < cs.len()
        invariant
            cs@ == p@,
            k <= cs.len(),
            forall|j: int| 0 <= j < k ==> cs@[j] != '\0',
        decreases cs.len() - k,
    {
        if cs[k] == '\0' {
            assert(p@.contains('\0')) by {
                assert(p@[k as int] == '\0');
            }
            return false;
        }
        k = k + 1;
    }
    assert(!p@.contains('\0'));
    if cs.len() > 0 && cs[0] == '/' {
        return false;
    }
    let mut d: usize = 0;
    let mut ok: bool = true;
    let mut start: usize = 0;
    let mut i: usize = 0;
    let ghost mut done: Seq<Seq<char>> = Seq::empty();
    assert(cs@.take(0) == Seq::<char>::empty());
    while i < cs.len()
        invariant
            cs@ == p@,
            start <= i <= cs.len(),
            2 * d <= start,
            split_on(cs@.take(i as int), '/') == done.push(cs@.subrange(start as int, i as int)),
            ok ==> depth_of(done) == Some(d as nat),
            !ok ==> depth_of(done) is None,
        decreases cs.len() - i,
    {
        assert(cs@.take(i + 1).drop_last() == cs@.take(i as int));
        if cs[i] == '/' {
            let ghost seg = cs@.subrange(start as int, i as int);
            assert(done.push(seg).drop_last() == done);
            assert(depth_of(done.push(seg)) == step_depth(depth_of(done), seg));
            if ok {
                match piece_step(&cs, start, i, d) {
                    Some(x) => {
                        d = x;
                    },
                    None => {
                        ok = false;
                    },
                }
            }
            proof {
                done = done.push(seg);
            }
            start = i + 1;
            assert(cs@.subrange(start as int, i + 1) == Seq::<char>::empty());
        } else {
            assert(cs@.subrange(start as int, i + 1) == cs@.subrange(start as int, i as int).push(
                cs@[i as int],
            ));
        }
        i = i + 1;
    }
    assert(cs@.take(i as int) == p@);
    let ghost seg = cs@.subrange(start as int, i as int);
    assert(done.push(seg).drop_last() == done);
    assert(depth_of(done.push(seg)) == step_depth(depth_of(done), seg));
    if !ok {
        return false;
    }
    match piece_step(&cs, start, i, d) {
        Some(_) => true,
        None => false,
    }
}

/// Relies on zip::ZipArchive::new: reads the central directory of an
/// archive held in memory; what it finds depends on the bytes alone.
#[verifier::external_body]
fn open_archive(bytes: Vec<u8>) -> (r: Result<
    zip::ZipArchive<std::io::Cursor<Vec<u8>>>,
    zip::result::ZipError,
>)
    ensures
        r is Ok == zip_opens(bytes@),
        r is Ok ==> archive_bytes(r->Ok_0) == bytes@,
{
    zip::ZipArchive::new(std::io::Cursor::new(bytes))
}

/// Relies on zip::ZipArchive::len: the number of central-directory records.
#[verifier::external_body]
fn entry_count(a: &zip::ZipArchive<std::io::Cursor<Vec<u8>>>) -> (r: usize)
    ensures
        r == zip_listing(archive_bytes(*a)).len(),
{
    a.len()
}

/// Relies on zip::ZipArchive::by_index_decrypt (with an empty password,
/// which zip discards for entries that are not encrypted, and which turns
/// the entry that `by_index` would unwrap into an error), then on
/// zip::read::ZipFile::name, enclosed_name and unix_mode, and on
/// std::io::Read::read_to_end for the content. Each read seeks to the
/// entry's own header, so it depends on the bytes and `i` alone.
/// enclosed_name, when it gives a path, gives the stored name itself.
#[verifier::external_body]
fn read_entry(a: &mut zip::ZipArchive<std::io::Cursor<Vec<u8>>>, i: usize) -> (r: Result<
    ArchiveEntry,
    zip::result::ZipError,
>)
    ensures
        archive_bytes(*final(a)) == archive_bytes(*old(a)),
        i < zip_listing(archive_bytes(*old(a))).len() ==> (r is Ok == zip_listing(
            archive_bytes(*old(a)),
        )[i as int] is Some),
        r is Ok ==> i < zip_listing(archive_bytes(*old(a))).len() && r->Ok_0@ == zip_listing(
            archive_bytes(*old(a)),
        )[i as int]->0,
        r is Ok ==> r->Ok_0.wf(),
{
    let mut f = match a.by_index_decrypt(i, b"")? {
        Ok(f) => f,
        Err(_) => return Err(zip::result::ZipError::UnsupportedArchive(
            zip::result::ZipError::PASSWORD_REQUIRED,
        )),
    };
    let mut content = Vec::new();
    std::io::Read::read_to_end(&mut f, &mut content)?;
    let enclosed = f.enclosed_name().map(|p| p.to_string_lossy().into_owned());
    Ok(ArchiveEntry { name: f.name().to_string(), enclosed, mode: f.unix_mode(), content })
}

/// Relies on the Display impl of zip::result::ZipError: a message.
#[verifier::external_body]
fn zip_error_text(e: &zip::result::ZipError) -> (r: String) {
    e.to_string()
}

/// One entry of an archive as read: its stored name, the name as a safe
/// relative path when it is one, its mode and its content.
#[derive(Debug, Clone, PartialEq, Eq)]
pub struct ArchiveEntry {
    pub name: String,
    pub enclosed: Option<String>,
    pub mode: Option<u32>,
    pub content: Vec<u8>,
}

impl View for ArchiveEntry {
    type V = EntryView;

    open spec fn view(&self) -> EntryView {
        (
            self.name@,
            match self.enclosed {
                Some(p) => Some(p@),
                None => None,
            },
            self.mode,
            self.content@,
        )
    }
}

/// The path zip offers, when there is one, is the stored name.
pub open spec fn entry_wf(e: EntryView) -> bool {
    e.1 is Some ==> e.1->0 == e.0
}

impl ArchiveEntry {
    pub open spec fn wf(&self) -> bool {
        entry_wf(self@)
    }
}

pub open spec fn entries_view(v: Seq<ArchiveEntry>) -> Seq<EntryView> {
    v.map_values(|e: ArchiveEntry| e@)
}

/// Where one entry goes.
#[derive(Debug, Clone, PartialEq, Eq)]
pub enum Placement {
    /// Create the directory `path` (with its parents) unless something is
    /// there, then give it `mode` if set.
    Directory { path: String, mode: Option<u32> },
    /// Create the parents of `path`, write `content` there over whatever
    /// file was there, then give it `mode` if set.
    File { path: String, content: Vec<u8>, mode: Option<u32> },
}

/// A placement seen as values: directory or not, path, content, mode.
pub type PlacementView = (bool, Seq<char>, Seq<u8>, Option<u32>);

impl View for Placement {
    type V = PlacementView;

    open spec fn view(&self) -> PlacementView {
        match self {
            Placement::Directory { path, mode } => (true, path@, Seq::empty(), *mode),
            Placement::File { path, content, mode } => (false, path@, content@, *mode),
        }
    }
}

pub open spec fn placements_view(v: Seq<Placement>) -> Seq<PlacementView> {
    v.map_values(|p: Placement| p@)
}

/// Where the entry `e` goes under `root`: nowhere when zip offers no path
/// for it or the path is not enclosed; a directory when its stored name ends in `/`; else a file.
pub open spec fn placement_of(e: EntryView, root: Seq<char>) -> Option<PlacementView> {
    match e.1 {
        None => None,
        Some(rel) => if !is_enclosed(rel) {
            None
        } else if has_suffix(e.0, seq!['/']) {
            Some((true, joined(root, rel), Seq::empty(), e.2))
        } else {
            Some((false, joined(root, rel), e.3, e.2))
        },
    }
}

/// The placements of `entries` under `root`, in archive order.
pub open spec fn plan_of(entries: Seq<EntryView>, root: Seq<char>) -> Seq<PlacementView> {
    entries.filter_map(|e: EntryView| placement_of(e, root))
}

/// Lays out `entries` under `root`, skipping those whose names are unsafe.
pub fn place_entries(entries: &Vec<ArchiveEntry>, root: &str) -> (r: Vec<Placement>)
    ensures
        placements_view(r@) == plan_of(entries_view(entries@), root@),
{
    let ghost f = |e: EntryView| placement_of(e, root@);
    let ghost ev = entries_view(entries@);
    let mut out: Vec<Placement> = Vec::new();
    let mut i: usize = 0;
    assert(ev.take(0).filter_map(f) == Seq::<PlacementView>::empty());
    while i < entries.len()
        invariant
            i <= entries.len(),
            ev == entries_view(entries@),
            f == (|e: EntryView| placement_of(e, root@)),
            placements_view(out@) == ev.take(i as int).filter_map(f),
        decreases entries.len() - i,
    {
        let e = &entries[i];
        assert(ev.take(i + 1).drop_last() == ev.take(i as int));
        let ghost prev = ev.take(i as int).filter_map(f);
        assert(ev.take(i + 1).last() == e@);
        match &e.enclosed {
            None => {
                assert(f(e@) is None);
                assert(ev.take(i + 1).filter_map(f) == prev);
            },
            Some(rel) if !is_enclosed_path(rel.as_str()) => {
                assert(f(e@) is None);
                assert(ev.take(i + 1).filter_map(f) == prev);
            },
            Some(rel) => {
                let path = join_path(root, rel.as_str());
                let name = chars_of(e.name.as_str());
                let slash: Vec<char> = vec!['/'];
                assert(slash@ == seq!['/']);
                let is_dir = suffix_of(&name, &slash);
                let p = if is_dir {
                    Placement::Directory { path, mode: e.mode }
                } else {
                    Placement::File { path, content: slice_to_vec(e.content.as_slice()), mode: e.mode }
                };
                out.push(p);
                assert(f(e@) == Some(p@));
                assert(ev.take(i + 1).filter_map(f) == prev + seq![p@]);
                assert(placements_view(out@) == prev + seq![p@]);
            },
        }
        i = i + 1;
    }
    assert(ev.take(i as int) == ev);
    out
}

/// Reads every entry of the archive held in `bytes`, in stored order:
/// exactly the entries zip reads there, or `ArchiveCorrupt` when the
/// archive does not open or one of its entries does not read.
pub fn read_entries(bytes: Vec<u8>) -> (r: Result<Vec<ArchiveEntry>, ToolError>)
    ensures
        r is Ok <==> zip_entries(bytes@) is Some,
        r is Ok ==> entries_view(r->Ok_0@) == zip_entries(bytes@)->0,
        r is Ok ==> forall|i: int| 0 <= i < r->Ok_0.len() ==> (#[trigger] r->Ok_0[i]).wf(),
        r is Err ==> r->Err_0 is ArchiveCorrupt,
{
    let ghost src = bytes@;
    let mut archive = match open_archive(bytes) {
        Ok(a) => a,
        Err(e) => return Err(ToolError::ArchiveCorrupt(zip_error_text(&e))),
    };
    let ghost listing = zip_listing(src);
    let n = entry_count(&archive);
    let mut out: Vec<ArchiveEntry> = Vec::new();
    let mut i: usize = 0;
    while i < n
        invariant
            zip_opens(src),
            src == bytes@,
            listing == zip_listing(src),
            archive_bytes(archive) == src,
            n == listing.len(),
            i <= n,
            out.len() == i,
            forall|j: int| 0 <= j < i ==> (#[trigger] listing[j]) is Some,
            forall|j: int| 0 <= j < i ==> (#[trigger] out@[j])@ == listing[j]->0,
            forall|j: int| 0 <= j < out.len() ==> (#[trigger] out@[j]).wf(),
        decreases n - i,
    {
        let e = match read_entry(&mut archive, i) {
            Ok(e) => e,
            Err(err) => {
                assert(!(zip_listing(src)[i as int] is Some));
                assert(zip_entries(src) is None);
                return Err(ToolError::ArchiveCorrupt(zip_error_text(&err)));
            },
        };
        out.push(e);
        i = i + 1;
    }
    assert(entries_view(out@) == listing.map_values(|o: Option<EntryView>| o->0));
    Ok(out)
}

/// Each placement of `plan` is at an enclosed path under `root`.
pub open spec fn all_under(plan: Seq<PlacementView>, root: Seq<char>) -> bool {
    forall|k: int|
        0 <= k < plan.len() ==> exists|rel: Seq<char>|
            is_enclosed(rel) && (#[trigger] plan[k]).1 == joined(root, rel)
}

/// Every placement lies under `root`, at a
/// relative path that never climbs above it: an entry such as
/// `../../etc/passwd` gives no placement at all.
pub proof fn placements_stay_under_root(entries: Seq<EntryView>, root: Seq<char>)
    ensures
        all_under(plan_of(entries, root), root),
    decreases entries.len(),
{
    if entries.len() > 0 {
        let rest = entries.drop_last();
        placements_stay_under_root(rest, root);
        let prev = plan_of(rest, root);
        let e = entries.last();
        match placement_of(e, root) {
            Some(x) => {
                assert(plan_of(entries, root) == prev + seq![x]);
                assert forall|k: int| 0 <= k < plan_of(entries, root).len() implies exists|
                    rel: Seq<char>,
                | is_enclosed(rel) && (#[trigger] plan_of(entries, root)[k]).1 == joined(
                    root,
                    rel,
                ) by {
                    if k == prev.len() {
                        let rel = e.1->0;
                        assert(is_enclosed(rel) && plan_of(entries, root)[k].1 == joined(root, rel));
                    } else {
                        assert(plan_of(entries, root)[k] == prev[k]);
                    }
                }
            },
            None => {
                assert(plan_of(entries, root) == prev);
                assert forall|k: int| 0 <= k < plan_of(entries, root).len() implies exists|
                    rel: Seq<char>,
                | is_enclosed(rel) && (#[trigger] plan_of(entries, root)[k]).1 == joined(
                    root,
                    rel,
                ) by {
                    assert(plan_of(entries, root)[k] == prev[k]);
                }
            },
        }
    } else {
        assert(plan_of(entries, root).len() == 0);
    }
}

/// Reads the archive held in `bytes` and lays out its entries under `root`:
/// exactly the placements of the entries zip reads there, those whose
/// names would leave `root` skipped. An archive that does not open, or has
/// an entry that does not read, gives `ArchiveCorrupt`.
pub fn extract_to_directory(bytes: Vec<u8>, root: &str) -> (r: Result<Vec<Placement>, ToolError>)
    ensures
        r is Ok <==> zip_entries(bytes@) is Some,
        r is Err ==> r->Err_0 is ArchiveCorrupt,
        r is Ok ==> placements_view(r->Ok_0@) == plan_of(zip_entries(bytes@)->0, root@),
        r is Ok ==> all_under(placements_view(r->Ok_0@), root@),
{
    let ghost src = bytes@;
    let entries = match read_entries(bytes) {
        Ok(v) => v,
        Err(e) => return Err(e),
    };
    let placed = place_entries(&entries, root);
    proof {
        placements_stay_under_root(entries_view(entries@), root@);
    }
    Ok(placed)
}

/// Extracting the same bytes under the same root twice leaves the tree as
/// the first extraction left it: both calls place the same entries, and
/// writing those placements again changes nothing.
pub proof fn extracting_twice_is_idempotent(bytes: Seq<u8>, root: Seq<char>, t: Tree)
    requires
        zip_entries(bytes) is Some,
    ensures
        ({
            let plan = plan_of(zip_entries(bytes)->0, root);
            apply_plan(apply_plan(t, plan), plan) == apply_plan(t, plan)
        }),
{
    extraction_is_idempotent(t, plan_of(zip_entries(bytes)->0, root));
}

/// What sits at a path of the destination tree.
pub enum Node {
    Dir,
    File(Seq<u8>),
}

/// The destination tree as far as extraction touches it: what is at each
/// path, and the permission mode set on it.
pub struct Tree {
    pub nodes: Map<Seq<char>, Node>,
    pub modes: Map<Seq<char>, u32>,
}

/// The tree after writing out one placement.
pub open spec fn apply_placement(t: Tree, p: PlacementView) -> Tree {
    Tree {
        nodes: if p.0 {
            if t.nodes.contains_key(p.1) {
                t.nodes
            } else {
                t.nodes.insert(p.1, Node::Dir)
            }
        } else {
            t.nodes.insert(p.1, Node::File(p.2))
        },
        modes: match p.3 {
            Some(m) => t.modes.insert(p.1, m),
            None => t.modes,
        },
    }
}

/// The tree after writing out `plan` in order.
pub open spec fn apply_plan(t: Tree, plan: Seq<PlacementView>) -> Tree
    decreases plan.len(),
{
    if plan.len() == 0 {
        t
    } else {
        apply_placement(apply_plan(t, plan.drop_last()), plan.last())
    }
}

pub open spec fn node_at(m: Map<Seq<char>, Node>, k: Seq<char>) -> Option<Node> {
    if m.contains_key(k) {
        Some(m[k])
    } else {
        None
    }
}

pub open spec fn mode_at(m: Map<Seq<char>, u32>, k: Seq<char>) -> Option<u32> {
    if m.contains_key(k) {
        Some(m[k])
    } else {
        None
    }
}

/// Content of the last file that `plan` writes at `k`.
pub open spec fn last_file(plan: Seq<PlacementView>, k: Seq<char>) -> Option<Seq<u8>>
    decreases plan.len(),
{
    if plan.len() == 0 {
        None
    } else if !plan.last().0 && plan.last().1 == k {
        Some(plan.last().2)
    } else {
        last_file(plan.drop_last(), k)
    }
}

/// Whether `plan` creates a directory at `k`.
pub open spec fn makes_dir(plan: Seq<PlacementView>, k: Seq<char>) -> bool
    decreases plan.len(),
{
    if plan.len() == 0 {
        false
    } else {
        (plan.last().0 && plan.last().1 == k) || makes_dir(plan.drop_last(), k)
    }
}

/// The last mode that `plan` sets at `k`.
pub open spec fn last_mode(plan: Seq<PlacementView>, k: Seq<char>) -> Option<u32>
    decreases plan.len(),
{
    if plan.len() == 0 {
        None
    } else if plan.last().1 == k && plan.last().3 is Some {
        plan.last().3
    } else {
        last_mode(plan.drop_last(), k)
    }
}

/// What is at `k` after `plan`, from what was there before.
pub open spec fn node_after(x: Option<Node>, plan: Seq<PlacementView>, k: Seq<char>) -> Option<
    Node,
> {
    match last_file(plan, k) {
        Some(c) => Some(Node::File(c)),
        None => if makes_dir(plan, k) && x is None {
            Some(Node::Dir)
        } else {
            x
        },
    }
}

proof fn lemma_node_after(t: Tree, plan: Seq<PlacementView>, k: Seq<char>)
    ensures
        node_at(apply_plan(t, plan).nodes, k) == node_after(node_at(t.nodes, k), plan, k),
        mode_at(apply_plan(t, plan).modes, k) == match last_mode(plan, k) {
            Some(m) => Some(m),
            None => mode_at(t.modes, k),
        },
    decreases plan.len(),
{
    if plan.len() > 0 {
        lemma_node_after(t, plan.drop_last(), k);
    }
}

/// Writing out the same placements a second time changes nothing: the
/// files, their contents, the directories and the modes stay as the first
/// pass left them.
pub proof fn extraction_is_idempotent(t: Tree, plan: Seq<PlacementView>)
    ensures
        apply_plan(apply_plan(t, plan), plan) == apply_plan(t, plan),
{
    let t1 = apply_plan(t, plan);
    let t2 = apply_plan(t1, plan);
    assert forall|k: Seq<char>| node_at(t2.nodes, k) == node_at(t1.nodes, k) by {
        lemma_node_after(t, plan, k);
        lemma_node_after(t1, plan, k);
    }
    assert forall|k: Seq<char>| mode_at(t2.modes, k) == mode_at(t1.modes, k) by {
        lemma_node_after(t, plan, k);
        lemma_node_after(t1, plan, k);
    }
    assert(t2.nodes =~= t1.nodes) by {
        assert forall|k: Seq<char>| #[trigger] t2.nodes.contains_key(k) == t1.nodes.contains_key(k)
            by {
            assert(node_at(t2.nodes, k) == node_at(t1.nodes, k));
        }
        assert forall|k: Seq<char>| t2.nodes.contains_key(k) implies #[trigger] t2.nodes[k]
            == t1.nodes[k] by {
            assert(node_at(t2.nodes, k) == node_at(t1.nodes, k));
        }
    }
    assert(t2.modes =~= t1.modes) by {
        assert forall|k: Seq<char>| #[trigger] t2.modes.contains_key(k) == t1.modes.contains_key(k)
            by {
            assert(mode_at(t2.modes, k) == mode_at(t1.modes, k));
        }
        assert forall|k: Seq<char>| t2.modes.contains_key(k) implies #[trigger] t2.modes[k]
            == t1.modes[k] by {
            assert(mode_at(t2.modes, k) == mode_at(t1.modes, k));
        }
    }
}

} // verus!
