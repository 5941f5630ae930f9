//! The per-tool decision: is the tool current, and if not, which assets to
//! fetch and where each one goes.
use vstd::prelude::*;

use crate::error::ToolError;
use crate::arch::{arch_dir_name, arch_of, classify_asset, Architecture};
use crate::layout::{arch_dir, joined, marker_path, MARKER_FILE};
use crate::text::{chars_of, has_suffix, suffix_of};
use crate::version::{is_up_to_date, up_to_date};

verus! {

/// One downloadable file of a release.
#[derive(Debug, Clone, PartialEq, Eq)]
pub struct AssetDescriptor {
    pub name: String,
    pub download_url: String,
}

impl View for AssetDescriptor {
    type V = (Seq<char>, Seq<char>);

    open spec fn view(&self) -> (Seq<char>, Seq<char>) {
        (self.name@, self.download_url@)
    }
}

/// The latest release of a tool: its tag and its assets in the order given.
#[derive(Debug, Clone, PartialEq, Eq)]
pub struct ReleaseDescriptor {
    pub tag: String,
    pub assets: Vec<AssetDescriptor>,
}

/// An asset chosen for installation, with the architecture it goes under.
#[derive(Debug, Clone, PartialEq, Eq)]
pub struct Download {
    pub name: String,
    pub url: String,
    pub arch: Architecture,
}

impl View for Download {
    type V = (Seq<char>, Seq<char>, Architecture);

    open spec fn view(&self) -> (Seq<char>, Seq<char>, Architecture) {
        (self.name@, self.url@, self.arch)
    }
}

/// What to do for one tool.
#[derive(Debug, Clone, PartialEq, Eq)]
pub enum UpdatePlan {
    /// The marker already covers the latest tag: nothing is fetched.
    UpToDate,
    /// Write `tag` as the new marker, then fetch and unpack `downloads` in order.
    Install { tag: String, downloads: Vec<Download> },
}

pub open spec fn assets_view(v: Seq<AssetDescriptor>) -> Seq<(Seq<char>, Seq<char>)> {
    v.map_values(|a: AssetDescriptor| a@)
}

pub open spec fn downloads_view(v: Seq<Download>) -> Seq<(Seq<char>, Seq<char>, Architecture)> {
    v.map_values(|d: Download| d@)
}

/// The archive suffix that the extractor reads.
pub open spec fn is_archive_name(name: Seq<char>) -> bool {
    has_suffix(name, seq!['.', 'z', 'i', 'p'])
}

/// An asset is taken when it is an archive whose name gives an architecture.
pub open spec fn download_of(a: (Seq<char>, Seq<char>)) -> Option<
    (Seq<char>, Seq<char>, Architecture),
> {
    if !is_archive_name(a.0) {
        None
    } else {
        match arch_of(a.0) {
            Some(x) => Some((a.0, a.1, x)),
            None => None,
        }
    }
}

/// The downloads chosen from `assets`, in their order.
pub open spec fn selection(assets: Seq<AssetDescriptor>) -> Seq<(Seq<char>, Seq<char>, Architecture)> {
    assets_view(assets).filter_map(|a: (Seq<char>, Seq<char>)| download_of(a))
}

/// Whether `name` ends in the archive suffix.
pub fn is_archive(name: &str) -> (r: bool)
    ensures
        r == is_archive_name(name@),
{
    let n = chars_of(name);
    suffix_of(&n, &vec!['.', 'z', 'i', 'p'])
}

/// Keeps the archives among `assets` whose names give an architecture.
pub fn select_assets(assets: &Vec<AssetDescriptor>) -> (r: Vec<Download>)
    ensures
        downloads_view(r@) == selection(assets@),
{
    let mut out: Vec<Download> = Vec::new();
    let ghost f = |a: (Seq<char>, Seq<char>)| download_of(a);
    let mut i: usize = 0;
    assert(assets_view(assets@.take(0)).filter_map(f) == Seq::<
        (Seq<char>, Seq<char>, Architecture),
    >::empty());
    while i < assets.len()
        invariant
            i <= assets.len(),
            f == (|a: (Seq<char>, Seq<char>)| download_of(a)),
            downloads_view(out@) == assets_view(assets@.take(i as int)).filter_map(f),
        decreases assets.len() - i,
    {
        let a = &assets[i];
        let ghost prev = assets_view(assets@.take(i as int));
        assert(assets_view(assets@.take(i + 1)).drop_last() == prev);
        assert(assets_view(assets@.take(i + 1)).last() == a@);
        let take = is_archive(a.name.as_str());
        if take {
            match classify_asset(a.name.as_str()) {
                Some(arch) => {
                    let d = Download { name: a.name.clone(), url: a.download_url.clone(), arch };
                    out.push(d);
                    assert(downloads_view(out@) == prev.filter_map(f) + seq![d@]);
                },
                None => {},
            }
        }
        i = i + 1;
    }
    assert(assets@.take(i as int) == assets@);
    out
}

pub open spec fn marker_view(m: Option<&str>) -> Option<Seq<char>> {
    match m {
        Some(s) => Some(s@),
        None => None,
    }
}

/// Decides what to do for a tool whose marker reads `marker` (`None` when
/// it has none) and whose latest release is `release`.
pub fn plan_update(marker: Option<&str>, release: &ReleaseDescriptor) -> (r: UpdatePlan)
    ensures
        up_to_date(marker_view(marker), release.tag@) ==> r is UpToDate,
        !up_to_date(marker_view(marker), release.tag@) ==> (r matches UpdatePlan::Install {
            tag,
            downloads,
        } && tag@ == release.tag@ && downloads_view(downloads@) == selection(release.assets@)),
{
    if is_up_to_date(marker, release.tag.as_str()) {
        UpdatePlan::UpToDate
    } else {
        UpdatePlan::Install { tag: release.tag.clone(), downloads: select_assets(&release.assets) }
    }
}

/// What follows the lookup of a tool's latest release.
#[derive(Debug, Clone, PartialEq, Eq)]
pub enum LookupOutcome {
    /// Go on with this release.
    Proceed(ReleaseDescriptor),
    /// Report this failure and go on with the next tool; the run goes on.
    Skip(ToolError),
}

/// A failed lookup ends the work on that tool only: it is reported and the
/// next tool follows.
pub fn after_lookup(r: Result<ReleaseDescriptor, ToolError>) -> (o: LookupOutcome)
    ensures
        match r {
            Ok(d) => o == LookupOutcome::Proceed(d),
            Err(e) => o == LookupOutcome::Skip(e),
        },
{
    match r {
        Ok(d) => LookupOutcome::Proceed(d),
        Err(e) => LookupOutcome::Skip(e),
    }
}

/// One thing to do for a tool, in the order given.
#[derive(Debug, Clone, PartialEq, Eq)]
pub enum Step {
    /// Report that `tag` is already installed; nothing else happens.
    Current { tag: String },
    /// Record `tag` in the marker file at `path`.
    WriteMarker { path: String, tag: String },
    /// Create `dir` if absent, fetch the asset `name` from `url`, and unpack
    /// it into `dir`.
    Install { dir: String, url: String, name: String },
}

/// The steps for the tool `repo` under `root`, whose marker reads `marker`
/// and whose latest release is `release`: when current, one report; else
/// the marker is written first, then one install per chosen asset in order,
/// each into its architecture's directory.
pub fn tool_steps(root: &str, repo: &str, marker: Option<&str>, release: &ReleaseDescriptor) -> (r:
    Vec<Step>)
    ensures
        up_to_date(marker_view(marker), release.tag@) ==> r.len() == 1 && (r[0] matches Step::Current {
            tag,
        } && tag@ == release.tag@),
        !up_to_date(marker_view(marker), release.tag@) ==> {
            let chosen = selection(release.assets@);
            &&& r.len() == chosen.len() + 1
            &&& r[0] matches Step::WriteMarker { path, tag } && path@ == joined(
                joined(root@, repo@),
                MARKER_FILE@,
            ) && tag@ == release.tag@
            &&& forall|i: int|
                0 <= i < chosen.len() ==> (#[trigger] r[i + 1] matches Step::Install { dir, url, name }
                    && dir@ == joined(joined(root@, repo@), arch_dir_name(chosen[i].2)) && url@
                    == chosen[i].1 && name@ == chosen[i].0)
        },
{
    match plan_update(marker, release) {
        UpdatePlan::UpToDate => {
            let mut r: Vec<Step> = Vec::new();
            r.push(Step::Current { tag: release.tag.clone() });
            r
        },
        UpdatePlan::Install { tag, downloads } => {
            let mut r: Vec<Step> = Vec::new();
            r.push(Step::WriteMarker { path: marker_path(root, repo), tag });
            let mut i: usize = 0;
            while i < downloads.len()
                invariant
                    i <= downloads.len(),
                    r.len() == i + 1,
                    r[0] matches Step::WriteMarker { path, tag } && path@ == joined(
                        joined(root@, repo@),
                        MARKER_FILE@,
                    ) && tag@ == release.tag@,
                    forall|j: int|
                        0 <= j < i ==> (#[trigger] r[j + 1] matches Step::Install { dir, url, name }
                            && dir@ == joined(joined(root@, repo@), arch_dir_name(downloads@[j].arch))
                            && url@ == downloads@[j].url@ && name@ == downloads@[j].name@),
                decreases downloads.len() - i,
            {
                let d = &downloads[i];
                let dir = arch_dir(root, repo, d.arch);
                r.push(Step::Install { dir, url: d.url.clone(), name: d.name.clone() });
                i = i + 1;
            }
            proof {
                assert forall|j: int| 0 <= j < downloads.len() implies downloads@[j]@ == (
                    #[trigger] downloads_view(downloads@)[j]) by {}
            }
            r
        },
    }
}

} // verus!
