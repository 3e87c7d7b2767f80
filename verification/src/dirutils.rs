//! The entry source scanner and index builder: turn descriptor files and
//! binary-directory listings into index entries, resolving every icon token,
//! and apply the directory policy — the primary descriptor directory is
//! required, every other directory is optional and skipped when unreadable.
//!
//! Reading the directories is the caller's concern; the scanner takes their
//! contents as plain values, in priority order for the directories and scan
//! order within each one, which fixes the order of the built index.

use vstd::prelude::*;

use crate::desktop::{lookup_value, spec_lookup};
use crate::icons::{spec_icon_or_default, IconResolver};
use crate::state::{models, ResultModel, SearchResult, SourceKind};
use crate::strutil::{file_stem, spec_file_stem};

verus! {

/// One descriptor file handed to the scanner: where it came from and what it
/// holds.
pub struct DescriptorFile {
    pub path: String,
    pub content: String,
}

/// The mathematical value of a [`DescriptorFile`].
pub ghost struct DescriptorFileModel {
    pub path: Seq<char>,
    pub content: Seq<char>,
}

impl View for DescriptorFile {
    type V = DescriptorFileModel;

    open spec fn view(&self) -> DescriptorFileModel {
        DescriptorFileModel { path: self.path@, content: self.content@ }
    }
}

/// One `applications` directory: whether it could be read, and the descriptor
/// files it holds, in scan order.
pub struct DescriptorDir {
    pub readable: bool,
    pub files: Vec<DescriptorFile>,
}

pub ghost struct DescriptorDirModel {
    pub readable: bool,
    pub files: Seq<DescriptorFileModel>,
}

/// The models of a directory's descriptor files.
pub open spec fn file_models(s: Seq<DescriptorFile>) -> Seq<DescriptorFileModel> {
    s.map_values(|f: DescriptorFile| f@)
}

impl View for DescriptorDir {
    type V = DescriptorDirModel;

    open spec fn view(&self) -> DescriptorDirModel {
        DescriptorDirModel { readable: self.readable, files: file_models(self.files@) }
    }
}

/// One binary directory: whether it could be read, and the absolute paths of
/// the regular files it holds, in scan order.
pub struct BinDir {
    pub readable: bool,
    pub files: Vec<String>,
}

pub ghost struct BinDirModel {
    pub readable: bool,
    pub files: Seq<Seq<char>>,
}

impl View for BinDir {
    type V = BinDirModel;

    open spec fn view(&self) -> BinDirModel {
        BinDirModel { readable: self.readable, files: self.files.deep_view() }
    }
}

/// The models of the descriptor directories.
pub open spec fn ddir_models(s: Seq<DescriptorDir>) -> Seq<DescriptorDirModel> {
    s.map_values(|d: DescriptorDir| d@)
}

/// The models of the binary directories.
pub open spec fn bdir_models(s: Seq<BinDir>) -> Seq<BinDirModel> {
    s.map_values(|d: BinDir| d@)
}

/// Why an index build can fail: the required primary descriptor directory
/// could not be enumerated.
#[derive(Clone, Copy, PartialEq, Eq, Structural, Debug)]
pub enum BuildError {
    CannotEnumerateApplications,
}

/// The entry a descriptor file yields: `Some` exactly when the `Desktop
/// Entry` section holds all four required keys (`Name`, `Comment`, `Icon`,
/// `Exec`) and the name and command values are non-empty; the icon token is
/// resolved against the themes, falling back to the default icon path, so the
/// entry never points at an unresolved icon.
pub open spec fn spec_entry_from_desktopentry(
    content: Seq<char>,
    path: Seq<char>,
    themes: Seq<Seq<Seq<char>>>,
) -> Option<ResultModel> {
    let name = spec_lookup(content, "Desktop Entry"@, "Name"@);
    let comment = spec_lookup(content, "Desktop Entry"@, "Comment"@);
    let icon = spec_lookup(content, "Desktop Entry"@, "Icon"@);
    let exec = spec_lookup(content, "Desktop Entry"@, "Exec"@);
    if name is Some && comment is Some && icon is Some && exec is Some && name->Some_0.len() > 0
        && exec->Some_0.len() > 0 {
        Some(
            ResultModel {
                icon_path: Some(spec_icon_or_default(themes, icon->Some_0)),
                path: path,
                name: name->Some_0,
                description: comment->Some_0,
                command: exec->Some_0,
                source: SourceKind::DesktopDescriptor,
                selected: false,
                score: 0,
                indices: seq![],
            },
        )
    } else {
        None
    }
}

/// The entry a plain executable yields: its file stem as the display name,
/// the full path as description and command, and the fixed `terminal` icon
/// token resolved against the themes. `None` exactly when the path has no
/// file stem.
pub open spec fn spec_entry_from_bin(path: Seq<char>, themes: Seq<Seq<Seq<char>>>) -> Option<
    ResultModel,
> {
    match spec_file_stem(path) {
        None => None,
        Some(st) => Some(
            ResultModel {
                icon_path: Some(spec_icon_or_default(themes, "terminal"@)),
                path: path,
                name: st,
                description: path,
                command: path,
                source: SourceKind::RawExecutable,
                selected: false,
                score: 0,
                indices: seq![],
            },
        ),
    }
}

/// Build the entry of one descriptor file, per
/// [`spec_entry_from_desktopentry`]: a file missing any required key (or
/// naming nothing, or launching nothing) is silently skipped.
pub fn searchresult_from_desktopentry(file: &DescriptorFile, icons: &mut IconResolver) -> (r:
    Option<SearchResult>)
    requires
        old(icons).wf(),
    ensures
        final(icons).wf(),
        final(icons).theme_files == old(icons).theme_files,
        match r {
            Some(e) => spec_entry_from_desktopentry(
                file.content@,
                file.path@,
                old(icons).theme_files.deep_view(),
            ) == Some(e@),
            None => spec_entry_from_desktopentry(
                file.content@,
                file.path@,
                old(icons).theme_files.deep_view(),
            ) is None,
        },
{
    let name = match lookup_value(file.content.as_str(), "Desktop Entry", "Name") {
        Some(v) => v,
        None => {
            return None;
        },
    };
    let comment = match lookup_value(file.content.as_str(), "Desktop Entry", "Comment") {
        Some(v) => v,
        None => {
            return None;
        },
    };
    let icon = match lookup_value(file.content.as_str(), "Desktop Entry", "Icon") {
        Some(v) => v,
        None => {
            return None;
        },
    };
    let exec = match lookup_value(file.content.as_str(), "Desktop Entry", "Exec") {
        Some(v) => v,
        None => {
            return None;
        },
    };
    if name.as_str().is_empty() || exec.as_str().is_empty() {
        return None;
    }
    let icon_path = icons.resolve_or_default(icon.as_str());
    let e = SearchResult {
        icon_path: Some(icon_path),
        path: file.path.clone(),
        name,
        description: comment,
        command: exec,
        source: SourceKind::DesktopDescriptor,
        selected: false,
        score: 0,
        indices: Vec::new(),
    };
    proof {
        assert(e@.indices =~= Seq::<usize>::empty());
    }
    Some(e)
}

/// Build the entry of one plain executable, per [`spec_entry_from_bin`].
pub fn searchresult_from_bin(path: &str, icons: &mut IconResolver) -> (r: Option<SearchResult>)
    requires
        old(icons).wf(),
    ensures
        final(icons).wf(),
        final(icons).theme_files == old(icons).theme_files,
        match r {
            Some(e) => spec_entry_from_bin(path@, old(icons).theme_files.deep_view()) == Some(e@),
            None => spec_entry_from_bin(path@, old(icons).theme_files.deep_view()) is None,
        },
{
    let name = match file_stem(path) {
        Some(st) => st,
        None => {
            return None;
        },
    };
    let icon_path = icons.resolve_or_default("terminal");
    let e = SearchResult {
        icon_path: Some(icon_path),
        path: path.to_owned(),
        name,
        description: path.to_owned(),
        command: path.to_owned(),
        source: SourceKind::RawExecutable,
        selected: false,
        score: 0,
        indices: Vec::new(),
    };
    proof {
        assert(e@.indices =~= Seq::<usize>::empty());
    }
    Some(e)
}

/// What one descriptor file contributes to the index.
pub open spec fn desc_tail(
    f: DescriptorFileModel,
    themes: Seq<Seq<Seq<char>>>,
) -> Seq<ResultModel> {
    match spec_entry_from_desktopentry(f.content, f.path, themes) {
        Some(m) => seq![m],
        None => Seq::<ResultModel>::empty(),
    }
}

/// What one executable path contributes to the index.
pub open spec fn bin_tail(path: Seq<char>, themes: Seq<Seq<Seq<char>>>) -> Seq<ResultModel> {
    match spec_entry_from_bin(path, themes) {
        Some(m) => seq![m],
        None => Seq::<ResultModel>::empty(),
    }
}

/// The entries of one descriptor directory's files, from position `k` on.
pub open spec fn spec_desc_files_from(
    files: Seq<DescriptorFileModel>,
    k: int,
    themes: Seq<Seq<Seq<char>>>,
) -> Seq<ResultModel>
    decreases files.len() - k,
{
    if k < 0 || k >= files.len() {
        Seq::<ResultModel>::empty()
    } else {
        desc_tail(files[k], themes) + spec_desc_files_from(files, k + 1, themes)
    }
}

/// The entries of the descriptor directories from position `d` on; an
/// unreadable directory past the first contributes nothing.
pub open spec fn spec_desc_dirs_from(
    dirs: Seq<DescriptorDirModel>,
    d: int,
    themes: Seq<Seq<Seq<char>>>,
) -> Seq<ResultModel>
    decreases dirs.len() - d,
{
    if d < 0 || d >= dirs.len() {
        Seq::<ResultModel>::empty()
    } else {
        (if dirs[d].readable {
            spec_desc_files_from(dirs[d].files, 0, themes)
        } else {
            Seq::<ResultModel>::empty()
        }) + spec_desc_dirs_from(dirs, d + 1, themes)
    }
}

/// The entries of one binary directory's files, from position `k` on.
pub open spec fn spec_bin_files_from(
    files: Seq<Seq<char>>,
    k: int,
    themes: Seq<Seq<Seq<char>>>,
) -> Seq<ResultModel>
    decreases files.len() - k,
{
    if k < 0 || k >= files.len() {
        Seq::<ResultModel>::empty()
    } else {
        bin_tail(files[k], themes) + spec_bin_files_from(files, k + 1, themes)
    }
}

/// The entries of the binary directories from position `d` on; an unreadable
/// one contributes nothing.
pub open spec fn spec_bin_dirs_from(
    dirs: Seq<BinDirModel>,
    d: int,
    themes: Seq<Seq<Seq<char>>>,
) -> Seq<ResultModel>
    decreases dirs.len() - d,
{
    if d < 0 || d >= dirs.len() {
        Seq::<ResultModel>::empty()
    } else {
        (if dirs[d].readable {
            spec_bin_files_from(dirs[d].files, 0, themes)
        } else {
            Seq::<ResultModel>::empty()
        }) + spec_bin_dirs_from(dirs, d + 1, themes)
    }
}

/// The whole built index: all descriptor entries, then all executable
/// entries, in directory priority order and scan order.
pub open spec fn spec_build(
    ddirs: Seq<DescriptorDirModel>,
    bdirs: Seq<BinDirModel>,
    themes: Seq<Seq<Seq<char>>>,
) -> Seq<ResultModel> {
    spec_desc_dirs_from(ddirs, 0, themes) + spec_bin_dirs_from(bdirs, 0, themes)
}

/// When building succeeds: the primary (first) descriptor directory, if any
/// is configured, must be readable.
pub open spec fn spec_build_ok(ddirs: Seq<DescriptorDirModel>) -> bool {
    ddirs.len() == 0 || ddirs[0].readable
}

fn scan_descriptor_files(files: &Vec<DescriptorFile>, icons: &mut IconResolver) -> (v: Vec<
    SearchResult,
>)
    requires
        old(icons).wf(),
    ensures
        final(icons).wf(),
        final(icons).theme_files == old(icons).theme_files,
        models(v@) == spec_desc_files_from(
            file_models(files@),
            0,
            old(icons).theme_files.deep_view(),
        ),
{
    let ghost fm = file_models(files@);
    let ghost themes = icons.theme_files.deep_view();
    let mut v: Vec<SearchResult> = Vec::new();
    let mut k: usize = 0;
    proof {
        assert(models(v@) =~= Seq::<ResultModel>::empty());
    }
    while k < files.len()
        invariant
            0 <= k <= files.len(),
            icons.wf(),
            icons.theme_files == old(icons).theme_files,
            themes == icons.theme_files.deep_view(),
            fm == file_models(files@),
            fm.len() == files.len(),
            models(v@) + spec_desc_files_from(fm, k as int, themes) == spec_desc_files_from(
                fm,
                0,
                themes,
            ),
        decreases files.len() - k,
    {
        let ghost prev = models(v@);
        proof {
            assert(fm[k as int] == files@[k as int]@);
        }
        match searchresult_from_desktopentry(&files[k], icons) {
            Some(e) => {
                proof {
                    assert(desc_tail(fm[k as int], themes) =~= seq![e@]);
                }
                v.push(e);
                proof {
                    assert(models(v@) =~= prev + desc_tail(fm[k as int], themes));
                }
            },
            None => {
                proof {
                    assert(desc_tail(fm[k as int], themes) =~= Seq::<ResultModel>::empty());
                    assert(models(v@) =~= prev + desc_tail(fm[k as int], themes));
                }
            },
        }
        proof {
            assert((prev + desc_tail(fm[k as int], themes)) + spec_desc_files_from(
                fm,
                k + 1,
                themes,
            ) =~= prev + (desc_tail(fm[k as int], themes) + spec_desc_files_from(
                fm,
                k + 1,
                themes,
            )));
        }
        k = k + 1;
    }
    proof {
        assert(spec_desc_files_from(fm, k as int, themes) =~= Seq::<ResultModel>::empty());
        assert(models(v@) =~= models(v@) + Seq::<ResultModel>::empty());
    }
    v
}

fn scan_bin_files(files: &Vec<String>, icons: &mut IconResolver) -> (v: Vec<SearchResult>)
    requires
        old(icons).wf(),
    ensures
        final(icons).wf(),
        final(icons).theme_files == old(icons).theme_files,
        models(v@) == spec_bin_files_from(files.deep_view(), 0, old(icons).theme_files.deep_view()),
{
    let ghost fm = files.deep_view();
    let ghost themes = icons.theme_files.deep_view();
    let mut v: Vec<SearchResult> = Vec::new();
    let mut k: usize = 0;
    proof {
        assert(models(v@) =~= Seq::<ResultModel>::empty());
    }
    while k < files.len()
        invariant
            0 <= k <= files.len(),
            icons.wf(),
            icons.theme_files == old(icons).theme_files,
            themes == icons.theme_files.deep_view(),
            fm == files.deep_view(),
            fm.len() == files.len(),
            models(v@) + spec_bin_files_from(fm, k as int, themes) == spec_bin_files_from(
                fm,
                0,
                themes,
            ),
        decreases files.len() - k,
    {
        let ghost prev = models(v@);
        proof {
            assert(fm[k as int] == files@[k as int]@);
        }
        match searchresult_from_bin(files[k].as_str(), icons) {
            Some(e) => {
                proof {
                    assert(bin_tail(fm[k as int], themes) =~= seq![e@]);
                }
                v.push(e);
                proof {
                    assert(models(v@) =~= prev + bin_tail(fm[k as int], themes));
                }
            },
            None => {
                proof {
                    assert(bin_tail(fm[k as int], themes) =~= Seq::<ResultModel>::empty());
                    assert(models(v@) =~= prev + bin_tail(fm[k as int], themes));
                }
            },
        }
        proof {
            assert((prev + bin_tail(fm[k as int], themes)) + spec_bin_files_from(fm, k + 1, themes)
                =~= prev + (bin_tail(fm[k as int], themes) + spec_bin_files_from(
                fm,
                k + 1,
                themes,
            )));
        }
        k = k + 1;
    }
    proof {
        assert(spec_bin_files_from(fm, k as int, themes) =~= Seq::<ResultModel>::empty());
        assert(models(v@) =~= models(v@) + Seq::<ResultModel>::empty());
    }
    v
}

/// Build the whole index from the configured directories' contents: every
/// descriptor entry, then every executable entry, per [`spec_build`]. Fails
/// exactly when the primary descriptor directory is configured and
/// unreadable; any other unreadable directory is skipped. Every built entry
/// has a non-empty display name and a non-empty command.
pub fn build_cache(
    descriptor_dirs: &Vec<DescriptorDir>,
    bin_dirs: &Vec<BinDir>,
    icons: &mut IconResolver,
) -> (r: Result<Vec<SearchResult>, BuildError>)
    requires
        old(icons).wf(),
    ensures
        final(icons).wf(),
        final(icons).theme_files == old(icons).theme_files,
        r is Ok <==> spec_build_ok(ddir_models(descriptor_dirs@)),
        (r matches Ok(v) ==> models(v@) == spec_build(
            ddir_models(descriptor_dirs@),
            bdir_models(bin_dirs@),
            old(icons).theme_files.deep_view(),
        )),
        (r matches Ok(v) ==> forall|k: int|
            0 <= k < v@.len() ==> (#[trigger] v@[k]@).name.len() > 0 && v@[k]@.command.len() > 0),
{
    let ghost dm = ddir_models(descriptor_dirs@);
    let ghost bm = bdir_models(bin_dirs@);
    let ghost themes = icons.theme_files.deep_view();
    if descriptor_dirs.len() > 0 && !descriptor_dirs[0].readable {
        proof {
            assert(dm[0] == descriptor_dirs@[0]@);
        }
        return Err(BuildError::CannotEnumerateApplications);
    }
    proof {
        if descriptor_dirs@.len() > 0 {
            assert(dm[0] == descriptor_dirs@[0]@);
        }
    }
    let mut out: Vec<SearchResult> = Vec::new();
    let mut d: usize = 0;
    proof {
        assert(models(out@) =~= Seq::<ResultModel>::empty());
        assert(models(out@) + spec_desc_dirs_from(dm, 0, themes) =~= spec_desc_dirs_from(
            dm,
            0,
            themes,
        ));
    }
    while d < descriptor_dirs.len()
        invariant
            0 <= d <= descriptor_dirs.len(),
            icons.wf(),
            icons.theme_files == old(icons).theme_files,
            themes == icons.theme_files.deep_view(),
            dm == ddir_models(descriptor_dirs@),
            dm.len() == descriptor_dirs.len(),
            models(out@) + spec_desc_dirs_from(dm, d as int, themes) == spec_desc_dirs_from(
                dm,
                0,
                themes,
            ),
        decreases descriptor_dirs.len() - d,
    {
        let ghost prev = models(out@);
        proof {
            assert(dm[d as int] == descriptor_dirs@[d as int]@);
        }
        let dir = &descriptor_dirs[d];
        if dir.readable {
            let mut part = scan_descriptor_files(&dir.files, icons);
            let ghost pm = models(part@);
            out.append(&mut part);
            proof {
                assert(models(out@) =~= prev + pm);
            }
        } else {
            proof {
                assert(models(out@) =~= prev + Seq::<ResultModel>::empty());
            }
        }
        proof {
            let added = if dm[d as int].readable {
                spec_desc_files_from(dm[d as int].files, 0, themes)
            } else {
                Seq::<ResultModel>::empty()
            };
            assert(models(out@) == prev + added);
            assert((prev + added) + spec_desc_dirs_from(dm, d + 1, themes) =~= prev + (added
                + spec_desc_dirs_from(dm, d + 1, themes)));
        }
        d = d + 1;
    }
    proof {
        assert(spec_desc_dirs_from(dm, d as int, themes) =~= Seq::<ResultModel>::empty());
        assert(models(out@) =~= models(out@) + Seq::<ResultModel>::empty());
        assert(models(out@) == spec_desc_dirs_from(dm, 0, themes));
        assert(models(out@) + spec_bin_dirs_from(bm, 0, themes) =~= spec_desc_dirs_from(
            dm,
            0,
            themes,
        ) + spec_bin_dirs_from(bm, 0, themes));
    }
    let mut b: usize = 0;
    while b < bin_dirs.len()
        invariant
            0 <= b <= bin_dirs.len(),
            icons.wf(),
            icons.theme_files == old(icons).theme_files,
            themes == icons.theme_files.deep_view(),
            bm == bdir_models(bin_dirs@),
            bm.len() == bin_dirs.len(),
            dm == ddir_models(descriptor_dirs@),
            models(out@) + spec_bin_dirs_from(bm, b as int, themes) == spec_desc_dirs_from(
                dm,
                0,
                themes,
            ) + spec_bin_dirs_from(bm, 0, themes),
        decreases bin_dirs.len() - b,
    {
        let ghost prev = models(out@);
        proof {
            assert(bm[b as int] == bin_dirs@[b as int]@);
        }
        let dir = &bin_dirs[b];
        if dir.readable {
            let mut part = scan_bin_files(&dir.files, icons);
            let ghost pm = models(part@);
            out.append(&mut part);
            proof {
                assert(models(out@) =~= prev + pm);
            }
        } else {
            proof {
                assert(models(out@) =~= prev + Seq::<ResultModel>::empty());
            }
        }
        proof {
            let added = if bm[b as int].readable {
                spec_bin_files_from(bm[b as int].files, 0, themes)
            } else {
                Seq::<ResultModel>::empty()
            };
            assert(models(out@) == prev + added);
            assert((prev + added) + spec_bin_dirs_from(bm, b + 1, themes) =~= prev + (added
                + spec_bin_dirs_from(bm, b + 1, themes)));
        }
        b = b + 1;
    }
    proof {
        assert(spec_bin_dirs_from(bm, b as int, themes) =~= Seq::<ResultModel>::empty());
        assert(models(out@) =~= models(out@) + Seq::<ResultModel>::empty());
        assert(models(out@) == spec_build(dm, bm, themes));
        lemma_build_entries_wf(dm, bm, themes);
        assert forall|k: int| 0 <= k < out@.len() implies (#[trigger] out@[k]@).name.len() > 0
            && out@[k]@.command.len() > 0 by {
            assert(models(out@)[k] == out@[k]@);
        }
    }
    Ok(out)
}

/// Every entry the build describes has a non-empty name and command.
pub open spec fn entries_wf(s: Seq<ResultModel>) -> bool {
    forall|k: int| 0 <= k < s.len() ==> (#[trigger] s[k]).name.len() > 0 && s[k].command.len() > 0
}

proof fn lemma_desc_files_wf(files: Seq<DescriptorFileModel>, k: int, themes: Seq<Seq<Seq<char>>>)
    ensures
        entries_wf(spec_desc_files_from(files, k, themes)),
    decreases files.len() - k,
{
    if 0 <= k < files.len() {
        lemma_desc_files_wf(files, k + 1, themes);
        lemma_concat_wf(desc_tail(files[k], themes), spec_desc_files_from(files, k + 1, themes));
    }
}

proof fn lemma_desc_dirs_wf(dirs: Seq<DescriptorDirModel>, d: int, themes: Seq<Seq<Seq<char>>>)
    ensures
        entries_wf(spec_desc_dirs_from(dirs, d, themes)),
    decreases dirs.len() - d,
{
    if 0 <= d < dirs.len() {
        lemma_desc_dirs_wf(dirs, d + 1, themes);
        if dirs[d].readable {
            lemma_desc_files_wf(dirs[d].files, 0, themes);
            lemma_concat_wf(
                spec_desc_files_from(dirs[d].files, 0, themes),
                spec_desc_dirs_from(dirs, d + 1, themes),
            );
        } else {
            lemma_concat_wf(Seq::<ResultModel>::empty(), spec_desc_dirs_from(dirs, d + 1, themes));
        }
    }
}

proof fn lemma_bin_files_wf(files: Seq<Seq<char>>, k: int, themes: Seq<Seq<Seq<char>>>)
    ensures
        entries_wf(spec_bin_files_from(files, k, themes)),
    decreases files.len() - k,
{
    if 0 <= k < files.len() {
        lemma_bin_files_wf(files, k + 1, themes);
        if spec_entry_from_bin(files[k], themes) is Some {
            crate::strutil::lemma_file_stem_nonempty(files[k]);
        }
        lemma_concat_wf(bin_tail(files[k], themes), spec_bin_files_from(files, k + 1, themes));
    }
}

proof fn lemma_bin_dirs_wf(dirs: Seq<BinDirModel>, d: int, themes: Seq<Seq<Seq<char>>>)
    ensures
        entries_wf(spec_bin_dirs_from(dirs, d, themes)),
    decreases dirs.len() - d,
{
    if 0 <= d < dirs.len() {
        lemma_bin_dirs_wf(dirs, d + 1, themes);
        if dirs[d].readable {
            lemma_bin_files_wf(dirs[d].files, 0, themes);
            lemma_concat_wf(
                spec_bin_files_from(dirs[d].files, 0, themes),
                spec_bin_dirs_from(dirs, d + 1, themes),
            );
        } else {
            lemma_concat_wf(Seq::<ResultModel>::empty(), spec_bin_dirs_from(dirs, d + 1, themes));
        }
    }
}

proof fn lemma_concat_wf(a: Seq<ResultModel>, b: Seq<ResultModel>)
    requires
        entries_wf(a),
        entries_wf(b),
    ensures
        entries_wf(a + b),
{
    assert forall|k: int| 0 <= k < (a + b).len() implies ((a + b)[k]).name.len() > 0 && (a
        + b)[k].command.len() > 0 by {
        if k < a.len() {
            assert((a + b)[k] == a[k]);
        } else {
            assert((a + b)[k] == b[k - a.len()]);
        }
    }
}

/// Index invariant: every entry the build yields names something and launches
/// something.
pub proof fn lemma_build_entries_wf(
    ddirs: Seq<DescriptorDirModel>,
    bdirs: Seq<BinDirModel>,
    themes: Seq<Seq<Seq<char>>>,
)
    ensures
        entries_wf(spec_build(ddirs, bdirs, themes)),
{
    lemma_desc_dirs_wf(ddirs, 0, themes);
    lemma_bin_dirs_wf(bdirs, 0, themes);
    lemma_concat_wf(spec_desc_dirs_from(ddirs, 0, themes), spec_bin_dirs_from(bdirs, 0, themes));
}

} // verus!
