//! Finding descriptors: which directories are searched, which directory
//! entries count as descriptors, and which applications their files declare.

use crate::application::{application_in, Application, ApplicationView};
use crate::outcome::Failure;
use crate::registry::{lemma_distinct_names_count, merged, registry_of};
use crate::text::{ends_with, has_suffix};
use vstd::prelude::*;
use vstd::string::StringExecFns;

verus! {

/// What resolving a directory entry gave: its canonical absolute location,
/// symbolic links followed, and whether a regular file is found there.
#[derive(Debug, PartialEq, Eq)]
pub struct Resolved {
    /// The canonical absolute location.
    pub location: String,
    /// Whether a regular file is found there.
    pub is_file: bool,
}

/// The mathematical content of a [`Resolved`].
pub struct ResolvedView {
    pub location: Seq<char>,
    pub is_file: bool,
}

impl View for Resolved {
    type V = ResolvedView;

    open spec fn view(&self) -> ResolvedView {
        ResolvedView { location: self.location@, is_file: self.is_file }
    }
}

impl DeepView for Resolved {
    type V = ResolvedView;

    open spec fn deep_view(&self) -> ResolvedView {
        self@
    }
}

/// A candidate descriptor: its resolved location and the bytes read from it.
#[derive(Debug, PartialEq, Eq)]
pub struct DescriptorFile {
    /// The resolved location of the file.
    pub path: String,
    /// What the file holds.
    pub contents: Vec<u8>,
}

/// The mathematical content of a [`DescriptorFile`].
pub struct DescriptorFileView {
    pub path: Seq<char>,
    pub contents: Seq<u8>,
}

impl View for DescriptorFile {
    type V = DescriptorFileView;

    open spec fn view(&self) -> DescriptorFileView {
        DescriptorFileView { path: self.path@, contents: self.contents@ }
    }
}

impl DeepView for DescriptorFile {
    type V = DescriptorFileView;

    open spec fn deep_view(&self) -> DescriptorFileView {
        self@
    }
}

/// Whether a path is named like a descriptor: it ends with the seven
/// characters `desktop`, with or without a dot before them.
pub open spec fn named_like_descriptor(path: Seq<char>) -> bool {
    has_suffix(path, "desktop"@)
}

/// The candidate that a directory entry stands for: the resolved location of
/// an entry that is named like a descriptor and resolves to a regular file.
pub open spec fn candidate_of(path: Seq<char>, resolved: Option<ResolvedView>) -> Option<
    Seq<char>,
> {
    match resolved {
        Some(found) if named_like_descriptor(path) && found.is_file => Some(found.location),
        _ => None,
    }
}

/// The application that a candidate declares, if any.
pub open spec fn declared_by(file: DescriptorFileView) -> Option<ApplicationView> {
    application_in(file.path, file.contents)
}

/// The applications that the candidates of a directory declare, in the order
/// of the candidates; candidates to be skipped leave no trace.
pub open spec fn desktop_apps(files: Seq<DescriptorFileView>) -> Seq<ApplicationView> {
    files.filter_map(|file: DescriptorFileView| declared_by(file))
}

/// The per-user applications directory below `home`.
pub open spec fn user_directory(home: Seq<char>) -> Seq<char> {
    if home.len() == 0 || has_suffix(home, "/"@) {
        home + ".local/share/applications"@
    } else {
        home + "/"@ + ".local/share/applications"@
    }
}

/// The directories to search: those given explicitly, which replace the
/// defaults altogether; else the system-wide directory followed by the user's,
/// so that the user's descriptors override the system's.  `None` where the
/// defaults are needed and the home directory is unknown.
pub open spec fn search_path(
    explicit: Option<Seq<Seq<char>>>,
    home: Option<Seq<char>>,
) -> Option<Seq<Seq<char>>> {
    match explicit {
        Some(directories) => Some(directories),
        None => match home {
            Some(home) => Some(seq!["/usr/share/applications"@, user_directory(home)]),
            None => None,
        },
    }
}

/// Whether a directory entry is worth resolving: whether its path ends with
/// `desktop`.
pub fn looks_like_desktop_file(path: &str) -> (r: bool)
    ensures
        r == named_like_descriptor(path@),
{
    ends_with(path, "desktop")
}

/// Decides whether a directory entry is a candidate descriptor, from its path
/// and from what resolving it gave (`None` where it could not be resolved),
/// and gives the candidate's resolved location.
pub fn is_desktop_file(path: &str, resolved: Option<Resolved>) -> (location: Option<String>)
    ensures
        location.deep_view() == candidate_of(path@, resolved.deep_view()),
{
    match resolved {
        Some(found) => {
            if looks_like_desktop_file(path) && found.is_file {
                Some(found.location)
            } else {
                None
            }
        },
        None => None,
    }
}

/// Reads the applications that the candidate descriptors of one directory
/// declare, skipping every candidate that declares none.
pub fn get_desktop_apps(files: Vec<DescriptorFile>) -> (apps: Vec<Application>)
    ensures
        apps.deep_view() == desktop_apps(files.deep_view()),
{
    let ghost declared = |file: DescriptorFileView| declared_by(file);
    let mut apps: Vec<Application> = Vec::new();
    let mut i: usize = 0;
    while i < files.len()
        invariant
            i <= files.len(),
            declared == |file: DescriptorFileView| declared_by(file),
            apps.deep_view() == files.deep_view().take(i as int).filter_map(declared),
        decreases files.len() - i,
    {
        proof {
            files.deep_view().lemma_filter_map_take_succ(declared, i as int);
        }
        if let Some(app) = Application::from_file(
            files[i].path.as_str(),
            files[i].contents.as_slice(),
        ) {
            apps.push(app);
        }
        i += 1;
    }
    proof {
        assert(files.deep_view().take(i as int) =~= files.deep_view());
    }
    apps
}

/// The per-user applications directory below the home directory `home`.
pub fn user_applications_dir(home: &str) -> (directory: String)
    ensures
        directory@ == user_directory(home@),
{
    let mut directory = home.to_owned();
    if !home.is_empty() && !ends_with(home, "/") {
        directory.append("/");
    }
    directory.append(".local/share/applications");
    directory
}

/// Decides which directories are searched, in which order.  Directories given
/// explicitly replace the defaults; the defaults need the home directory.
pub fn search_directories(explicit: Option<Vec<String>>, home: Option<&str>) -> (r: Result<
    Vec<String>,
    Failure,
>)
    ensures
        match r {
            Ok(directories) => search_path(explicit.deep_view(), home.deep_view()) == Some(
                directories.deep_view(),
            ),
            Err(failure) => failure == Failure::HomeUnset && search_path(
                explicit.deep_view(),
                home.deep_view(),
            ) is None,
        },
{
    match explicit {
        Some(directories) => Ok(directories),
        None => match home {
            Some(home) => {
                let mut directories: Vec<String> = Vec::new();
                directories.push("/usr/share/applications".to_owned());
                directories.push(user_applications_dir(home));
                proof {
                    assert(directories.deep_view() =~= seq![
                        "/usr/share/applications"@,
                        user_directory(home@),
                    ]);
                }
                Ok(directories)
            },
            None => Err(Failure::HomeUnset),
        },
    }
}

/// Candidates that all declare an application, under names that differ from
/// one another, fill the registry of their directory with one entry each.
pub proof fn lemma_distinct_descriptors_count(files: Seq<DescriptorFileView>)
    requires
        forall|i: int| 0 <= i < files.len() ==> declared_by(#[trigger] files[i]) is Some,
        forall|i: int, j: int|
            0 <= i < j < files.len() ==> declared_by(files[i])->0.name != declared_by(
                files[j],
            )->0.name,
    ensures
        registry_of(merged(seq![Some(desktop_apps(files))])).dom().finite(),
        registry_of(merged(seq![Some(desktop_apps(files))])).dom().len() == files.len(),
{
    let apps = desktop_apps(files);
    lemma_desktop_apps_all_declared(files);
    lemma_distinct_names_count(apps);
    assert(merged(seq![Some(apps)]) =~= apps) by {
        assert(merged(seq![Some(apps)].drop_last()) =~= Seq::<ApplicationView>::empty());
    }
}

/// Where every candidate declares an application, the applications of the
/// directory are those, one for one.
pub proof fn lemma_desktop_apps_all_declared(files: Seq<DescriptorFileView>)
    requires
        forall|i: int| 0 <= i < files.len() ==> declared_by(#[trigger] files[i]) is Some,
    ensures
        desktop_apps(files).len() == files.len(),
        forall|i: int|
            0 <= i < files.len() ==> #[trigger] desktop_apps(files)[i] == declared_by(
                files[i],
            )->0,
    decreases files.len(),
{
    if files.len() > 0 {
        let front = files.drop_last();
        assert forall|i: int| 0 <= i < front.len() implies #[trigger] front[i] == files[i] by {}
        lemma_desktop_apps_all_declared(front);
    }
}

} // verus!
