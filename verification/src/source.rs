//! Where a layout may come from, and in which order the places are tried.

use vstd::prelude::*;
use vstd::std_specs::convert::FromSpecImpl;
use crate::document::opt_text;
use crate::keymap::FormattingError;

verus! {

/// The name of the layout that is tried when the one asked for cannot be
/// loaded.
pub const FALLBACK_LAYOUT_NAME: &'static str = "us";

/// The name of the environment variable that names the override directory.
pub const KEYBOARDS_DIRECTORY_VARIABLE: &'static str = "SQUEEKBOARD_KEYBOARDSDIR";

/// The directory, below the user's and the system's data directories, that
/// is searched for override files where the environment names none.
pub const LAYOUTS_DIRECTORY: &'static str = "squeekboard/layouts";

/// Chooses the directory of override files: the one that the environment
/// names; where it names none, the layouts directory that a search of the
/// data directories finds, if it finds one. The data directories are not
/// searched where the environment names a directory.
pub fn keyboards_directory<F: FnOnce(&str) -> Option<String>>(
    from_environment: Option<String>,
    data_path: F,
) -> (directory: Option<String>)
    requires
        data_path.requires((LAYOUTS_DIRECTORY,)),
    ensures
        match from_environment {
            Some(named) => directory == Some(named),
            None => data_path.ensures((LAYOUTS_DIRECTORY,), directory),
        },
{
    match from_environment {
        Some(named) => Some(named),
        None => data_path(LAYOUTS_DIRECTORY),
    }
}

/// The text of [`FALLBACK_LAYOUT_NAME`].
pub open spec fn fallback_layout_name() -> Seq<char> {
    "us"@
}

/// The variant of a layout: for an upright screen, or for a wide one.
#[derive(Clone, Copy, Debug, PartialEq, Eq, Structural)]
pub enum ArrangementKind {
    Base,
    Wide,
}

/// A place that a layout document may be loaded from.
#[derive(Debug, PartialEq, Eq)]
pub enum DataSource {
    /// A file, by its path.
    File(String),
    /// A document that is built into the program, by its name.
    Resource(String),
}

/// The mathematical model of a [`DataSource`].
pub enum DataSourceModel {
    File(Seq<char>),
    Resource(Seq<char>),
}

impl View for DataSource {
    type V = DataSourceModel;

    open spec fn view(&self) -> DataSourceModel {
        match *self {
            DataSource::File(path) => DataSourceModel::File(path@),
            DataSource::Resource(name) => DataSourceModel::Resource(name@),
        }
    }
}

impl DeepView for DataSource {
    type V = DataSourceModel;

    open spec fn deep_view(&self) -> DataSourceModel {
        self@
    }
}

impl DeepView for ArrangementKind {
    type V = ArrangementKind;

    open spec fn deep_view(&self) -> ArrangementKind {
        *self
    }
}

impl Clone for DataSource {
    fn clone(&self) -> (copy: DataSource)
        ensures
            copy@ == self@,
    {
        match self {
            DataSource::File(path) => DataSource::File(path.clone()),
            DataSource::Resource(name) => DataSource::Resource(name.clone()),
        }
    }
}

/// The path that `std::path::Path::join` makes of a directory and a name.
pub uninterp spec fn path_join(directory: Seq<char>, name: Seq<char>) -> Seq<char>;

/// The path that `std::path::Path::with_extension` makes of a path and an
/// extension.
pub uninterp spec fn path_with_extension(path: Seq<char>, extension: Seq<char>) -> Seq<char>;

/// A path as `std::fmt::Debug` shows it: in quotes, with escapes.
pub uninterp spec fn path_debug(path: Seq<char>) -> Seq<char>;

/// Calls `std::path::Path::join`. The contract only names the result: it is
/// the path that `join` makes of the two texts.
#[verifier::external_body]
fn join_path(directory: &str, name: &str) -> (path: String)
    ensures
        path@ == path_join(directory@, name@),
{
    std::path::Path::new(directory).join(name).to_string_lossy().into_owned()
}

/// Whether an extension holds no path separator.
pub open spec fn is_extension(extension: Seq<char>) -> bool {
    forall|i: int|
        0 <= i < extension.len() ==> #[trigger] extension[i] != '/' && extension[i] != '\\'
}

/// Calls `std::path::Path::with_extension`. The contract only names the
/// result: it is the path that `with_extension` makes of the two texts.
/// The call panics on an extension that holds a path separator, so such an
/// extension is left out.
#[verifier::external_body]
fn with_extension(path: &str, extension: &str) -> (changed: String)
    requires
        is_extension(extension@),
    ensures
        changed@ == path_with_extension(path@, extension@),
{
    std::path::Path::new(path).with_extension(extension).to_string_lossy().into_owned()
}

/// Formats a path with `std::fmt::Debug`. The contract only names the
/// result.
#[verifier::external_body]
fn debug_path(path: &str) -> (shown: String)
    ensures
        shown@ == path_debug(path@),
{
    format!("{:?}", std::path::Path::new(path))
}

/// The file in which an override directory holds the layout of a name.
pub open spec fn layout_file(directory: Seq<char>, name: Seq<char>) -> Seq<char> {
    path_with_extension(path_join(directory, name), "yaml"@)
}

/// The name under which the layout of a kind is stored.
pub open spec fn name_with_arrangement(name: Seq<char>, kind: ArrangementKind) -> Seq<char> {
    match kind {
        ArrangementKind::Base => name,
        ArrangementKind::Wide => name + "_wide"@,
    }
}

/// The places at which the layout of one stored name is looked for: the
/// file in the override directory, if there is such a directory, then the
/// built-in resource.
pub open spec fn sources_by_name(
    name: Seq<char>,
    kind: ArrangementKind,
    directory: Option<Seq<char>>,
) -> Seq<(ArrangementKind, DataSourceModel)> {
    let file: Seq<(ArrangementKind, DataSourceModel)> = match directory {
        Some(d) => seq![(kind, DataSourceModel::File(layout_file(d, name)))],
        None => Seq::empty(),
    };
    file.push((kind, DataSourceModel::Resource(name)))
}

/// The places at which the layout of a stored name is looked for if the
/// kind asked for is not the base kind.
pub open spec fn sources_of_kind(
    name: Seq<char>,
    kind: ArrangementKind,
    directory: Option<Seq<char>>,
) -> Seq<(ArrangementKind, DataSourceModel)> {
    match kind {
        ArrangementKind::Base => Seq::empty(),
        _ => sources_by_name(name_with_arrangement(name, kind), kind, directory),
    }
}

/// The places to try, most preferred first: the layout asked for in the
/// kind asked for, then in the base kind; then the same for the fallback
/// layout.
pub open spec fn layout_sources(
    name: Seq<char>,
    kind: ArrangementKind,
    directory: Option<Seq<char>>,
) -> Seq<(ArrangementKind, DataSourceModel)> {
    sources_of_kind(name, kind, directory) + sources_by_name(
        name,
        ArrangementKind::Base,
        directory,
    ) + sources_of_kind(fallback_layout_name(), kind, directory) + sources_by_name(
        fallback_layout_name(),
        ArrangementKind::Base,
        directory,
    )
}

/// There are at least two places to try and at most eight, and the last
/// one is the built-in fallback layout of the base kind.
pub proof fn lemma_layout_sources(
    name: Seq<char>,
    kind: ArrangementKind,
    directory: Option<Seq<char>>,
)
    ensures
        2 <= layout_sources(name, kind, directory).len() <= 8,
        layout_sources(name, kind, directory).last() == (
            ArrangementKind::Base,
            DataSourceModel::Resource(fallback_layout_name()),
        ),
        kind == ArrangementKind::Base && directory is None ==> layout_sources(
            name,
            kind,
            directory,
        ) == seq![
            (ArrangementKind::Base, DataSourceModel::Resource(name)),
            (ArrangementKind::Base, DataSourceModel::Resource(fallback_layout_name())),
        ],
{
    if kind == ArrangementKind::Base && directory is None {
        assert(layout_sources(name, kind, directory) =~= seq![
            (ArrangementKind::Base, DataSourceModel::Resource(name)),
            (ArrangementKind::Base, DataSourceModel::Resource(fallback_layout_name())),
        ]);
    }
}

fn name_of_arrangement(name: &str, kind: ArrangementKind) -> (stored: String)
    ensures
        stored@ == name_with_arrangement(name@, kind),
{
    match kind {
        ArrangementKind::Base => name.to_owned(),
        ArrangementKind::Wide => {
            let mut stored = name.to_owned();
            stored.append("_wide");
            stored
        },
    }
}

fn add_by_name(
    sources: &mut Vec<(ArrangementKind, DataSource)>,
    name: &str,
    kind: ArrangementKind,
    keyboards_path: &Option<String>,
)
    ensures
        final(sources).deep_view() == old(sources).deep_view() + sources_by_name(
            name@,
            kind,
            opt_text(*keyboards_path),
        ),
{
    let ghost before = sources.deep_view();
    if let Some(path) = keyboards_path {
        proof {
            reveal_strlit("yaml");
            assert(is_extension("yaml"@));
        }
        let file = with_extension(join_path(path.as_str(), name).as_str(), "yaml");
        sources.push((kind, DataSource::File(file)));
    }
    sources.push((kind, DataSource::Resource(name.to_owned())));
    proof {
        assert(sources.deep_view() =~= before + sources_by_name(
            name@,
            kind,
            opt_text(*keyboards_path),
        ));
    }
}

/// Lists the places that a layout may be loaded from, the most preferred
/// one first: the layout asked for in the kind asked for, the same layout
/// in the base kind, then the fallback layout in the kind asked for and in
/// the base kind. For each, the file in the override directory comes
/// before the built-in resource.
pub fn list_layout_sources(
    name: &str,
    kind: ArrangementKind,
    keyboards_path: Option<String>,
) -> (sources: Vec<(ArrangementKind, DataSource)>)
    ensures
        sources.deep_view() == layout_sources(
            name@,
            kind,
            opt_text(keyboards_path),
        ),
{
    let mut sources: Vec<(ArrangementKind, DataSource)> = Vec::new();
    proof {
        assert(sources.deep_view() =~= Seq::<(ArrangementKind, DataSourceModel)>::empty());
    }
    let ghost directory: Option<Seq<char>> = opt_text(keyboards_path);
    match kind {
        ArrangementKind::Base => {},
        _ => {
            let stored = name_of_arrangement(name, kind);
            add_by_name(&mut sources, stored.as_str(), kind, &keyboards_path);
        },
    }
    proof {
        assert(sources.deep_view() =~= sources_of_kind(name@, kind, directory));
    }
    add_by_name(&mut sources, name, ArrangementKind::Base, &keyboards_path);
    let ghost first = sources.deep_view();
    match kind {
        ArrangementKind::Base => {},
        _ => {
            let stored = name_of_arrangement(FALLBACK_LAYOUT_NAME, kind);
            add_by_name(&mut sources, stored.as_str(), kind, &keyboards_path);
        },
    }
    proof {
        assert(sources.deep_view() =~= first + sources_of_kind(
            fallback_layout_name(),
            kind,
            directory,
        ));
    }
    add_by_name(&mut sources, FALLBACK_LAYOUT_NAME, ArrangementKind::Base, &keyboards_path);
    sources
}

impl ArrangementKind {
    /// The kind that a number stands for where kinds are passed as numbers:
    /// 0 for the base kind, 1 for the wide one.
    pub fn from_number(number: u32) -> (kind: Option<ArrangementKind>)
        ensures
            kind == (if number == 0 {
                Some(ArrangementKind::Base)
            } else if number == 1 {
                Some(ArrangementKind::Wide)
            } else {
                None
            }),
    {
        if number == 0 {
            Some(ArrangementKind::Base)
        } else if number == 1 {
            Some(ArrangementKind::Wide)
        } else {
            None
        }
    }
}

impl DataSource {
    /// The source in words.
    pub open spec fn text(&self) -> Seq<char> {
        match *self {
            DataSource::File(path) => "Path: "@ + path_debug(path@),
            DataSource::Resource(name) => "Resource: "@ + name@,
        }
    }

    /// The source in words.
    pub fn to_string(&self) -> (text: String)
        ensures
            text@ == self.text(),
    {
        match self {
            DataSource::File(path) => {
                let mut text: String = "Path: ".to_owned();
                text.append(debug_path(path.as_str()).as_str());
                text
            },
            DataSource::Resource(name) => {
                let mut text: String = "Resource: ".to_owned();
                text.append(name.as_str());
                text
            },
        }
    }
}

/// What is known of a failure to read a file.
#[derive(Debug, PartialEq, Eq)]
pub struct IoFailure {
    /// Whether the file was not there.
    pub not_found: bool,
    /// The failure in words.
    pub message: String,
}

/// Errors encountered loading a layout document from a file.
#[derive(Debug, PartialEq, Eq)]
pub enum Error {
    /// The document does not fit the schema.
    Yaml(String),
    /// The file could not be read.
    Io(String),
    /// The file was missing. It is kept apart from `Io` so that a caller
    /// can tell it by the variant.
    Missing(String),
}

impl Error {
    /// The error in words.
    pub open spec fn text(&self) -> Seq<char> {
        match *self {
            Error::Yaml(e) => "YAML: "@ + e@,
            Error::Io(e) => "IO: "@ + e@,
            Error::Missing(e) => "Missing: "@ + e@,
        }
    }

    /// The error in words.
    pub fn to_string(&self) -> (text: String)
        ensures
            text@ == self.text(),
    {
        match self {
            Error::Yaml(e) => {
                let mut text: String = "YAML: ".to_owned();
                text.append(e.as_str());
                text
            },
            Error::Io(e) => {
                let mut text: String = "IO: ".to_owned();
                text.append(e.as_str());
                text
            },
            Error::Missing(e) => {
                let mut text: String = "Missing: ".to_owned();
                text.append(e.as_str());
                text
            },
        }
    }
}

impl From<IoFailure> for Error {
    fn from(e: IoFailure) -> (error: Error) {
        if e.not_found {
            Error::Missing(e.message)
        } else {
            Error::Io(e.message)
        }
    }
}

impl FromSpecImpl<IoFailure> for Error {
    open spec fn obeys_from_spec() -> bool {
        true
    }

    open spec fn from_spec(e: IoFailure) -> Error {
        if e.not_found {
            Error::Missing(e.message)
        } else {
            Error::Io(e.message)
        }
    }
}

/// Why a layout could not be loaded from a source.
#[derive(Debug, PartialEq, Eq)]
pub enum LoadError {
    /// The file could not be read, or does not hold a layout.
    BadData(Error),
    /// No document of that name is built in.
    MissingResource,
    /// The built-in document does not hold a layout.
    BadResource(String),
    /// No keymap could be made for the layout.
    BadKeyMap(FormattingError),
}

impl LoadError {
    /// The error in words.
    pub open spec fn text(&self) -> Seq<char> {
        match *self {
            LoadError::BadData(e) => "Bad data: "@ + e.text(),
            LoadError::MissingResource => "Missing resource"@,
            LoadError::BadResource(e) => "Bad resource: "@ + e@,
            LoadError::BadKeyMap(e) => "Bad key map: "@ + e.message@,
        }
    }

    /// The error in words.
    pub fn to_string(&self) -> (text: String)
        ensures
            text@ == self.text(),
    {
        match self {
            LoadError::BadData(e) => {
                let mut text: String = "Bad data: ".to_owned();
                text.append(e.to_string().as_str());
                text
            },
            LoadError::MissingResource => "Missing resource".to_owned(),
            LoadError::BadResource(e) => {
                let mut text: String = "Bad resource: ".to_owned();
                text.append(e.as_str());
                text
            },
            LoadError::BadKeyMap(e) => {
                let mut text: String = "Bad key map: ".to_owned();
                text.append(e.message.as_str());
                text
            },
        }
    }
}

/// What is reported when a source failed: that a file is not there where
/// that is all, and the whole failure otherwise.
pub open spec fn failure_text(error: LoadError, source: DataSource) -> Seq<char> {
    match (error, source) {
        (LoadError::BadData(Error::Missing(e)), DataSource::File(file)) => "Tried file "@
            + path_debug(file@) + ", but it's missing: "@ + e@,
        (e, source) => "Failed to load layout from "@ + source.text() + ": "@ + e.text()
            + ", skipping"@,
    }
}

/// Decides what follows when the source at place `tried` failed: what to
/// report, and which source to try next. When no source is left, no layout
/// can be had.
pub fn skip_source(
    sources: &Vec<(ArrangementKind, DataSource)>,
    tried: usize,
    error: &LoadError,
) -> (next: (String, Option<usize>))
    requires
        tried < sources@.len(),
    ensures
        next.0@ == failure_text(*error, sources@[tried as int].1),
        next.1 == (if tried + 1 < sources@.len() {
            Some((tried + 1) as usize)
        } else {
            None
        }),
{
    let source = &sources[tried].1;
    let report = match (error, source) {
        (LoadError::BadData(Error::Missing(e)), DataSource::File(file)) => {
            let mut report: String = "Tried file ".to_owned();
            report.append(debug_path(file.as_str()).as_str());
            report.append(", but it's missing: ");
            report.append(e.as_str());
            report
        },
        (e, source) => {
            let mut report: String = "Failed to load layout from ".to_owned();
            report.append(source.to_string().as_str());
            report.append(": ");
            report.append(e.to_string().as_str());
            report.append(", skipping");
            report
        },
    };
    let next = if tried < sources.len() - 1 {
        Some(tried + 1)
    } else {
        None
    };
    (report, next)
}

} // verus!
