use squeek_layout::keymap::FormattingError;
use squeek_layout::source::{
    keyboards_directory, list_layout_sources, skip_source, ArrangementKind, DataSource, Error,
    IoFailure, LoadError,
    FALLBACK_LAYOUT_NAME, KEYBOARDS_DIRECTORY_VARIABLE, LAYOUTS_DIRECTORY,
};

/// First fallback should be to builtin, not to FALLBACK_LAYOUT_NAME
#[test]
fn fallbacks_order() {
    let sources = list_layout_sources("nb", ArrangementKind::Base, None);

    assert_eq!(
        sources,
        vec!(
            (ArrangementKind::Base, DataSource::Resource("nb".into())),
            (
                ArrangementKind::Base,
                DataSource::Resource(FALLBACK_LAYOUT_NAME.into())
            ),
        )
    );
}

#[test]
fn fallback_name_is_us() {
    assert_eq!(FALLBACK_LAYOUT_NAME, "us");
}

#[test]
fn places_of_override_files() {
    assert_eq!(KEYBOARDS_DIRECTORY_VARIABLE, "SQUEEKBOARD_KEYBOARDSDIR");
    assert_eq!(LAYOUTS_DIRECTORY, "squeekboard/layouts");
}

#[test]
fn base_sources_with_override_directory() {
    let sources = list_layout_sources("nb", ArrangementKind::Base, Some("/over".into()));
    assert_eq!(
        sources,
        vec![
            (ArrangementKind::Base, DataSource::File("/over/nb.yaml".into())),
            (ArrangementKind::Base, DataSource::Resource("nb".into())),
            (ArrangementKind::Base, DataSource::File("/over/us.yaml".into())),
            (ArrangementKind::Base, DataSource::Resource("us".into())),
        ]
    );
}

#[test]
fn wide_sources_without_override_directory() {
    let sources = list_layout_sources("nb", ArrangementKind::Wide, None);
    assert_eq!(
        sources,
        vec![
            (ArrangementKind::Wide, DataSource::Resource("nb_wide".into())),
            (ArrangementKind::Base, DataSource::Resource("nb".into())),
            (ArrangementKind::Wide, DataSource::Resource("us_wide".into())),
            (ArrangementKind::Base, DataSource::Resource("us".into())),
        ]
    );
}

#[test]
fn wide_sources_with_override_directory() {
    let sources = list_layout_sources("nb", ArrangementKind::Wide, Some("over/".into()));
    assert_eq!(
        sources,
        vec![
            (ArrangementKind::Wide, DataSource::File("over/nb_wide.yaml".into())),
            (ArrangementKind::Wide, DataSource::Resource("nb_wide".into())),
            (ArrangementKind::Base, DataSource::File("over/nb.yaml".into())),
            (ArrangementKind::Base, DataSource::Resource("nb".into())),
            (ArrangementKind::Wide, DataSource::File("over/us_wide.yaml".into())),
            (ArrangementKind::Wide, DataSource::Resource("us_wide".into())),
            (ArrangementKind::Base, DataSource::File("over/us.yaml".into())),
            (ArrangementKind::Base, DataSource::Resource("us".into())),
        ]
    );
}

#[test]
fn file_names_follow_std_paths() {
    // An extension that the name has already is replaced, as
    // `Path::with_extension` does.
    let sources = list_layout_sources("fr.bepo", ArrangementKind::Base, Some("/k".into()));
    assert_eq!(sources[0], (ArrangementKind::Base, DataSource::File("/k/fr.yaml".into())));
    // An absolute name replaces the directory, as `Path::join` does.
    let sources = list_layout_sources("/abs/nb", ArrangementKind::Base, Some("/k".into()));
    assert_eq!(sources[0], (ArrangementKind::Base, DataSource::File("/abs/nb.yaml".into())));
}

#[test]
fn kinds_from_numbers() {
    assert_eq!(ArrangementKind::from_number(0), Some(ArrangementKind::Base));
    assert_eq!(ArrangementKind::from_number(1), Some(ArrangementKind::Wide));
    assert_eq!(ArrangementKind::from_number(2), None);
    assert_eq!(ArrangementKind::from_number(u32::MAX), None);
}

#[test]
fn sources_in_words() {
    assert_eq!(DataSource::Resource("us".into()).to_string(), "Resource: us");
    assert_eq!(DataSource::File("/k/us.yaml".into()).to_string(), "Path: \"/k/us.yaml\"");
    assert_eq!(DataSource::File("a\"b".into()).to_string(), "Path: \"a\\\"b\"");
}

#[test]
fn errors_in_words() {
    assert_eq!(Error::Yaml("bad".into()).to_string(), "YAML: bad");
    assert_eq!(Error::Io("denied".into()).to_string(), "IO: denied");
    assert_eq!(Error::Missing("gone".into()).to_string(), "Missing: gone");
    assert_eq!(
        LoadError::BadData(Error::Yaml("bad".into())).to_string(),
        "Bad data: YAML: bad"
    );
    assert_eq!(LoadError::MissingResource.to_string(), "Missing resource");
    assert_eq!(LoadError::BadResource("odd".into()).to_string(), "Bad resource: odd");
    assert_eq!(
        LoadError::BadKeyMap(FormattingError { message: "utf".into() }).to_string(),
        "Bad key map: utf"
    );
}

#[test]
fn missing_files_are_told_apart() {
    assert_eq!(
        Error::from(IoFailure { not_found: true, message: "no such file".into() }),
        Error::Missing("no such file".into())
    );
    assert_eq!(
        Error::from(IoFailure { not_found: false, message: "denied".into() }),
        Error::Io("denied".into())
    );
}

#[test]
fn a_failed_source_is_skipped() {
    let sources = list_layout_sources("nb", ArrangementKind::Base, Some("/k".into()));
    let missing = LoadError::BadData(Error::Missing("no such file".into()));
    assert_eq!(
        skip_source(&sources, 0, &missing),
        ("Tried file \"/k/nb.yaml\", but it's missing: no such file".to_string(), Some(1))
    );
    assert_eq!(
        skip_source(&sources, 1, &LoadError::MissingResource),
        (
            "Failed to load layout from Resource: nb: Missing resource, skipping".to_string(),
            Some(2)
        )
    );
    let unreadable = LoadError::BadData(Error::Io("denied".into()));
    assert_eq!(
        skip_source(&sources, 2, &unreadable),
        (
            "Failed to load layout from Path: \"/k/us.yaml\": Bad data: IO: denied, skipping"
                .to_string(),
            Some(3)
        )
    );
    // A missing resource is no missing file.
    assert_eq!(
        skip_source(&sources, 3, &missing),
        (
            "Failed to load layout from Resource: us: Bad data: Missing: no such file, skipping"
                .to_string(),
            None
        )
    );
}

#[test]
fn the_environment_names_the_override_directory() {
    let searched = |_: &str| -> Option<String> { panic!("the data directories were searched") };
    assert_eq!(keyboards_directory(Some("/env".into()), searched), Some("/env".to_string()));
}

#[test]
fn else_the_data_directories_are_searched() {
    let found = |name: &str| Some(format!("/usr/share/{}", name));
    assert_eq!(
        keyboards_directory(None, found),
        Some("/usr/share/squeekboard/layouts".to_string())
    );
    assert_eq!(keyboards_directory(None, |_: &str| None), None);
}
