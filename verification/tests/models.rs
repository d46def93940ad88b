use italiansuperwhisper::models::catalog::{available_models, catalog_model};
use italiansuperwhisper::models::download::{
    finalize_download, full_progress, Download, DownloadAction, DownloadEvent, DownloadProgress,
};
use italiansuperwhisper::models::validation::{
    has_ggml_magic, validate_downloaded_model, ModelValidationError, GGML_FILE_MAGIC,
    MINIMUM_PLAUSIBLE_MODEL_SIZE,
};
use italiansuperwhisper::models::{
    partial_path, resolve_filename, Acquisition, DefaultModel, ModelFile, ModelManager,
    ModelManagerError,
};

const GGML_MAGIC_LE: [u8; 4] = 0x6767_6d6cu32.to_le_bytes();

/// Contents that pass model validation: ggml magic + 1 MB of zeros.
fn fake_valid_model() -> Vec<u8> {
    let mut bytes = vec![0u8; 1_000_000 + 4];
    bytes[..4].copy_from_slice(&GGML_MAGIC_LE);
    bytes
}

fn manager() -> ModelManager {
    ModelManager::new("/data/whisper-models")
}

/// A directory as a list of names and contents.
struct Directory {
    files: Vec<(String, Vec<u8>)>,
}

impl Directory {
    fn new() -> Self {
        Directory { files: Vec::new() }
    }

    fn has(&self, file: &ModelFile) -> bool {
        self.files.iter().any(|(name, _)| *name == file.name)
    }

    fn names(&self) -> Vec<String> {
        self.files.iter().map(|(name, _)| name.clone()).collect()
    }

    fn write(&mut self, name: &str, bytes: Vec<u8>) {
        self.remove(name);
        self.files.push((name.to_string(), bytes));
    }

    fn read(&self, name: &str) -> Option<Vec<u8>> {
        self.files.iter().find(|(n, _)| n == name).map(|(_, bytes)| bytes.clone())
    }

    fn remove(&mut self, name: &str) {
        self.files.retain(|(n, _)| n != name);
    }

    fn rename(&mut self, from: &str, to: &str) {
        let bytes = self.read(from).unwrap();
        self.remove(from);
        self.write(to, bytes);
    }
}

fn validate(bytes: &[u8]) -> Result<(), ModelValidationError> {
    let head = bytes[..bytes.len().min(4)].to_vec();
    validate_downloaded_model(Ok(bytes.len() as u64), Ok(head))
}

/// Validates the partial file of `dest` and does what is to be done about it.
fn finalize(dir: &mut Directory, dest: &ModelFile) -> Result<(), ModelManagerError> {
    let partial = partial_path(dest);
    match finalize_download(validate(&dir.read(&partial.name).unwrap())) {
        DownloadAction::Promote => {
            dir.rename(&partial.name, &dest.name);
            Ok(())
        }
        DownloadAction::Discard(error) => {
            dir.remove(&partial.name);
            Err(error)
        }
        _ => unreachable!(),
    }
}

#[test]
fn catalog_matches_swift_settings() {
    assert_eq!(available_models().len(), 4);
    let hebrew = catalog_model("Turbo V3 Hebrew").unwrap();
    assert_eq!(hebrew.filename, "ggml-ivrit-large-v3-turbo.bin");
    assert_eq!(hebrew.preferred_language, Some("he"));
    // Display name and filename both resolve to the same entry.
    assert_eq!(
        catalog_model("Turbo V3 large").unwrap().filename,
        catalog_model("ggml-large-v3-turbo.bin").unwrap().filename
    );
    assert!(catalog_model("no-such-model").is_none());
}

#[test]
fn every_catalog_model_is_found_by_both_names() {
    for model in available_models() {
        assert_eq!(catalog_model(model.name).unwrap().url, model.url);
        assert_eq!(catalog_model(model.filename).unwrap().url, model.url);
        assert_eq!(resolve_filename(model.name).unwrap(), model.filename);
        assert!(model.filename.ends_with(".bin"));
    }
    assert_eq!(catalog_model("Turbo V3 medium").unwrap().size_mb, 874);
}

#[test]
fn model_path_resolves_names_and_rejects_traversal() {
    let mgr = manager();
    let by_name = mgr.model_path("Turbo V3 small").unwrap();
    assert_eq!(by_name.dir, mgr.models_dir());
    assert_eq!(by_name.name, "ggml-large-v3-turbo-q5_0.bin");
    let by_filename = mgr.model_path("ggml-large-v3-turbo-q5_0.bin").unwrap();
    assert_eq!(by_name.dir, by_filename.dir);
    assert_eq!(by_name.name, by_filename.name);

    for bad in ["../evil.bin", "a/b.bin", "..", ""] {
        assert!(
            matches!(mgr.model_path(bad), Err(ModelManagerError::InvalidName(_))),
            "expected InvalidName for {bad:?}"
        );
    }
    for bad in [".", "a\\b.bin", "/abs.bin"] {
        assert_eq!(
            mgr.model_path(bad).err().unwrap().message(),
            format!("invalid model name: {bad}")
        );
    }
}

#[test]
fn is_downloaded_installed_delete_round_trip() {
    let mgr = manager();
    let mut dir = Directory::new();
    assert!(!mgr.is_model_downloaded("ggml-large-v3-turbo.bin", |f| dir.has(f)));
    assert!(mgr.installed_models(&dir.names()).is_empty());

    dir.write("ggml-large-v3-turbo.bin", fake_valid_model());
    // A stray .partial must not count as installed.
    dir.write("ggml-tiny.bin.partial", b"junk".to_vec());

    assert!(mgr.is_model_downloaded("ggml-large-v3-turbo.bin", |f| dir.has(f)));
    assert!(mgr.is_model_downloaded("Turbo V3 large", |f| dir.has(f)));
    let installed = mgr.installed_models(&dir.names());
    assert_eq!(installed.len(), 1);
    assert_eq!(installed[0], "ggml-large-v3-turbo.bin");

    let removal = mgr.delete_model("Turbo V3 large", |f| dir.has(f)).ok().unwrap();
    assert_eq!(removal.leftover.name, "ggml-large-v3-turbo.bin.partial");
    dir.remove(&removal.model.name);
    dir.remove(&removal.leftover.name);
    assert!(!mgr.is_model_downloaded("ggml-large-v3-turbo.bin", |f| dir.has(f)));
    assert!(matches!(
        mgr.delete_model("Turbo V3 large", |f| dir.has(f)),
        Err(ModelManagerError::NotInstalled(_))
    ));
    assert!(!mgr.is_model_downloaded("../x", |_| true));
    assert!(matches!(
        mgr.delete_model("../x", |_| true),
        Err(ModelManagerError::InvalidName(_))
    ));
}

#[test]
fn a_file_in_flight_is_not_installed_under_its_name() {
    let mgr = manager();
    let mut dir = Directory::new();
    dir.write("ggml-tiny.bin.partial", b"junk".to_vec());
    dir.write("x.partial.bin", b"junk".to_vec());
    assert!(!mgr.is_model_downloaded("ggml-tiny.bin.partial", |f| dir.has(f)));
    assert!(!mgr.is_model_downloaded(".partial", |_| true));
    assert!(mgr.is_model_downloaded("x.partial.bin", |f| dir.has(f)));
    assert!(mgr.is_model_downloaded("partial", |_| true));
    assert!(matches!(
        mgr.delete_model("ggml-tiny.bin.partial", |f| dir.has(f)),
        Err(ModelManagerError::NotInstalled(name)) if name == "ggml-tiny.bin.partial"
    ));
}

#[test]
fn installed_models_are_sorted_by_name() {
    let files: Vec<String> = [
        "b.bin", "a.bin.partial", "Z.bin", "a.txt", ".bin", "a.bin", "aa.bin", "..bin", "bin",
    ]
    .iter()
    .map(|s| s.to_string())
    .collect();
    assert_eq!(
        manager().installed_models(&files),
        ["..bin", "Z.bin", "a.bin", "aa.bin", "b.bin"]
    );
}

#[test]
fn finalize_rejects_html_error_page_and_removes_partial() {
    // The core invariant: a bad body never becomes an installed model.
    let mgr = manager();
    let mut dir = Directory::new();
    let dest = mgr.model_path("ggml-large-v3-turbo.bin").unwrap();
    let partial = partial_path(&dest);
    dir.write(&partial.name, b"<html><body>502 Bad Gateway</body></html>".to_vec());

    let err = finalize(&mut dir, &dest).unwrap_err();
    assert!(matches!(err, ModelManagerError::Validation(_)));
    assert!(!dir.has(&partial), "failed partial must be deleted");
    assert!(!dir.has(&dest), "bad download must never reach the models dir");
    assert!(!mgr.is_model_downloaded("ggml-large-v3-turbo.bin", |f| dir.has(f)));
}

#[test]
fn finalize_rejects_large_file_without_magic() {
    let mgr = manager();
    let mut dir = Directory::new();
    let dest = mgr.model_path("ggml-large-v3-turbo.bin").unwrap();
    let partial = partial_path(&dest);
    dir.write(&partial.name, vec![0u8; 2_000_000]);

    let err = finalize(&mut dir, &dest).unwrap_err();
    assert!(matches!(err, ModelManagerError::Validation(_)));
    assert!(!dir.has(&partial));
    assert!(!dir.has(&dest));
}

#[test]
fn finalize_promotes_valid_partial() {
    let mgr = manager();
    let mut dir = Directory::new();
    let dest = mgr.model_path("ggml-large-v3-turbo.bin").unwrap();
    let partial = partial_path(&dest);
    dir.write(&partial.name, fake_valid_model());

    finalize(&mut dir, &dest).unwrap();
    assert!(dir.has(&dest));
    assert!(!dir.has(&partial));
    assert!(mgr.is_model_downloaded("ggml-large-v3-turbo.bin", |f| dir.has(f)));
}

#[test]
fn ensure_default_model_copies_once() {
    let mgr = manager();
    let mut dir = Directory::new();
    let bundled = "/app/ggml-tiny.en.bin";

    match mgr.ensure_default_model(Some("ggml-tiny.en.bin"), bundled, |f| dir.has(f)) {
        Ok(DefaultModel::Copy { via, dest }) => {
            assert_eq!(dest.dir, mgr.models_dir());
            assert_eq!(dest.name, "ggml-tiny.en.bin");
            assert_eq!(via.name, "ggml-tiny.en.bin.partial");
            dir.write(&via.name, fake_valid_model());
            dir.rename(&via.name, &dest.name);
        }
        _ => panic!("expected a copy"),
    }
    assert!(mgr.is_model_downloaded("ggml-tiny.en.bin", |f| dir.has(f)));

    // Second call is a no-op: it must not overwrite the installed file.
    dir.write("ggml-tiny.en.bin", b"user-modified".to_vec());
    assert!(matches!(
        mgr.ensure_default_model(Some("ggml-tiny.en.bin"), bundled, |f| dir.has(f)),
        Ok(DefaultModel::Present(_))
    ));
    assert_eq!(dir.read("ggml-tiny.en.bin").unwrap(), b"user-modified");

    // A bundled path without a file name is refused.
    assert!(matches!(
        mgr.ensure_default_model(None, "/app/..", |_| false),
        Err(ModelManagerError::InvalidName(_))
    ));
}

#[test]
fn download_of_installed_model_short_circuits_with_full_progress() {
    let mgr = manager();
    let mut dir = Directory::new();
    dir.write("ggml-large-v3-turbo.bin", fake_valid_model());

    let dest = match mgr.download_model("Turbo V3 large", |f| dir.has(f)) {
        Ok(Acquisition::Installed(dest)) => dest,
        _ => panic!("expected an installed model"),
    };
    assert_eq!(dest.dir, mgr.models_dir());
    assert_eq!(dest.name, "ggml-large-v3-turbo.bin");
    let last = full_progress(dir.read(&dest.name).unwrap().len() as u64);
    assert_eq!(Some(last.bytes_downloaded), last.total_bytes);
    assert_eq!(fraction(last), Some(1.0));
}

#[test]
fn download_of_unknown_model_errors_without_network() {
    let err = manager().download_model("no-such-model", |_| false).err().unwrap();
    assert!(matches!(err, ModelManagerError::UnknownModel(_)));
    assert_eq!(err.message(), "unknown model: no-such-model");
}

#[test]
fn download_of_a_missing_model_is_fetched_from_the_catalog() {
    match manager().download_model("ggml-large-v3-turbo-q8_0.bin", |_| false) {
        Ok(Acquisition::Fetch { url, dest }) => {
            assert!(url.ends_with("ggml-large-v3-turbo-q8_0.bin?download=true"));
            assert_eq!(dest.name, "ggml-large-v3-turbo-q8_0.bin");
        }
        _ => panic!("expected a fetch"),
    }
}

fn fraction(p: DownloadProgress) -> Option<f64> {
    p.fraction().map(|(part, whole)| part as f64 / whole as f64)
}

#[test]
fn progress_fraction_matches_swift_semantics() {
    let p = DownloadProgress {
        bytes_downloaded: 50,
        total_bytes: Some(200),
    };
    assert_eq!(fraction(p), Some(0.25));
    // Unknown total -> no fraction.
    let p = DownloadProgress {
        bytes_downloaded: 50,
        total_bytes: None,
    };
    assert_eq!(fraction(p), None);
    // Overshoot clamps to 1.0.
    let p = DownloadProgress {
        bytes_downloaded: 300,
        total_bytes: Some(200),
    };
    assert_eq!(fraction(p), Some(1.0));
    // Of an empty file there is no fraction.
    let p = DownloadProgress {
        bytes_downloaded: 300,
        total_bytes: Some(0),
    };
    assert_eq!(fraction(p), None);
}

// One download

fn response(status: u16, length: Option<u64>) -> DownloadEvent {
    DownloadEvent::Response { status, length }
}

#[test]
fn a_fresh_download_asks_for_everything_and_reports_each_chunk() {
    let (mut download, range) = Download::new(None);
    assert!(range.is_none());
    match download.step(response(200, Some(10))) {
        DownloadAction::Receive { append: false, progress } => {
            assert_eq!(progress.bytes_downloaded, 0);
            assert_eq!(progress.total_bytes, Some(10));
        }
        _ => panic!("expected the body"),
    }
    match download.step(DownloadEvent::Chunk(4)) {
        DownloadAction::Store(progress) => assert_eq!(progress.bytes_downloaded, 4),
        _ => panic!("expected a report"),
    }
    match download.step(DownloadEvent::Chunk(6)) {
        DownloadAction::Store(progress) => {
            assert_eq!(progress.bytes_downloaded, 10);
            assert_eq!(progress.total_bytes, Some(10));
        }
        _ => panic!("expected a report"),
    }
    assert!(matches!(download.step(DownloadEvent::Chunk(0)), DownloadAction::Validate));
    assert!(matches!(
        download.step(DownloadEvent::Verdict(Ok(()))),
        DownloadAction::Promote
    ));
}

#[test]
fn a_leftover_partial_is_resumed_if_the_server_agrees() {
    let (mut download, range) = Download::new(Some(1234));
    assert_eq!(range.as_deref(), Some("bytes=1234-"));
    match download.step(response(206, Some(66))) {
        DownloadAction::Receive { append: true, progress } => {
            assert_eq!(progress.bytes_downloaded, 1234);
            assert_eq!(progress.total_bytes, Some(1300));
        }
        _ => panic!("expected to resume"),
    }

    // The server ignored the range: start over.
    let (mut download, _) = Download::new(Some(1234));
    match download.step(response(200, None)) {
        DownloadAction::Receive { append: false, progress } => {
            assert_eq!(progress.bytes_downloaded, 0);
            assert_eq!(progress.total_bytes, None);
        }
        _ => panic!("expected to start over"),
    }

    // An empty partial is no reason to resume.
    let (mut download, range) = Download::new(Some(0));
    assert!(range.is_none());
    assert!(matches!(
        download.step(response(206, None)),
        DownloadAction::Receive { append: false, .. }
    ));
}

#[test]
fn a_partial_that_covers_the_file_is_validated_at_once() {
    let (mut download, _) = Download::new(Some(1234));
    assert!(matches!(download.step(response(416, None)), DownloadAction::Validate));
    match download.step(DownloadEvent::Verdict(Err(ModelValidationError::NotAGgmlFile))) {
        DownloadAction::Discard(error) => assert_eq!(
            error.message(),
            "the downloaded file is not a valid GGML model; the download may have been intercepted or corrupted"
        ),
        _ => panic!("expected the partial to go"),
    }
}

#[test]
fn cancelling_and_server_errors_keep_the_partial() {
    let (mut download, _) = Download::new(None);
    download.step(response(200, None));
    match download.step(DownloadEvent::Cancelled) {
        DownloadAction::Fail(error) => assert_eq!(error.message(), "download cancelled"),
        _ => panic!("expected a failure"),
    }
    for status in [199, 300, 404, 503] {
        let (mut download, _) = Download::new(Some(5));
        match download.step(response(status, None)) {
            DownloadAction::Fail(error) => assert_eq!(
                error.message(),
                format!("model server returned HTTP {status}; please try again later")
            ),
            _ => panic!("expected a failure"),
        }
    }
}

#[test]
fn manager_errors_are_said_in_words() {
    assert_eq!(
        ModelManagerError::NotInstalled("x".to_string()).message(),
        "model is not installed: x"
    );
    assert_eq!(ModelManagerError::Http("reset".to_string()).message(), "reset");
    assert_eq!(ModelManagerError::Io("denied".to_string()).message(), "denied");
}

// Model validation

#[test]
fn rejects_html_error_page() {
    let err = validate(b"<html><body>502 Bad Gateway</body></html>").unwrap_err();
    assert!(matches!(err, ModelValidationError::TooSmall(_)));
    assert_eq!(
        err.message(),
        "the downloaded file is only 41 bytes; the server most likely returned an error page instead of the model"
    );
}

#[test]
fn model_validation_rejects_large_file_without_magic() {
    let mut bytes = vec![0u8; MINIMUM_PLAUSIBLE_MODEL_SIZE as usize + 16];
    bytes[0..4].copy_from_slice(b"\x00\x00\x00\x00");
    let err = validate(&bytes).unwrap_err();
    assert!(matches!(err, ModelValidationError::NotAGgmlFile));
}

#[test]
fn accepts_large_file_with_magic() {
    let mut bytes = vec![0u8; MINIMUM_PLAUSIBLE_MODEL_SIZE as usize + 16];
    bytes[0..4].copy_from_slice(&GGML_FILE_MAGIC.to_le_bytes());
    validate(&bytes).unwrap();
}

#[test]
fn has_ggml_magic_is_independent_of_size() {
    let mut bytes = vec![0u8; 32];
    bytes[0..4].copy_from_slice(&GGML_FILE_MAGIC.to_le_bytes());
    assert!(has_ggml_magic(&bytes));
}

#[test]
fn has_ggml_magic_false_on_truncated_header() {
    assert!(!has_ggml_magic(b"ab"));
}

#[test]
fn a_file_that_cannot_be_read_is_no_model() {
    let err = validate_downloaded_model(Err("gone".to_string()), Ok(Vec::new())).unwrap_err();
    assert_eq!(err.message(), "failed to read the downloaded file: gone");
    // A file that opens, but cannot be read as far as the magic, is no model.
    for head in [Vec::new(), b"lm".to_vec(), b"lmg".to_vec()] {
        assert!(matches!(
            validate_downloaded_model(Ok(2_000_000), Ok(head)),
            Err(ModelValidationError::NotAGgmlFile)
        ));
    }
    let err = validate_downloaded_model(Ok(2_000_000), Err("gone".to_string())).unwrap_err();
    assert!(matches!(err, ModelValidationError::Io(_)));
}
