//! The models directory: the catalog of downloadable models, which of them are
//! installed, and how one is fetched, replaced and removed.
//!
//! Core invariant: a download is validated (ggml magic and plausible size)
//! **before** it is renamed into place. Without this, a few hundred bytes of
//! HTML from a captive portal or CDN error page get stored as
//! `ggml-large-v3-turbo.bin`, the model is reported as installed forever, and
//! the user has no way to recover short of deleting the file by hand.

pub mod catalog;
pub mod download;
pub mod order;
pub mod validation;

use crate::models::catalog::{catalog, catalog_model, entry_from, entry_of, CatalogModel};
use crate::models::order::{insert_sorted, is_sorted, lemma_views, views};
use crate::models::validation::ModelValidationError;
use crate::text::{decimal, decimal_text, joined, same_text, to_chars};
use vstd::prelude::*;

verus! {

/// Suffix appended to the destination filename while a download is in flight.
/// A `.partial` file is never reported as installed and never loaded.
pub const PARTIAL_SUFFIX: &'static str = ".partial";

/// What went wrong with a model.
#[derive(Debug)]
pub enum ModelManagerError {
    UnknownModel(String),
    InvalidName(String),
    NotInstalled(String),
    Cancelled,
    HttpStatus(u16),
    Validation(ModelValidationError),
    Http(String),
    Io(String),
}

/// What is said of an error.
pub open spec fn message_of(e: ModelManagerError) -> Seq<char> {
    match e {
        ModelManagerError::UnknownModel(name) => "unknown model: "@ + name@,
        ModelManagerError::InvalidName(name) => "invalid model name: "@ + name@,
        ModelManagerError::NotInstalled(name) => "model is not installed: "@ + name@,
        ModelManagerError::Cancelled => "download cancelled"@,
        ModelManagerError::HttpStatus(code) => "model server returned HTTP "@ + decimal(code as nat)
            + "; please try again later"@,
        ModelManagerError::Validation(e) => crate::models::validation::message_of(e),
        ModelManagerError::Http(why) => why@,
        ModelManagerError::Io(why) => why@,
    }
}

impl ModelManagerError {
    /// The error in words.
    pub fn message(&self) -> (s: String)
        ensures
            s@ == message_of(*self),
    {
        match self {
            ModelManagerError::UnknownModel(name) => joined("unknown model: ", name.as_str()),
            ModelManagerError::InvalidName(name) => joined("invalid model name: ", name.as_str()),
            ModelManagerError::NotInstalled(name) => joined(
                "model is not installed: ",
                name.as_str(),
            ),
            ModelManagerError::Cancelled => "download cancelled".to_owned(),
            ModelManagerError::HttpStatus(code) => {
                let start: String = joined(
                    "model server returned HTTP ",
                    decimal_text(*code as u64).as_str(),
                );
                joined(start.as_str(), "; please try again later")
            },
            ModelManagerError::Validation(e) => e.message(),
            ModelManagerError::Http(why) => why.clone(),
            ModelManagerError::Io(why) => why.clone(),
        }
    }
}

/// A file of the models directory, by the directory and its name there.
pub struct ModelFile {
    pub dir: String,
    pub name: String,
}

/// What a [`ModelFile`] stands for.
pub struct ModelFileView {
    pub dir: Seq<char>,
    pub name: Seq<char>,
}

impl View for ModelFile {
    type V = ModelFileView;

    open spec fn view(&self) -> ModelFileView {
        ModelFileView { dir: self.dir@, name: self.name@ }
    }
}

/// The temporary file that stands for `dest` while it is in flight.
pub open spec fn partial_of(dest: ModelFileView) -> ModelFileView {
    ModelFileView { dir: dest.dir, name: dest.name + PARTIAL_SUFFIX@ }
}

/// The in-flight temporary file for a destination.
pub fn partial_path(dest: &ModelFile) -> (partial: ModelFile)
    ensures
        partial@ == partial_of(dest@),
{
    ModelFile { dir: dest.dir.clone(), name: joined(dest.name.as_str(), PARTIAL_SUFFIX) }
}

/// The filename that `name` stands for: the catalog's, if it is in the
/// catalog, and itself otherwise.
pub open spec fn filename_of(name: Seq<char>) -> Seq<char> {
    match entry_of(name) {
        Some(k) => catalog()[k].filename,
        None => name,
    }
}

/// Whether a filename stays in the directory it is looked up in.
pub open spec fn is_bare_name(n: Seq<char>) -> bool {
    &&& n.len() > 0
    &&& n != "."@
    &&& n != ".."@
    &&& !n.contains('/')
    &&& !n.contains('\\')
}

fn has_char(s: &str, c: char) -> (r: bool)
    ensures
        r == s@.contains(c),
{
    let v: Vec<char> = to_chars(s);
    let mut i: usize = 0;
    while i < v.len()
        invariant
            i <= v@.len(),
            v@ == s@,
            forall|k: int| 0 <= k < i ==> v@[k] != c,
        decreases v@.len() - i,
    {
        if v[i] == c {
            assert(s@[i as int] == c);
            return true;
        }
        i = i + 1;
    }
    false
}

/// Maps a catalog name or bare filename to the on-disk filename, rejecting
/// anything that could traverse out of the models directory.
pub fn resolve_filename(name: &str) -> (r: Result<String, ModelManagerError>)
    ensures
        match r {
            Ok(f) => is_bare_name(filename_of(name@)) && f@ == filename_of(name@),
            Err(ModelManagerError::InvalidName(n)) => !is_bare_name(filename_of(name@)) && n@
                == name@,
            Err(_) => false,
        },
{
    let filename: String = match catalog_model(name) {
        Some(model) => model.filename.to_owned(),
        None => name.to_owned(),
    };
    assert(filename@ == filename_of(name@));
    if filename.as_str().is_empty() || same_text(filename.as_str(), ".") || same_text(
        filename.as_str(),
        "..",
    ) || has_char(filename.as_str(), '/') || has_char(filename.as_str(), '\\') {
        return Err(ModelManagerError::InvalidName(name.to_owned()));
    }
    Ok(filename)
}

/// Whether a filename has the extension `bin`.
pub open spec fn is_bin(n: Seq<char>) -> bool {
    n.len() > 4 && n.skip(n.len() - 4) == seq!['.', 'b', 'i', 'n']
}

fn has_bin_extension(name: &str) -> (r: bool)
    ensures
        r == is_bin(name@),
{
    let v: Vec<char> = to_chars(name);
    let n: usize = v.len();
    let ghost end = name@.skip(name@.len() - 4);
    if n > 4 && v[n - 4] == '.' && v[n - 3] == 'b' && v[n - 2] == 'i' && v[n - 1] == 'n' {
        assert(end == seq!['.', 'b', 'i', 'n']);
        true
    } else {
        proof {
            if is_bin(name@) {
                let want = seq!['.', 'b', 'i', 'n'];
                assert(end[0] == want[0] && end[1] == want[1] && end[2] == want[2] && end[3]
                    == want[3]);
            }
        }
        false
    }
}

/// Whether a filename is that of a file in flight.
pub open spec fn is_in_flight(n: Seq<char>) -> bool {
    &&& n.len() >= PARTIAL_SUFFIX@.len()
    &&& n.skip(n.len() - PARTIAL_SUFFIX@.len()) == PARTIAL_SUFFIX@
}

fn has_partial_suffix(name: &str) -> (r: bool)
    ensures
        r == is_in_flight(name@),
{
    let v: Vec<char> = to_chars(name);
    let suffix: Vec<char> = to_chars(PARTIAL_SUFFIX);
    let len: usize = v.len();
    if len < suffix.len() {
        return false;
    }
    let start: usize = len - suffix.len();
    let mut i: usize = 0;
    while i < suffix.len()
        invariant
            i <= suffix@.len(),
            start + suffix@.len() == len,
            len == v@.len(),
            v@ == name@,
            suffix@ == PARTIAL_SUFFIX@,
            forall|k: int| 0 <= k < i ==> v@[start + k] == #[trigger] suffix@[k],
        decreases suffix@.len() - i,
    {
        if v[start + i] != suffix[i] {
            assert(name@.skip(start as int)[i as int] != PARTIAL_SUFFIX@[i as int]);
            return false;
        }
        i = i + 1;
    }
    assert(name@.skip(start as int) == PARTIAL_SUFFIX@);
    true
}

/// Whether a filename can be that of an installed model: it stays in the models
/// directory and is not in flight.
pub open spec fn is_installable(n: Seq<char>) -> bool {
    is_bare_name(n) && !is_in_flight(n)
}

/// What is to be removed with a model: the model itself, which must succeed,
/// and then what a broken-off download may have left, which may fail.
pub struct Removal {
    pub model: ModelFile,
    pub leftover: ModelFile,
}

/// How a bundled model gets into the models directory.
pub enum DefaultModel {
    /// It is there already, and stays as it is.
    Present(ModelFile),
    /// It is to be copied to `via` and renamed from there to `dest`, so that a
    /// crash in mid-copy cannot leave a truncated file that is then reported
    /// as installed.
    Copy { via: ModelFile, dest: ModelFile },
}

/// How a model gets into the models directory.
pub enum Acquisition {
    /// It is there already.
    Installed(ModelFile),
    /// It is to be fetched.
    Fetch { url: &'static str, dest: ModelFile },
}

/// Manages the models directory: install state, downloads, deletion.
pub struct ModelManager {
    models_dir: String,
}

impl View for ModelManager {
    type V = Seq<char>;

    closed spec fn view(&self) -> Seq<char> {
        self.models_dir@
    }
}

/// The file called `name` in the directory `dir`.
pub open spec fn file_in(dir: Seq<char>, name: Seq<char>) -> ModelFileView {
    ModelFileView { dir, name }
}

impl ModelManager {
    /// The manager of a directory that exists.
    pub fn new(models_dir: &str) -> (m: ModelManager)
        ensures
            m@ == models_dir@,
    {
        ModelManager { models_dir: models_dir.to_owned() }
    }

    /// The directory.
    pub fn models_dir(&self) -> (dir: &str)
        ensures
            dir@ == self@,
    {
        self.models_dir.as_str()
    }

    fn file(&self, name: &str) -> (f: ModelFile)
        ensures
            f@ == file_in(self@, name@),
    {
        ModelFile { dir: self.models_dir.clone(), name: name.to_owned() }
    }

    /// The file that a model with this catalog name or filename is (or would
    /// be) stored in. Rejects names that could escape the models directory.
    pub fn model_path(&self, name: &str) -> (r: Result<ModelFile, ModelManagerError>)
        ensures
            match r {
                Ok(f) => is_bare_name(filename_of(name@)) && f@ == file_in(
                    self@,
                    filename_of(name@),
                ),
                Err(ModelManagerError::InvalidName(n)) => !is_bare_name(filename_of(name@)) && n@
                    == name@,
                Err(_) => false,
            },
    {
        match resolve_filename(name) {
            Ok(filename) => Ok(self.file(filename.as_str())),
            Err(e) => Err(e),
        }
    }

    /// Whether the model is installed. A file in flight never is. `is_file`
    /// tells of a file whether it exists.
    pub fn is_model_downloaded<F: Fn(&ModelFile) -> bool>(&self, name: &str, is_file: F) -> (r:
        bool)
        requires
            forall|f: &ModelFile| call_requires(is_file, (f,)),
        ensures
            !is_installable(filename_of(name@)) ==> !r,
            is_installable(filename_of(name@)) ==> exists|f: &ModelFile|
                f@ == file_in(self@, filename_of(name@)) && call_ensures(is_file, (f,), r),
    {
        match self.model_path(name) {
            Ok(path) => {
                if has_partial_suffix(path.name.as_str()) {
                    return false;
                }
                let r: bool = is_file(&path);
                r
            },
            Err(_) => false,
        }
    }

    /// The names of the installed models, sorted, out of the names of the
    /// files in the directory. Files in flight are not among them.
    pub fn installed_models(&self, files: &Vec<String>) -> (r: Vec<String>)
        ensures
            is_sorted(views(r@)),
            views(r@).to_multiset() == views(files@).filter(
                |n: Seq<char>| is_bin(n),
            ).to_multiset(),
    {
        let ghost keep = |n: Seq<char>| is_bin(n);
        let mut models: Vec<String> = Vec::new();
        let mut i: usize = 0;
        proof {
            reveal(Seq::filter);
            assert(views(files@).take(0) == Seq::<Seq<char>>::empty());
            assert(views(models@) == Seq::<Seq<char>>::empty());
            assert(views(files@).take(0).filter(keep) == Seq::<Seq<char>>::empty());
        }
        while i < files.len()
            invariant
                i <= files@.len(),
                keep == (|n: Seq<char>| is_bin(n)),
                is_sorted(views(models@)),
                views(models@).to_multiset() == views(files@).take(i as int).filter(
                    keep,
                ).to_multiset(),
            decreases files@.len() - i,
        {
            let ghost before = views(files@).take(i as int);
            let ghost name = files@[i as int]@;
            proof {
                lemma_views(files@);
                assert(views(files@).take(i + 1) == before.push(name));
                reveal(Seq::filter);
                assert(before.push(name).drop_last() == before);
                vstd::seq_lib::to_multiset_build(before.filter(keep), name);
            }
            if has_bin_extension(files[i].as_str()) {
                insert_sorted(&mut models, files[i].clone());
                assert(before.push(name).filter(keep) == before.filter(keep).push(name));
            } else {
                assert(before.push(name).filter(keep) == before.filter(keep));
            }
            i = i + 1;
        }
        proof {
            lemma_views(files@);
            assert(views(files@).take(i as int) == views(files@));
        }
        models
    }

    /// What deleting an installed model removes. A file in flight is not
    /// installed. `is_file` tells of a file whether it exists.
    pub fn delete_model<F: Fn(&ModelFile) -> bool>(&self, name: &str, is_file: F) -> (r: Result<
        Removal,
        ModelManagerError,
    >)
        requires
            forall|f: &ModelFile| call_requires(is_file, (f,)),
        ensures
            match r {
                Ok(removal) => {
                    &&& is_installable(filename_of(name@))
                    &&& removal.model@ == file_in(self@, filename_of(name@))
                    &&& removal.leftover@ == partial_of(removal.model@)
                    &&& call_ensures(is_file, (&removal.model,), true)
                },
                Err(ModelManagerError::InvalidName(n)) => !is_bare_name(filename_of(name@)) && n@
                    == name@,
                Err(ModelManagerError::NotInstalled(n)) => {
                    &&& is_bare_name(filename_of(name@))
                    &&& n@ == name@
                    &&& is_in_flight(filename_of(name@)) || exists|f: &ModelFile|
                        f@ == file_in(self@, filename_of(name@)) && call_ensures(
                            is_file,
                            (f,),
                            false,
                        )
                },
                Err(_) => false,
            },
    {
        let model: ModelFile = match self.model_path(name) {
            Ok(path) => path,
            Err(e) => {
                return Err(e);
            },
        };
        if has_partial_suffix(model.name.as_str()) || !is_file(&model) {
            return Err(ModelManagerError::NotInstalled(name.to_owned()));
        }
        let leftover: ModelFile = partial_path(&model);
        Ok(Removal { model, leftover })
    }

    /// How a bundled model gets into the models directory on first run: not at
    /// all when a file with the same name is already installed. `filename` is
    /// the name of the bundled file, if its path ends in one, `bundled` the
    /// path as it is shown, and `is_file` tells of a file whether it exists.
    pub fn ensure_default_model<F: Fn(&ModelFile) -> bool>(
        &self,
        filename: Option<&str>,
        bundled: &str,
        is_file: F,
    ) -> (r: Result<DefaultModel, ModelManagerError>)
        requires
            forall|f: &ModelFile| call_requires(is_file, (f,)),
        ensures
            match r {
                Ok(DefaultModel::Present(dest)) => {
                    &&& filename is Some
                    &&& dest@ == file_in(self@, filename->0@)
                    &&& call_ensures(is_file, (&dest,), true)
                },
                Ok(DefaultModel::Copy { via, dest }) => {
                    &&& filename is Some
                    &&& dest@ == file_in(self@, filename->0@)
                    &&& via@ == partial_of(dest@)
                    &&& call_ensures(is_file, (&dest,), false)
                },
                Err(ModelManagerError::InvalidName(n)) => filename is None && n@ == bundled@,
                Err(_) => false,
            },
    {
        match filename {
            None => Err(ModelManagerError::InvalidName(bundled.to_owned())),
            Some(name) => {
                let dest: ModelFile = self.file(name);
                if is_file(&dest) {
                    Ok(DefaultModel::Present(dest))
                } else {
                    let via: ModelFile = partial_path(&dest);
                    Ok(DefaultModel::Copy { via, dest })
                }
            },
        }
    }

    /// How a catalog model (by display name or filename) gets into the models
    /// directory. `is_file` tells of a file whether it exists.
    pub fn download_model<F: Fn(&ModelFile) -> bool>(&self, name: &str, is_file: F) -> (r: Result<
        Acquisition,
        ModelManagerError,
    >)
        requires
            forall|f: &ModelFile| call_requires(is_file, (f,)),
        ensures
            match r {
                Ok(Acquisition::Installed(dest)) => {
                    &&& entry_of(name@) is Some
                    &&& dest@ == file_in(self@, catalog()[entry_of(name@)->0].filename)
                    &&& call_ensures(is_file, (&dest,), true)
                },
                Ok(Acquisition::Fetch { url, dest }) => {
                    &&& entry_of(name@) is Some
                    &&& dest@ == file_in(self@, catalog()[entry_of(name@)->0].filename)
                    &&& url@ == catalog()[entry_of(name@)->0].url
                    &&& call_ensures(is_file, (&dest,), false)
                },
                Err(ModelManagerError::UnknownModel(n)) => entry_of(name@) is None && n@ == name@,
                Err(_) => false,
            },
    {
        let model: CatalogModel = match catalog_model(name) {
            Some(model) => model,
            None => {
                return Err(ModelManagerError::UnknownModel(name.to_owned()));
            },
        };
        let dest: ModelFile = self.file(model.filename);
        if is_file(&dest) {
            Ok(Acquisition::Installed(dest))
        } else {
            Ok(Acquisition::Fetch { url: model.url, dest })
        }
    }
}

/// Every model of the catalog is found by its display name and by its
/// filename, and the filename is one that a model can be installed under.
pub proof fn law_catalog_names_resolve(k: int)
    requires
        0 <= k < catalog().len(),
    ensures
        entry_of(catalog()[k].name) == Some(k),
        entry_of(catalog()[k].filename) == Some(k),
        filename_of(catalog()[k].name) == catalog()[k].filename,
        filename_of(catalog()[k].filename) == catalog()[k].filename,
        is_installable(catalog()[k].filename),
        is_bin(catalog()[k].filename),
{
    reveal_with_fuel(entry_from, 5);
    reveal_strlit("Turbo V3 large");
    reveal_strlit("Turbo V3 medium");
    reveal_strlit("Turbo V3 small");
    reveal_strlit("Turbo V3 Hebrew");
    reveal_strlit("ggml-large-v3-turbo.bin");
    reveal_strlit("ggml-large-v3-turbo-q8_0.bin");
    reveal_strlit("ggml-large-v3-turbo-q5_0.bin");
    reveal_strlit("ggml-ivrit-large-v3-turbo.bin");
    reveal_strlit(".");
    reveal_strlit("..");
    assert("Turbo V3 large"@[9] == 'l' && "Turbo V3 small"@[9] == 's');
    assert("Turbo V3 medium"@[9] == 'm' && "Turbo V3 Hebrew"@[9] == 'H');
    assert("ggml-large-v3-turbo-q8_0.bin"@[21] == '8');
    assert("ggml-large-v3-turbo-q5_0.bin"@[21] == '5');
    assert("ggml-ivrit-large-v3-turbo.bin"@.len() == 29);
    let f = catalog()[k].filename;
    assert(f.skip(f.len() - 4) == seq!['.', 'b', 'i', 'n']);
    law_in_flight_is_not_listed(f);
}

/// A file in flight is not listed among the installed models, and does not
/// count as one when it is asked for by its name. Any other name in the models
/// directory can be that of one.
pub proof fn law_in_flight_is_not_listed(n: Seq<char>)
    ensures
        is_in_flight(n) ==> !is_bin(n) && !is_installable(n),
        is_installable(n) <==> is_bare_name(n) && !is_in_flight(n),
{
    reveal_strlit(".partial");
    assert(PARTIAL_SUFFIX@.len() == 8);
    if is_in_flight(n) {
        assert(n.skip(n.len() - 4)[3] == n.skip(n.len() - 8)[7]);
    }
}

/// A file in flight is never reported as installed, and is not the one that it
/// stands for.
pub proof fn law_partial_is_not_installed(dest: ModelFileView)
    ensures
        is_in_flight(partial_of(dest).name),
        !is_installable(partial_of(dest).name),
        !is_bin(partial_of(dest).name),
        partial_of(dest) != dest,
        partial_of(dest).dir == dest.dir,
{
    reveal_strlit(".partial");
    let n = partial_of(dest).name;
    assert(PARTIAL_SUFFIX@.len() == 8);
    assert(n.skip(n.len() - 4)[0] == 't');
    assert(n.len() == dest.name.len() + 8);
    assert(n.skip(n.len() - 8) == PARTIAL_SUFFIX@);
}

/// A name is good for a file of the models directory if it says something, is
/// not the directory or the one above it, and holds no separator.
pub proof fn law_names_cannot_leave_the_directory(n: Seq<char>)
    ensures
        is_bare_name(n) <==> n.len() > 0 && n != seq!['.'] && n != seq!['.', '.'] && forall|k: int|
            0 <= k < n.len() ==> #[trigger] n[k] != '/' && n[k] != '\\',
{
    reveal_strlit(".");
    reveal_strlit("..");
    assert("."@ =~= seq!['.']);
    assert(".."@ =~= seq!['.', '.']);
    if is_bare_name(n) {
        assert forall|k: int| 0 <= k < n.len() implies #[trigger] n[k] != '/' && n[k] != '\\' by {
            assert(n.contains(n[k]));
        }
    }
}

/// The installed models are the files whose names end in `.bin`, with something
/// before it, and the files in flight those whose names end in `.partial`.
pub proof fn law_extensions_tell_files_apart(start: Seq<char>, n: Seq<char>)
    ensures
        is_bin(start + seq!['.', 'b', 'i', 'n']) <==> start.len() > 0,
        is_bin(n) ==> n.len() > 4 && n == n.take(n.len() - 4) + seq!['.', 'b', 'i', 'n'],
        is_in_flight(start + seq!['.', 'p', 'a', 'r', 't', 'i', 'a', 'l']),
        is_in_flight(n) ==> n.len() >= 8 && n == n.take(n.len() - 8) + seq![
            '.',
            'p',
            'a',
            'r',
            't',
            'i',
            'a',
            'l',
        ],
{
    reveal_strlit(".partial");
    let partial = seq!['.', 'p', 'a', 'r', 't', 'i', 'a', 'l'];
    assert(PARTIAL_SUFFIX@ =~= partial);
    let bin = seq!['.', 'b', 'i', 'n'];
    let a = start + bin;
    assert(a.skip(a.len() - 4) == bin);
    let b = start + partial;
    assert(b.skip(b.len() - 8) == partial);
    if is_bin(n) {
        assert(n =~= n.take(n.len() - 4) + n.skip(n.len() - 4));
    }
    if is_in_flight(n) {
        assert(n =~= n.take(n.len() - 8) + n.skip(n.len() - 8));
    }
}

/// A file in flight stands beside the one it will become, with `.partial`
/// behind its name.
pub proof fn law_partial_stands_beside(dest: ModelFileView)
    ensures
        partial_of(dest).dir == dest.dir,
        partial_of(dest).name == dest.name + seq!['.', 'p', 'a', 'r', 't', 'i', 'a', 'l'],
{
    reveal_strlit(".partial");
    assert(PARTIAL_SUFFIX@ =~= seq!['.', 'p', 'a', 'r', 't', 'i', 'a', 'l']);
}

/// A name that no model of the catalog goes by stands for itself, and is in no
/// entry.
pub proof fn law_other_names_stand_for_themselves(name: Seq<char>)
    requires
        forall|k: int|
            0 <= k < catalog().len() ==> (#[trigger] catalog()[k]).name != name
                && catalog()[k].filename != name,
    ensures
        filename_of(name) == name,
        entry_of(name) is None,
{
    reveal_with_fuel(entry_from, 5);
    assert(catalog()[0].name != name && catalog()[1].name != name && catalog()[2].name != name
        && catalog()[3].name != name);
}

/// A file is shown by its directory and its name, and a model is looked for in
/// the models directory.
pub proof fn law_file_is_shown_by_its_parts(f: ModelFile, dir: Seq<char>, name: Seq<char>)
    ensures
        f@.dir == f.dir@,
        f@.name == f.name@,
        file_in(dir, name).dir == dir,
        file_in(dir, name).name == name,
{
}

/// Every error tells why it came.
pub proof fn law_errors_tell_why(why: String, status: u16)
    ensures
        message_of(ModelManagerError::UnknownModel(why)) == "unknown model: "@ + why@,
        message_of(ModelManagerError::InvalidName(why)) == "invalid model name: "@ + why@,
        message_of(ModelManagerError::NotInstalled(why)) == "model is not installed: "@ + why@,
        message_of(ModelManagerError::HttpStatus(status)) == "model server returned HTTP "@
            + decimal(status as nat) + "; please try again later"@,
        message_of(ModelManagerError::Http(why)) == why@,
        message_of(ModelManagerError::Io(why)) == why@,
{
}

} // verus!
