//! The downloadable models.

use crate::text::same_text;
use vstd::prelude::*;

verus! {

/// One downloadable model.
#[derive(Debug, Clone, Copy)]
pub struct CatalogModel {
    /// Human-readable name shown in the UI (e.g. "Turbo V3 large").
    pub name: &'static str,
    /// Filename the model is stored under in the models directory.
    pub filename: &'static str,
    /// Direct download URL.
    pub url: &'static str,
    /// Approximate size in megabytes (for UI display only).
    pub size_mb: u32,
    pub description: &'static str,
    /// Language this model is fine-tuned for, if any (ISO 639-1).
    /// Selecting such a model should also switch the transcription language.
    pub preferred_language: Option<&'static str>,
}

/// What a [`CatalogModel`] stands for.
pub struct CatalogEntry {
    pub name: Seq<char>,
    pub filename: Seq<char>,
    pub url: Seq<char>,
    pub size_mb: u32,
    pub description: Seq<char>,
    pub preferred_language: Option<Seq<char>>,
}

impl View for CatalogModel {
    type V = CatalogEntry;

    open spec fn view(&self) -> CatalogEntry {
        CatalogEntry {
            name: self.name@,
            filename: self.filename@,
            url: self.url@,
            size_mb: self.size_mb,
            description: self.description@,
            preferred_language: match self.preferred_language {
                Some(l) => Some(l@),
                None => None,
            },
        }
    }
}

/// The catalog.
pub open spec fn catalog() -> Seq<CatalogEntry> {
    seq![
        CatalogEntry {
            name: "Turbo V3 large"@,
            filename: "ggml-large-v3-turbo.bin"@,
            url: "https://huggingface.co/ggerganov/whisper.cpp/resolve/main/ggml-large-v3-turbo.bin?download=true"@,
            size_mb: 1624,
            description: "High accuracy, best quality"@,
            preferred_language: None,
        },
        CatalogEntry {
            name: "Turbo V3 medium"@,
            filename: "ggml-large-v3-turbo-q8_0.bin"@,
            url: "https://huggingface.co/ggerganov/whisper.cpp/resolve/main/ggml-large-v3-turbo-q8_0.bin?download=true"@,
            size_mb: 874,
            description: "Balanced speed and accuracy"@,
            preferred_language: None,
        },
        CatalogEntry {
            name: "Turbo V3 small"@,
            filename: "ggml-large-v3-turbo-q5_0.bin"@,
            url: "https://huggingface.co/ggerganov/whisper.cpp/resolve/main/ggml-large-v3-turbo-q5_0.bin?download=true"@,
            size_mb: 574,
            description: "Fastest processing"@,
            preferred_language: None,
        },
        CatalogEntry {
            name: "Turbo V3 Hebrew"@,
            filename: "ggml-ivrit-large-v3-turbo.bin"@,
            url: "https://huggingface.co/ivrit-ai/whisper-large-v3-turbo-ggml/resolve/main/ggml-model.bin?download=true"@,
            size_mb: 1624,
            description: "Hebrew fine-tune of Turbo V3 by ivrit.ai. Sets the language to Hebrew."@,
            preferred_language: Some("he"@),
        },
    ]
}

/// The downloadable-model catalog.
pub fn available_models() -> (models: Vec<CatalogModel>)
    ensures
        models@.len() == catalog().len(),
        forall|k: int| 0 <= k < models@.len() ==> (#[trigger] models@[k])@ == catalog()[k],
{
    vec![
        CatalogModel {
            name: "Turbo V3 large",
            filename: "ggml-large-v3-turbo.bin",
            url: "https://huggingface.co/ggerganov/whisper.cpp/resolve/main/ggml-large-v3-turbo.bin?download=true",
            size_mb: 1624,
            description: "High accuracy, best quality",
            preferred_language: None,
        },
        CatalogModel {
            name: "Turbo V3 medium",
            filename: "ggml-large-v3-turbo-q8_0.bin",
            url: "https://huggingface.co/ggerganov/whisper.cpp/resolve/main/ggml-large-v3-turbo-q8_0.bin?download=true",
            size_mb: 874,
            description: "Balanced speed and accuracy",
            preferred_language: None,
        },
        CatalogModel {
            name: "Turbo V3 small",
            filename: "ggml-large-v3-turbo-q5_0.bin",
            url: "https://huggingface.co/ggerganov/whisper.cpp/resolve/main/ggml-large-v3-turbo-q5_0.bin?download=true",
            size_mb: 574,
            description: "Fastest processing",
            preferred_language: None,
        },
        CatalogModel {
            name: "Turbo V3 Hebrew",
            filename: "ggml-ivrit-large-v3-turbo.bin",
            url: "https://huggingface.co/ivrit-ai/whisper-large-v3-turbo-ggml/resolve/main/ggml-model.bin?download=true",
            size_mb: 1624,
            description: "Hebrew fine-tune of Turbo V3 by ivrit.ai. Sets the language to Hebrew.",
            preferred_language: Some("he"),
        },
    ]
}

/// Whether an entry goes by `name`.
pub open spec fn goes_by(e: CatalogEntry, name: Seq<char>) -> bool {
    e.name == name || e.filename == name
}

/// The first entry from `k` on that goes by `name`.
pub open spec fn entry_from(name: Seq<char>, k: int) -> Option<int>
    decreases catalog().len() - k,
{
    if 0 <= k < catalog().len() {
        if goes_by(catalog()[k], name) {
            Some(k)
        } else {
            entry_from(name, k + 1)
        }
    } else {
        None
    }
}

/// The catalog entry that goes by `name`.
pub open spec fn entry_of(name: Seq<char>) -> Option<int> {
    entry_from(name, 0)
}

/// Look up a catalog entry by its display name or its filename.
pub fn catalog_model(name: &str) -> (r: Option<CatalogModel>)
    ensures
        match r {
            Some(m) => entry_of(name@) is Some && 0 <= entry_of(name@)->0 < catalog().len() && m@
                == catalog()[entry_of(name@)->0],
            None => entry_of(name@) is None,
        },
{
    let models: Vec<CatalogModel> = available_models();
    let mut k: usize = 0;
    while k < models.len()
        invariant
            k <= models@.len(),
            models@.len() == catalog().len(),
            forall|j: int| 0 <= j < models@.len() ==> (#[trigger] models@[j])@ == catalog()[j],
            entry_of(name@) == entry_from(name@, k as int),
        decreases models@.len() - k,
    {
        assert(models@[k as int]@ == catalog()[k as int]);
        if same_text(models[k].name, name) || same_text(models[k].filename, name) {
            return Some(models[k]);
        }
        k = k + 1;
    }
    None
}

/// A model that is not tuned for a language is fetched from where whisper.cpp
/// keeps its models, under the name that it is stored under here. The one that
/// is tuned for Hebrew comes from those who tuned it. The names and the
/// filenames are all different.
pub proof fn law_models_are_fetched_by_filename(i: int, j: int)
    requires
        0 <= i < catalog().len(),
        0 <= j < catalog().len(),
    ensures
        catalog()[i].preferred_language is None ==> catalog()[i].url
            == "https://huggingface.co/ggerganov/whisper.cpp/resolve/main/"@ + catalog()[i].filename
            + "?download=true"@,
        catalog()[i].preferred_language matches Some(l) ==> l == "he"@ && catalog()[i].filename
            == "ggml-ivrit-large-v3-turbo.bin"@ && catalog()[i].url
            == "https://huggingface.co/ivrit-ai/whisper-large-v3-turbo-ggml/resolve/main/ggml-model.bin?download=true"@,
        i != j ==> catalog()[i].name != catalog()[j].name && catalog()[i].filename
            != catalog()[j].filename,
{
    reveal_strlit("https://huggingface.co/ggerganov/whisper.cpp/resolve/main/");
    reveal_strlit("?download=true");
    reveal_strlit(
        "https://huggingface.co/ggerganov/whisper.cpp/resolve/main/ggml-large-v3-turbo.bin?download=true",
    );
    reveal_strlit(
        "https://huggingface.co/ggerganov/whisper.cpp/resolve/main/ggml-large-v3-turbo-q8_0.bin?download=true",
    );
    reveal_strlit(
        "https://huggingface.co/ggerganov/whisper.cpp/resolve/main/ggml-large-v3-turbo-q5_0.bin?download=true",
    );
    reveal_strlit("Turbo V3 large");
    reveal_strlit("Turbo V3 medium");
    reveal_strlit("Turbo V3 small");
    reveal_strlit("Turbo V3 Hebrew");
    reveal_strlit("ggml-large-v3-turbo.bin");
    reveal_strlit("ggml-large-v3-turbo-q8_0.bin");
    reveal_strlit("ggml-large-v3-turbo-q5_0.bin");
    reveal_strlit("ggml-ivrit-large-v3-turbo.bin");
    assert("Turbo V3 large"@[9] == 'l' && "Turbo V3 small"@[9] == 's');
    assert("Turbo V3 medium"@[9] == 'm' && "Turbo V3 Hebrew"@[9] == 'H');
    assert("ggml-large-v3-turbo-q8_0.bin"@[21] == '8');
    assert("ggml-large-v3-turbo-q5_0.bin"@[21] == '5');
    let start = "https://huggingface.co/ggerganov/whisper.cpp/resolve/main/"@;
    let end = "?download=true"@;
    assert(catalog()[0].url =~= start + catalog()[0].filename + end);
    assert(catalog()[1].url =~= start + catalog()[1].filename + end);
    assert(catalog()[2].url =~= start + catalog()[2].filename + end);
}

/// A model is shown by all that the catalog says of it, and is found by its
/// display name and its filename.
pub proof fn law_model_is_shown_by_its_parts(m: CatalogModel, name: Seq<char>)
    ensures
        m@.name == m.name@ && m@.filename == m.filename@ && m@.url == m.url@,
        m@.size_mb == m.size_mb && m@.description == m.description@,
        m.preferred_language is None ==> m@.preferred_language is None,
        m.preferred_language matches Some(l) ==> m@.preferred_language == Some(l@),
        goes_by(m@, name) <==> m.name@ == name || m.filename@ == name,
{
}

} // verus!
