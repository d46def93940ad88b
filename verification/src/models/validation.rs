//! Rejects a download whose *content* is not a model even though the HTTP
//! status was 200: without this, a captive-portal page or a Git-LFS pointer
//! file gets stored as a model and is taken for one forever.

use crate::text::{decimal, decimal_text, joined};
use vstd::prelude::*;

verus! {

/// whisper.cpp's `GGML_FILE_MAGIC`, stored little-endian at the head of every
/// ggml model file.
pub const GGML_FILE_MAGIC: u32 = 0x6767_6d6c;

/// Smallest plausible whisper model. Captive-portal interstitials, CDN error
/// pages and Git-LFS pointer files are all well under this.
pub const MINIMUM_PLAUSIBLE_MODEL_SIZE: u64 = 1_000_000;

/// Why a downloaded file is no model.
#[derive(Debug)]
pub enum ModelValidationError {
    TooSmall(u64),
    NotAGgmlFile,
    Io(String),
}

/// What is said of a file that is no model.
pub open spec fn message_of(e: ModelValidationError) -> Seq<char> {
    match e {
        ModelValidationError::TooSmall(n) => "the downloaded file is only "@ + decimal(n as nat)
            + " bytes; the server most likely returned an error page instead of the model"@,
        ModelValidationError::NotAGgmlFile =>
            "the downloaded file is not a valid GGML model; the download may have been intercepted or corrupted"@,
        ModelValidationError::Io(why) => "failed to read the downloaded file: "@ + why@,
    }
}

impl ModelValidationError {
    /// The error in words.
    pub fn message(&self) -> (s: String)
        ensures
            s@ == message_of(*self),
    {
        match self {
            ModelValidationError::TooSmall(n) => {
                let start: String = joined(
                    "the downloaded file is only ",
                    decimal_text(*n).as_str(),
                );
                joined(
                    start.as_str(),
                    " bytes; the server most likely returned an error page instead of the model",
                )
            },
            ModelValidationError::NotAGgmlFile =>
                "the downloaded file is not a valid GGML model; the download may have been intercepted or corrupted".to_owned(),
            ModelValidationError::Io(why) => joined(
                "failed to read the downloaded file: ",
                why.as_str(),
            ),
        }
    }
}

/// The number that the first four bytes stand for, lowest byte first.
pub open spec fn head_value(bytes: Seq<u8>) -> int {
    bytes[0] + 0x100 * bytes[1] + 0x1_0000 * bytes[2] + 0x100_0000 * bytes[3]
}

/// Whether a file that starts with `bytes` starts as a ggml model does.
pub open spec fn starts_as_model(bytes: Seq<u8>) -> bool {
    bytes.len() >= 4 && head_value(bytes) == GGML_FILE_MAGIC
}

/// Whether a file with these contents passes for a model.
pub open spec fn is_model(contents: Seq<u8>) -> bool {
    contents.len() >= MINIMUM_PLAUSIBLE_MODEL_SIZE && starts_as_model(contents)
}

/// Whether the file that starts with `head` begins with [`GGML_FILE_MAGIC`].
/// A file too short to hold it does not. Split out from the size check so it
/// can be exercised against small-but-valid ggml files.
pub fn has_ggml_magic(head: &[u8]) -> (r: bool)
    ensures
        r == starts_as_model(head@),
{
    if head.len() < 4 {
        return false;
    }
    let value: u32 = head[0] as u32 + 0x100 * head[1] as u32 + 0x1_0000 * head[2] as u32
        + 0x100_0000 * head[3] as u32;
    value == GGML_FILE_MAGIC
}

/// What is to be said of a file of a given size of which `head` was read, or of
/// one whose size is not known or that could not be opened.
pub open spec fn is_verdict(
    size: Result<u64, String>,
    head: Result<Vec<u8>, String>,
    verdict: Result<(), ModelValidationError>,
) -> bool {
    match size {
        Err(why) => verdict == Err::<(), ModelValidationError>(ModelValidationError::Io(why)),
        Ok(n) => if n < MINIMUM_PLAUSIBLE_MODEL_SIZE {
            verdict == Err::<(), ModelValidationError>(ModelValidationError::TooSmall(n))
        } else {
            match head {
                Err(why) => verdict == Err::<(), ModelValidationError>(
                    ModelValidationError::Io(why),
                ),
                Ok(bytes) => if starts_as_model(bytes@) {
                    verdict is Ok
                } else {
                    verdict == Err::<(), ModelValidationError>(ModelValidationError::NotAGgmlFile)
                },
            }
        },
    }
}

/// Checks that a downloaded file plausibly holds a model. `size` is its size,
/// or why it could not be told, and `head` what it starts with, or why it could
/// not be opened. What it starts with is four bytes, or what there was to read
/// of them: a file that ends or fails before is no model.
pub fn validate_downloaded_model(
    size: Result<u64, String>,
    head: Result<Vec<u8>, String>,
) -> (verdict: Result<(), ModelValidationError>)
    ensures
        is_verdict(size, head, verdict),
{
    let n: u64 = match size {
        Ok(n) => n,
        Err(why) => {
            return Err(ModelValidationError::Io(why));
        },
    };
    if n < MINIMUM_PLAUSIBLE_MODEL_SIZE {
        return Err(ModelValidationError::TooSmall(n));
    }
    match head {
        Err(why) => Err(ModelValidationError::Io(why)),
        Ok(bytes) => if has_ggml_magic(bytes.as_slice()) {
            Ok(())
        } else {
            Err(ModelValidationError::NotAGgmlFile)
        },
    }
}

/// A file that is too short for the magic, or could be opened and not read that
/// far, is no model, and not an error of reading.
pub proof fn law_short_read_is_no_model(
    size: Result<u64, String>,
    head: Result<Vec<u8>, String>,
    verdict: Result<(), ModelValidationError>,
)
    requires
        is_verdict(size, head, verdict),
        size matches Ok(n) && n >= MINIMUM_PLAUSIBLE_MODEL_SIZE,
        head matches Ok(bytes) && bytes@.len() < 4,
    ensures
        verdict == Err::<(), ModelValidationError>(ModelValidationError::NotAGgmlFile),
{
}

/// A file that was read right passes exactly if its contents pass for a model.
pub proof fn law_verdict_is_about_the_contents(
    contents: Seq<u8>,
    size: Result<u64, String>,
    head: Result<Vec<u8>, String>,
    verdict: Result<(), ModelValidationError>,
)
    requires
        is_verdict(size, head, verdict),
        size matches Ok(n) && n == contents.len(),
        head matches Ok(bytes) && bytes@ == contents.take(
            if contents.len() < 4 {
                contents.len() as int
            } else {
                4
            },
        ),
    ensures
        verdict is Ok <==> is_model(contents),
{
    if contents.len() >= 4 {
        let bytes = head->Ok_0@;
        assert(bytes[0] == contents[0] && bytes[1] == contents[1] && bytes[2] == contents[2]
            && bytes[3] == contents[3]);
    }
}

/// A file that is plausibly large is a model if it starts with the letters of
/// the magic, lowest byte first, and only then. A smaller one is refused for
/// its size, whatever it starts with.
pub proof fn law_magic_and_size_decide(
    size: Result<u64, String>,
    head: Result<Vec<u8>, String>,
    verdict: Result<(), ModelValidationError>,
)
    requires
        is_verdict(size, head, verdict),
    ensures
        size matches Ok(n) ==> n < 1_000_000 ==> verdict == Err::<(), ModelValidationError>(
            ModelValidationError::TooSmall(n),
        ),
        size is Ok && size->Ok_0 >= 1_000_000 && head is Ok ==> {
            let bytes = head->Ok_0@;
            let is_magic = bytes.len() >= 4 && bytes[0] == 0x6c && bytes[1] == 0x6d && bytes[2]
                == 0x67 && bytes[3] == 0x67;
            &&& verdict is Ok <==> is_magic
            &&& !is_magic ==> verdict == Err::<(), ModelValidationError>(
                ModelValidationError::NotAGgmlFile,
            )
        },
        size matches Err(why) ==> verdict == Err::<(), ModelValidationError>(
            ModelValidationError::Io(why),
        ),
        size is Ok && size->Ok_0 >= 1_000_000 && head is Err ==> verdict == Err::<
            (),
            ModelValidationError,
        >(ModelValidationError::Io(head->Err_0)),
{
}

/// What passes for a model is plausibly large and starts with the magic.
pub proof fn law_models_start_with_the_magic(contents: Seq<u8>)
    ensures
        is_model(contents) <==> contents.len() >= 1_000_000 && contents.take(4) == seq![
            0x6cu8,
            0x6du8,
            0x67u8,
            0x67u8,
        ],
{
    let magic = seq![0x6cu8, 0x6du8, 0x67u8, 0x67u8];
    if contents.len() >= 4 {
        let head = contents.take(4);
        assert(head[0] == contents[0] && head[1] == contents[1] && head[2] == contents[2]
            && head[3] == contents[3]);
        if is_model(contents) {
            assert(head =~= magic);
        }
        if head == magic {
            assert(head[0] == magic[0] && head[1] == magic[1] && head[2] == magic[2] && head[3]
                == magic[3]);
        }
    }
}

/// Every error tells why it came.
pub proof fn law_errors_tell_why(why: String, n: u64)
    ensures
        message_of(ModelValidationError::TooSmall(n)) == "the downloaded file is only "@ + decimal(
            n as nat,
        ) + " bytes; the server most likely returned an error page instead of the model"@,
        message_of(ModelValidationError::Io(why)) == "failed to read the downloaded file: "@ + why@,
{
}

} // verus!
