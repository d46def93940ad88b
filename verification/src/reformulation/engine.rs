//! Driving a rewriting model: which files are models, what the model is asked,
//! how far it may go, and what becomes of its answer.
//!
//! The safety contract: [`reformulate_sanitized`] can degrade to returning the
//! dictation unchanged, but it can never lose it.
//!
//! Decoding is greedy, capped at [`MAX_TOKENS`] new tokens, stopping at any
//! end-of-generation token.

use crate::reformulation::{rewrite_in, sanitized, usable_rewrite, INSTRUCTIONS, MAX_TOKENS};
use crate::text::{decimal, decimal_text, joined, text_or_none, trim, trimmed};
use vstd::prelude::*;

verus! {

/// Smallest plausible instruct model. Captive-portal pages, CDN error bodies
/// and Git-LFS pointer files are all far under 1 MB.
pub const MINIMUM_PLAUSIBLE_MODEL_SIZE: u64 = 1_048_576;

/// Fits the ~300-token system prompt, a dictation (a dictation is spoken
/// text: a few hundred tokens at the outside) and [`MAX_TOKENS`] of output
/// with generous slack, while keeping the KV cache small.
pub const N_CTX: u32 = 4096;

/// Why a model could not be loaded or could not answer.
#[derive(Debug)]
pub enum EngineError {
    TooSmall(u64),
    NotAGgufFile(String),
    Backend(String),
    ModelLoad(String),
    Context(String),
    Tokenize(String),
    PromptTooLong { got: usize, max: usize },
    Decode(String),
    Io(String),
}

/// What is said of an error.
pub open spec fn message_of(e: EngineError) -> Seq<char> {
    match e {
        EngineError::TooSmall(n) => "the model file is only "@ + decimal(n as nat)
            + " bytes; that is an error page or a Git-LFS pointer, not a model"@,
        EngineError::NotAGgufFile(path) => path@ + " is not a GGUF model file"@,
        EngineError::Backend(why) => "failed to initialize the llama.cpp backend: "@ + why@,
        EngineError::ModelLoad(why) => "failed to load the model: "@ + why@,
        EngineError::Context(why) => "failed to create the llama.cpp context: "@ + why@,
        EngineError::Tokenize(why) => "failed to tokenize the prompt: "@ + why@,
        EngineError::PromptTooLong { got, max } => "the prompt is "@ + decimal(got as nat)
            + " tokens but the engine can accept at most "@ + decimal(max as nat),
        EngineError::Decode(why) => "llama.cpp failed while generating: "@ + why@,
        EngineError::Io(why) => "failed to read the model file: "@ + why@,
    }
}

impl EngineError {
    /// The error in words.
    pub fn message(&self) -> (s: String)
        ensures
            s@ == message_of(*self),
    {
        match self {
            EngineError::TooSmall(n) => {
                let size: String = joined("the model file is only ", decimal_text(*n).as_str());
                joined(
                    size.as_str(),
                    " bytes; that is an error page or a Git-LFS pointer, not a model",
                )
            },
            EngineError::NotAGgufFile(path) => joined(path.as_str(), " is not a GGUF model file"),
            EngineError::Backend(why) => joined(
                "failed to initialize the llama.cpp backend: ",
                why.as_str(),
            ),
            EngineError::ModelLoad(why) => joined("failed to load the model: ", why.as_str()),
            EngineError::Context(why) => joined(
                "failed to create the llama.cpp context: ",
                why.as_str(),
            ),
            EngineError::Tokenize(why) => joined("failed to tokenize the prompt: ", why.as_str()),
            EngineError::PromptTooLong { got, max } => {
                let start: String = joined("the prompt is ", decimal_text(*got as u64).as_str());
                let middle: String = joined(
                    start.as_str(),
                    " tokens but the engine can accept at most ",
                );
                joined(middle.as_str(), decimal_text(*max as u64).as_str())
            },
            EngineError::Decode(why) => joined("llama.cpp failed while generating: ", why.as_str()),
            EngineError::Io(why) => joined("failed to read the model file: ", why.as_str()),
        }
    }
}

/// Every GGUF file starts with these four bytes.
pub open spec fn gguf_magic() -> Seq<u8> {
    seq![0x47u8, 0x47u8, 0x55u8, 0x46u8]
}

/// What is to be said of a file of a given size that starts with `head`, or of
/// one whose size or head could not be read.
pub open spec fn gguf_verdict(
    path: Seq<char>,
    size: Result<u64, String>,
    head: Result<[u8; 4], String>,
    verdict: Result<(), EngineError>,
) -> bool {
    match size {
        Err(why) => verdict matches Err(EngineError::Io(w)) && w@ == why@,
        Ok(n) => if n < MINIMUM_PLAUSIBLE_MODEL_SIZE {
            verdict matches Err(EngineError::TooSmall(m)) && m == n
        } else {
            match head {
                Err(why) => verdict matches Err(EngineError::Io(w)) && w@ == why@,
                Ok(bytes) => if bytes@ == gguf_magic() {
                    verdict is Ok
                } else {
                    verdict matches Err(EngineError::NotAGgufFile(p)) && p@ == path
                },
            }
        },
    }
}

/// Checks that the file at `path` plausibly holds a GGUF model: at least 1 MB
/// and starting with the `GGUF` magic. It exists so a bad download is rejected
/// with a clear message instead of a cryptic load failure.
///
/// `size` and `head` are the size and the first four bytes of the file, or why
/// they could not be read.
pub fn validate_gguf(
    path: &str,
    size: Result<u64, String>,
    head: Result<[u8; 4], String>,
) -> (verdict: Result<(), EngineError>)
    ensures
        gguf_verdict(path@, size, head, verdict),
{
    let n: u64 = match size {
        Ok(n) => n,
        Err(why) => {
            return Err(EngineError::Io(why));
        },
    };
    if n < MINIMUM_PLAUSIBLE_MODEL_SIZE {
        return Err(EngineError::TooSmall(n));
    }
    let bytes: [u8; 4] = match head {
        Ok(bytes) => bytes,
        Err(why) => {
            return Err(EngineError::Io(why));
        },
    };
    if bytes[0] == 0x47 && bytes[1] == 0x47 && bytes[2] == 0x55 && bytes[3] == 0x46 {
        assert(bytes@ == gguf_magic());
        Ok(())
    } else {
        assert(gguf_magic()[0] == 0x47 && gguf_magic()[1] == 0x47 && gguf_magic()[2] == 0x55
            && gguf_magic()[3] == 0x46);
        Err(EngineError::NotAGgufFile(path.to_owned()))
    }
}

/// What the model is asked, in the Gemma-2 chat format.
pub open spec fn prompt_for(dictation: Seq<char>) -> Seq<char> {
    "<start_of_turn>user\n"@ + INSTRUCTIONS@ + "\n\n"@ + trimmed(dictation)
        + "<end_of_turn>\n<start_of_turn>model\n"@
}

/// The Gemma-2 chat format, written out by hand. Gemma has no system role,
/// so the instructions are prepended to the single user turn.
///
/// This is the fallback when the model ships no usable chat template.
pub fn build_prompt(dictation: &str) -> (prompt: String)
    ensures
        prompt@ == prompt_for(dictation@),
{
    let start: String = joined("<start_of_turn>user\n", INSTRUCTIONS);
    let gap: String = joined(start.as_str(), "\n\n");
    let turn: String = joined(gap.as_str(), trim(dictation).as_str());
    joined(turn.as_str(), "<end_of_turn>\n<start_of_turn>model\n")
}

/// The messages that a model's own chat template is applied to: the
/// instructions as the system, the dictation as the user.
pub fn chat_messages(dictation: &str) -> (messages: (String, String))
    ensures
        messages.0@ == INSTRUCTIONS@,
        messages.1@ == trimmed(dictation@),
{
    (INSTRUCTIONS.to_owned(), trim(dictation))
}

/// Prefers what the model's own chat template made of the messages, and falls
/// back to the hand-written format where there is no usable template.
pub fn render_prompt(templated: Option<String>, dictation: &str) -> (prompt: String)
    ensures
        prompt@ == match templated {
            Some(p) => p@,
            None => prompt_for(dictation@),
        },
{
    match templated {
        Some(prompt) => prompt,
        None => build_prompt(dictation),
    }
}

/// The longest prompt that a context takes: it must fit in one decode call and
/// must leave room in the window for the output.
pub open spec fn max_prompt(n_batch: u32, n_ctx: u32) -> int {
    if n_batch < n_ctx - MAX_TOKENS {
        n_batch as int
    } else {
        n_ctx - MAX_TOKENS
    }
}

/// Checks that a prompt of `got` tokens fits.
pub fn fit_prompt(got: usize, n_batch: u32, n_ctx: u32) -> (r: Result<(), EngineError>)
    requires
        n_ctx >= MAX_TOKENS,
    ensures
        match r {
            Ok(()) => got <= max_prompt(n_batch, n_ctx),
            Err(EngineError::PromptTooLong { got: g, max }) => g == got && max == max_prompt(
                n_batch,
                n_ctx,
            ) && got > max,
            Err(_) => false,
        },
{
    let room: u32 = n_ctx - MAX_TOKENS;
    let max: usize = if n_batch < room {
        n_batch as usize
    } else {
        room as usize
    };
    if got > max {
        Err(EngineError::PromptTooLong { got, max })
    } else {
        Ok(())
    }
}

/// A rewrite in the making.
pub struct Generation {
    /// What has been generated so far.
    output: String,
    /// How many tokens that took.
    produced: u32,
    /// The length of the prompt, in tokens.
    prompt: i32,
}

/// What a [`Generation`] stands for.
pub struct GenerationView {
    pub output: Seq<char>,
    pub produced: int,
    pub prompt: int,
}

impl View for Generation {
    type V = GenerationView;

    closed spec fn view(&self) -> GenerationView {
        GenerationView {
            output: self.output@,
            produced: self.produced as int,
            prompt: self.prompt as int,
        }
    }
}

/// A generation that has not started.
pub open spec fn unstarted(prompt: int) -> GenerationView {
    GenerationView { output: Seq::empty(), produced: 0, prompt }
}

/// A generation after one more token that reads `piece`.
pub open spec fn extended(g: GenerationView, piece: Seq<char>) -> GenerationView {
    GenerationView { output: g.output + piece, produced: g.produced + 1, prompt: g.prompt }
}

impl Generation {
    #[verifier::type_invariant]
    spec fn is_bounded(self) -> bool {
        &&& self.produced <= MAX_TOKENS
        &&& 0 <= self.prompt
        &&& self.prompt + MAX_TOKENS <= i32::MAX
    }

    /// Starts behind a prompt of `prompt` tokens.
    pub fn new(prompt: usize) -> (g: Generation)
        requires
            prompt + MAX_TOKENS <= i32::MAX,
        ensures
            g@ == unstarted(prompt as int),
    {
        Generation { output: String::new(), produced: 0, prompt: prompt as i32 }
    }

    /// Whether there is room for another token.
    pub fn has_room(&self) -> (r: bool)
        ensures
            r == (self@.produced < MAX_TOKENS),
            self@.produced <= MAX_TOKENS,
    {
        proof {
            use_type_invariant(self);
        }
        self.produced < MAX_TOKENS
    }

    /// Takes a token that is not an end of generation and reads `piece`. Says
    /// at which position of the context it is to be fed back.
    pub fn push(&mut self, piece: &str) -> (pos: i32)
        requires
            old(self)@.produced < MAX_TOKENS,
        ensures
            pos == old(self)@.prompt + old(self)@.produced,
            final(self)@ == extended(old(self)@, piece@),
    {
        proof {
            use_type_invariant(&*self);
        }
        let pos: i32 = self.prompt + self.produced as i32;
        let output: String = joined(self.output.as_str(), piece);
        *self = Generation { output, produced: self.produced + 1, prompt: self.prompt };
        pos
    }

    /// What was generated.
    pub fn finish(self) -> (output: String)
        ensures
            output@ == self@.output,
    {
        self.output
    }
}

/// What becomes of a generation that takes `pieces` until there is no room.
pub open spec fn generated(g: GenerationView, pieces: Seq<Seq<char>>) -> GenerationView
    decreases pieces.len(),
{
    if pieces.len() == 0 || g.produced >= MAX_TOKENS {
        g
    } else {
        generated(extended(g, pieces[0]), pieces.drop_first())
    }
}

/// All of `pieces`, one behind the other.
pub open spec fn run_together(pieces: Seq<Seq<char>>) -> Seq<char>
    decreases pieces.len(),
{
    if pieces.len() == 0 {
        Seq::empty()
    } else {
        pieces[0] + run_together(pieces.drop_first())
    }
}

proof fn lemma_generated(g: GenerationView, pieces: Seq<Seq<char>>)
    requires
        0 <= g.produced <= MAX_TOKENS,
    ensures
        ({
            let room = MAX_TOKENS - g.produced;
            let n = if pieces.len() < room {
                pieces.len() as int
            } else {
                room
            };
            generated(g, pieces) == (GenerationView {
                output: g.output + run_together(pieces.take(n)),
                produced: g.produced + n,
                prompt: g.prompt,
            })
        }),
    decreases pieces.len(),
{
    let room = MAX_TOKENS - g.produced;
    let n = if pieces.len() < room {
        pieces.len() as int
    } else {
        room
    };
    if pieces.len() == 0 || g.produced >= MAX_TOKENS {
        assert(pieces.take(n) == Seq::<Seq<char>>::empty());
        assert(g.output + Seq::<char>::empty() == g.output);
    } else {
        let next = extended(g, pieces[0]);
        lemma_generated(next, pieces.drop_first());
        assert(pieces.take(n)[0] == pieces[0]);
        assert(pieces.take(n).drop_first() == pieces.drop_first().take(n - 1));
        assert(next.output + run_together(pieces.drop_first().take(n - 1)) == g.output + (pieces[0]
            + run_together(pieces.drop_first().take(n - 1))));
    }
}

/// A rewrite is what the first tokens read, in order, and there are at most
/// [`MAX_TOKENS`] of them.
pub proof fn law_generation_is_capped(prompt: int, pieces: Seq<Seq<char>>)
    ensures
        ({
            let n = if pieces.len() < MAX_TOKENS {
                pieces.len() as int
            } else {
                MAX_TOKENS as int
            };
            &&& generated(unstarted(prompt), pieces).produced == n
            &&& generated(unstarted(prompt), pieces).output == run_together(pieces.take(n))
        }),
{
    lemma_generated(unstarted(prompt), pieces);
    let n = if pieces.len() < MAX_TOKENS {
        pieces.len() as int
    } else {
        MAX_TOKENS as int
    };
    assert(Seq::<char>::empty() + run_together(pieces.take(n)) == run_together(pieces.take(n)));
}

/// The rewrite of a dictation that came of asking a model for one, if any did.
pub open spec fn rewrite_from(
    outcome: Result<String, EngineError>,
    dictation: Seq<char>,
) -> Option<Seq<char>> {
    match outcome {
        Ok(raw) => rewrite_in(raw@, dictation),
        Err(_) => None,
    }
}

/// The rewrite in a model's answer. There is none if the model failed, or
/// answered with nothing usable.
pub fn accepted_rewrite(
    outcome: Result<String, EngineError>,
    dictation: &str,
) -> (r: Option<String>)
    ensures
        text_or_none(r) == rewrite_from(outcome, dictation@),
{
    match outcome {
        Ok(raw) => usable_rewrite(raw.as_str(), dictation),
        Err(_) => None,
    }
}

/// What is kept of a dictation that a model was asked to rewrite.
pub open spec fn kept(outcome: Result<String, EngineError>, dictation: Seq<char>) -> Seq<char> {
    match rewrite_from(outcome, dictation) {
        Some(rewrite) => rewrite,
        None => dictation,
    }
}

/// The model's answer made safe, falling back to the dictation itself on *any*
/// engine error. This is the safety contract end to end: whatever breaks (a
/// poisoned context, a decode failure, a model answering instead of rewriting)
/// the user's dictation survives.
pub fn reformulate_sanitized(outcome: Result<String, EngineError>, dictation: &str) -> (r: String)
    ensures
        r@ == kept(outcome, dictation@),
{
    match accepted_rewrite(outcome, dictation) {
        Some(rewrite) => rewrite,
        None => dictation.to_owned(),
    }
}

/// A dictation that says something still says something after the model was
/// asked to rewrite it, and it is unchanged where the model failed.
pub proof fn law_dictation_survives(outcome: Result<String, EngineError>, dictation: Seq<char>)
    ensures
        outcome is Err ==> kept(outcome, dictation) == dictation,
        dictation.len() > 0 ==> kept(outcome, dictation).len() > 0,
        trimmed(dictation).len() > 0 ==> trimmed(kept(outcome, dictation)).len() > 0,
{
    if let Ok(raw) = outcome {
        crate::reformulation::law_never_loses_the_dictation(raw@, dictation);
    }
}

/// What comes of an answer is what is kept of it, and of a failure the
/// dictation as it was. There is a rewrite only in an answer.
pub proof fn law_failures_keep_the_dictation(
    raw: String,
    why: EngineError,
    dictation: Seq<char>,
)
    ensures
        kept(Ok(raw), dictation) == sanitized(raw@, dictation),
        rewrite_from(Ok(raw), dictation) == rewrite_in(raw@, dictation),
        kept(Err(why), dictation) == dictation,
        rewrite_from(Err(why), dictation) is None,
{
}

/// A file that is plausibly large is a model if it starts with the letters
/// `GGUF`, and only then. A smaller one is refused for its size.
pub proof fn law_gguf_files_start_with_their_name(
    path: Seq<char>,
    size: Result<u64, String>,
    head: Result<[u8; 4], String>,
    verdict: Result<(), EngineError>,
)
    requires
        gguf_verdict(path, size, head, verdict),
    ensures
        size is Ok && size->Ok_0 < 1_048_576 ==> verdict == Err::<(), EngineError>(
            EngineError::TooSmall(size->Ok_0),
        ),
        size is Ok && size->Ok_0 >= 1_048_576 && head is Ok ==> {
            let bytes = head->Ok_0@;
            let is_magic = bytes[0] == 71 && bytes[1] == 71 && bytes[2] == 85 && bytes[3] == 70;
            &&& verdict is Ok <==> is_magic
            &&& !is_magic ==> verdict is Err && verdict->Err_0 is NotAGgufFile
                && verdict->Err_0->NotAGgufFile_0@ == path
        },
        size is Err || (size->Ok_0 >= 1_048_576 && head is Err) ==> verdict is Err
            && verdict->Err_0 is Io,
{
    let magic = gguf_magic();
    assert(magic[0] == 71 && magic[1] == 71 && magic[2] == 85 && magic[3] == 70);
    if head is Ok {
        let bytes = head->Ok_0@;
        if bytes[0] == 71 && bytes[1] == 71 && bytes[2] == 85 && bytes[3] == 70 {
            assert(bytes =~= magic);
        }
    }
}

/// The model is given the instructions first and then the dictation, without
/// the white space around it, as one turn of the user, and is to speak next.
pub proof fn law_prompt_holds_instructions_and_dictation(dictation: Seq<char>)
    ensures
        ({
            let p = prompt_for(dictation);
            let a = "<start_of_turn>user\n"@.len() as int;
            let b = a + INSTRUCTIONS@.len();
            let c = b + 2 + trimmed(dictation).len();
            &&& p.take(a) == "<start_of_turn>user\n"@
            &&& p.subrange(a, b) == INSTRUCTIONS@
            &&& p.subrange(b, b + 2) == seq!['\n', '\n']
            &&& p.subrange(b + 2, c) == trimmed(dictation)
            &&& p.skip(c) == "<end_of_turn>\n<start_of_turn>model\n"@
        }),
{
    reveal_strlit("\n\n");
    let p = prompt_for(dictation);
    let a = "<start_of_turn>user\n"@.len() as int;
    let b = a + INSTRUCTIONS@.len();
    let c = b + 2 + trimmed(dictation).len();
    assert(p.take(a) =~= "<start_of_turn>user\n"@);
    assert(p.subrange(a, b) =~= INSTRUCTIONS@);
    assert(p.subrange(b, b + 2) =~= seq!['\n', '\n']);
    assert(p.subrange(b + 2, c) =~= trimmed(dictation));
    assert(p.skip(c) =~= "<end_of_turn>\n<start_of_turn>model\n"@);
}

/// A prompt fits if it can be decoded at once and leaves room for the 512
/// tokens that an answer may take.
pub proof fn law_prompt_leaves_room_for_the_answer(got: int, n_batch: u32, n_ctx: u32)
    ensures
        got <= max_prompt(n_batch, n_ctx) <==> got <= n_batch && got + 512 <= n_ctx,
{
}

/// A token that is taken adds what it reads to the end of the answer and counts
/// as one. Of any number of tokens the first 512 are taken.
pub proof fn law_tokens_add_up(g: GenerationView, prompt: int, pieces: Seq<Seq<char>>)
    ensures
        extended(g, pieces[0]).output == g.output + pieces[0],
        extended(g, pieces[0]).produced == g.produced + 1,
        extended(g, pieces[0]).prompt == g.prompt,
        unstarted(prompt).output.len() == 0 && unstarted(prompt).produced == 0,
        pieces.len() >= 512 ==> generated(unstarted(prompt), pieces).output == run_together(
            pieces.take(512),
        ),
        pieces.len() < 512 ==> generated(unstarted(prompt), pieces).output == run_together(pieces),
{
    law_generation_is_capped(prompt, pieces);
    assert(pieces.take(pieces.len() as int) =~= pieces);
}

/// Every error tells why it came, and there is room for 4096 tokens.
pub proof fn law_errors_tell_why(why: String, n: u64, got: usize, max: usize)
    ensures
        message_of(EngineError::TooSmall(n)) == "the model file is only "@ + decimal(n as nat)
            + " bytes; that is an error page or a Git-LFS pointer, not a model"@,
        message_of(EngineError::NotAGgufFile(why)) == why@ + " is not a GGUF model file"@,
        message_of(EngineError::Backend(why)) == "failed to initialize the llama.cpp backend: "@
            + why@,
        message_of(EngineError::ModelLoad(why)) == "failed to load the model: "@ + why@,
        message_of(EngineError::Context(why)) == "failed to create the llama.cpp context: "@ + why@,
        message_of(EngineError::Tokenize(why)) == "failed to tokenize the prompt: "@ + why@,
        message_of(EngineError::PromptTooLong { got, max }) == "the prompt is "@ + decimal(
            got as nat,
        ) + " tokens but the engine can accept at most "@ + decimal(max as nat),
        message_of(EngineError::Decode(why)) == "llama.cpp failed while generating: "@ + why@,
        message_of(EngineError::Io(why)) == "failed to read the model file: "@ + why@,
        N_CTX == 4096,
{
}

} // verus!
