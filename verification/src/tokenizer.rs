//! Names of the tokenizer backends and encodings that can be asked for.

use vstd::prelude::*;
use crate::text::{lowercase, str_equal, to_lowercase};

verus! {

/// Available tokenizer backends.
#[derive(Debug, Clone, Copy, PartialEq, Eq, Structural)]
pub enum TokenizerType {
    /// Byte-pair encoding selected by the name of the encoding.
    Tiktoken,
    /// Tokenizer loaded from a tokenizer file or by model name.
    HuggingFace,
    /// The GPT-2 tokenizer.
    Gpt2,
}

impl Default for TokenizerType {
    fn default() -> (backend: Self)
        ensures
            backend == TokenizerType::Tiktoken,
    {
        TokenizerType::Tiktoken
    }
}

/// The backend that a lowercase name stands for.
pub open spec fn tokenizer_for_name(name: Seq<char>) -> Option<TokenizerType> {
    if name == "tiktoken"@ || name == "tk"@ || name == "openai"@ {
        Some(TokenizerType::Tiktoken)
    } else if name == "huggingface"@ || name == "hf"@ || name == "llama"@ {
        Some(TokenizerType::HuggingFace)
    } else if name == "gpt2"@ || name == "gpt-2"@ || name == "legacy"@ {
        Some(TokenizerType::Gpt2)
    } else {
        None
    }
}

impl TokenizerType {
    /// Parse the name of a backend, whatever its case.
    pub fn from_str(s: &str) -> (backend: Option<Self>)
        ensures
            backend == tokenizer_for_name(lowercase(s@)),
    {
        let lower = to_lowercase(s);
        TokenizerType::for_name(lower.as_str())
    }

    /// The backend for a lowercase name.
    pub fn for_name(name: &str) -> (backend: Option<Self>)
        ensures
            backend == tokenizer_for_name(name@),
    {
        if str_equal(name, "tiktoken") || str_equal(name, "tk") || str_equal(name, "openai") {
            Some(TokenizerType::Tiktoken)
        } else if str_equal(name, "huggingface") || str_equal(name, "hf") || str_equal(
            name,
            "llama",
        ) {
            Some(TokenizerType::HuggingFace)
        } else if str_equal(name, "gpt2") || str_equal(name, "gpt-2") || str_equal(name, "legacy") {
            Some(TokenizerType::Gpt2)
        } else {
            None
        }
    }
}

/// Encodings of the byte-pair backend.
#[derive(Debug, Clone, Copy, PartialEq, Eq, Structural)]
pub enum TiktokenEncoding {
    Cl100kBase,
    P50kBase,
    R50kBase,
}

impl Default for TiktokenEncoding {
    fn default() -> (encoding: Self)
        ensures
            encoding == TiktokenEncoding::Cl100kBase,
    {
        TiktokenEncoding::Cl100kBase
    }
}

/// The encoding that a lowercase name stands for.
pub open spec fn encoding_for_name(name: Seq<char>) -> Option<TiktokenEncoding> {
    if name == "cl100k_base"@ || name == "cl100k"@ || name == "gpt4"@ {
        Some(TiktokenEncoding::Cl100kBase)
    } else if name == "p50k_base"@ || name == "p50k"@ || name == "codex"@ {
        Some(TiktokenEncoding::P50kBase)
    } else if name == "r50k_base"@ || name == "r50k"@ || name == "gpt3"@ {
        Some(TiktokenEncoding::R50kBase)
    } else {
        None
    }
}

impl TiktokenEncoding {
    /// Parse the name of an encoding, whatever its case.
    pub fn from_str(s: &str) -> (encoding: Option<Self>)
        ensures
            encoding == encoding_for_name(lowercase(s@)),
    {
        let lower = to_lowercase(s);
        TiktokenEncoding::for_name(lower.as_str())
    }

    /// The encoding for a lowercase name.
    pub fn for_name(name: &str) -> (encoding: Option<Self>)
        ensures
            encoding == encoding_for_name(name@),
    {
        if str_equal(name, "cl100k_base") || str_equal(name, "cl100k") || str_equal(name, "gpt4") {
            Some(TiktokenEncoding::Cl100kBase)
        } else if str_equal(name, "p50k_base") || str_equal(name, "p50k") || str_equal(
            name,
            "codex",
        ) {
            Some(TiktokenEncoding::P50kBase)
        } else if str_equal(name, "r50k_base") || str_equal(name, "r50k") || str_equal(
            name,
            "gpt3",
        ) {
            Some(TiktokenEncoding::R50kBase)
        } else {
            None
        }
    }
}

// ─── Token spans ────────────────────────────────────────────────────────────

/// The number of background colors that tokens alternate between.
pub const TOKEN_COLOR_COUNT: usize = 4;

/// Where the token after the first `n` starts when tokens of the given
/// lengths are laid end to end; a token that would pass the end of the
/// text takes no room.
pub open spec fn span_start(lengths: Seq<usize>, text_len: int, n: nat) -> int
    decreases n,
{
    if n == 0 {
        0
    } else {
        let start = span_start(lengths, text_len, (n - 1) as nat);
        if start + lengths[n - 1] <= text_len {
            start + lengths[n - 1]
        } else {
            start
        }
    }
}

/// The spans of the first `n` tokens that fit in the text, in order.
pub open spec fn spans_upto(lengths: Seq<usize>, text_len: int, n: nat) -> Seq<(usize, usize)>
    decreases n,
{
    if n == 0 {
        Seq::empty()
    } else {
        let earlier = spans_upto(lengths, text_len, (n - 1) as nat);
        let start = span_start(lengths, text_len, (n - 1) as nat);
        if start + lengths[n - 1] <= text_len {
            earlier.push((start as usize, (start + lengths[n - 1]) as usize))
        } else {
            earlier
        }
    }
}

/// The byte spans of tokens from their lengths in bytes: the tokens are
/// laid end to end from the start of the text, and a token that would
/// pass the end of the text is left out.
pub fn token_offsets(lengths: &Vec<usize>, text_len: usize) -> (offsets: Vec<(usize, usize)>)
    ensures
        offsets@ == spans_upto(lengths@, text_len as int, lengths@.len()),
{
    let mut offsets: Vec<(usize, usize)> = Vec::new();
    let mut current: usize = 0;
    let mut i: usize = 0;
    while i < lengths.len()
        invariant
            i <= lengths@.len(),
            current <= text_len,
            current == span_start(lengths@, text_len as int, i as nat),
            offsets@ == spans_upto(lengths@, text_len as int, i as nat),
        decreases lengths@.len() - i,
    {
        let length: usize = lengths[i];
        if length <= text_len - current {
            offsets.push((current, current + length));
            current = current + length;
        }
        i = i + 1;
    }
    offsets
}

/// A stretch of text as it is shown: a token with the index of its
/// background color, or text between tokens without one.
#[derive(Debug, Clone, Copy, PartialEq, Eq, Structural)]
pub struct Segment {
    pub start: usize,
    pub end: usize,
    pub color: Option<usize>,
}

/// The end of the last of the first `n` spans; zero when there is none.
pub open spec fn last_end(offsets: Seq<(usize, usize)>, n: nat) -> int {
    if n == 0 {
        0
    } else {
        offsets[n - 1].1 as int
    }
}

/// The stretches for the first `n` spans: before each token the text since
/// the end of the token before it, if there is any, and then the token
/// with its color.
pub open spec fn segments_upto(offsets: Seq<(usize, usize)>, n: nat) -> Seq<Segment>
    decreases n,
{
    if n == 0 {
        Seq::empty()
    } else {
        let earlier = segments_upto(offsets, (n - 1) as nat);
        let before = last_end(offsets, (n - 1) as nat);
        let span = offsets[n - 1];
        let token = Segment {
            start: span.0,
            end: span.1,
            color: Some(((n - 1) % TOKEN_COLOR_COUNT as int) as usize),
        };
        if span.0 > before {
            earlier.push(Segment { start: before as usize, end: span.0, color: None }).push(token)
        } else {
            earlier.push(token)
        }
    }
}

/// The stretches of a text of `text_len` bytes with tokens at the given
/// spans: those of the spans, and the text after the last token.
pub open spec fn segments_of(offsets: Seq<(usize, usize)>, text_len: int) -> Seq<Segment> {
    let all = segments_upto(offsets, offsets.len());
    let end = last_end(offsets, offsets.len());
    if end < text_len {
        all.push(Segment { start: end as usize, end: text_len as usize, color: None })
    } else {
        all
    }
}

/// Cut a text into the stretches to show: tokens with alternating colors,
/// and the text between and after them.
pub fn token_segments(offsets: &Vec<(usize, usize)>, text_len: usize) -> (segments: Vec<Segment>)
    ensures
        segments@ == segments_of(offsets@, text_len as int),
{
    let mut segments: Vec<Segment> = Vec::new();
    let mut last: usize = 0;
    let mut i: usize = 0;
    while i < offsets.len()
        invariant
            i <= offsets@.len(),
            last == last_end(offsets@, i as nat),
            segments@ == segments_upto(offsets@, i as nat),
        decreases offsets@.len() - i,
    {
        let span: (usize, usize) = offsets[i];
        if span.0 > last {
            segments.push(Segment { start: last, end: span.0, color: None });
        }
        segments.push(Segment { start: span.0, end: span.1, color: Some(i % TOKEN_COLOR_COUNT) });
        last = span.1;
        i = i + 1;
    }
    if last < text_len {
        segments.push(Segment { start: last, end: text_len, color: None });
    }
    segments
}

} // verus!
