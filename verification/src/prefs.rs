//! Machine-level preferences: model choices, API keys, hardware.
//!
//! Deliberately *not* part of a project bundle. A `.chaptr` file is meant to
//! be handed to someone else, and an API key must never travel with it.
use vstd::prelude::*;

use crate::text::{contains_str, ends_with, has_sub, owned, sort_strings, sorted_text, views};

verus! {

#[derive(Debug, Clone, Copy, PartialEq, Eq, Structural)]
pub enum Engine {
    Local,
    Cloud,
}

#[derive(Debug, Clone, Copy, PartialEq, Eq, Structural)]
pub enum Provider {
    Anthropic,
    Openai,
    Google,
    /// Anything speaking the OpenAI chat format: OpenRouter, Groq, a local
    /// server.
    Compatible,
}

#[derive(Debug)]
pub struct Prefs {
    pub whisper_model: String,
    pub language: String,
    /// 0-1. Higher skips more quiet audio; too high and mumbled lines vanish.
    /// Held as the bit pattern of its `f64` value, which nothing here reads.
    pub vad_threshold_bits: u64,
    pub engine: Engine,
    pub local_model: String,
    pub cloud_provider: Provider,
    /// The cloud model to ask; none is preset, the user names one.
    pub cloud_model: String,
    pub cloud_base_url: String,
    pub anthropic_key: String,
    pub openai_key: String,
    pub google_key: String,
    /// Requests in flight against a cloud API. Local runs stay at 1.
    pub parallel: usize,
}

/// The bit pattern of the `f64` 0.5, the default voice-activity threshold.
pub const HALF_BITS: u64 = 0x3FE0_0000_0000_0000;

impl Default for Prefs {
    fn default() -> (p: Self)
        ensures
            p.whisper_model@ == "ggml-large-v3-turbo-q5_0.bin"@,
            p.language@ == "en"@,
            p.vad_threshold_bits == HALF_BITS,
            p.engine == Engine::Local,
            p.local_model@ == "Qwen3-14B-Q4_K_M.gguf"@,
            p.cloud_provider == Provider::Anthropic,
            p.cloud_model@.len() == 0,
            p.cloud_base_url@.len() == 0,
            p.anthropic_key@.len() == 0,
            p.openai_key@.len() == 0,
            p.google_key@.len() == 0,
            p.parallel == 4,
    {
        Prefs {
            whisper_model: owned("ggml-large-v3-turbo-q5_0.bin"),
            language: owned("en"),
            vad_threshold_bits: HALF_BITS,
            engine: Engine::Local,
            local_model: owned("Qwen3-14B-Q4_K_M.gguf"),
            cloud_provider: Provider::Anthropic,
            cloud_model: String::new(),
            cloud_base_url: String::new(),
            anthropic_key: String::new(),
            openai_key: String::new(),
            google_key: String::new(),
            parallel: 4,
        }
    }
}

/// The API key for the chosen cloud provider. OpenAI-compatible servers use
/// the OpenAI key.
pub open spec fn provider_key(p: Prefs) -> Seq<char> {
    match p.cloud_provider {
        Provider::Anthropic => p.anthropic_key@,
        Provider::Openai | Provider::Compatible => p.openai_key@,
        Provider::Google => p.google_key@,
    }
}

impl Prefs {
    pub fn key(&self) -> (k: &str)
        ensures
            k@ == provider_key(*self),
    {
        match self.cloud_provider {
            Provider::Anthropic => self.anthropic_key.as_str(),
            Provider::Openai | Provider::Compatible => self.openai_key.as_str(),
            Provider::Google => self.google_key.as_str(),
        }
    }
}

/// Model files sitting next to the app, so the user picks from a list
/// rather than typing a path.
#[derive(Debug)]
pub struct Models {
    pub speech: Vec<String>,
    pub language: Vec<String>,
}


/// A language model file.
pub open spec fn is_language_model(name: Seq<char>) -> bool {
    ".gguf"@.is_suffix_of(name)
}

/// A speech model file: `.bin`, but not the voice-detection model.
pub open spec fn is_speech_model(name: Seq<char>) -> bool {
    !is_language_model(name) && ".bin"@.is_suffix_of(name) && !has_sub(name, "silero"@)
}

/// Sorts the file names of a model folder into speech and language models.
pub fn available(names: &Vec<String>) -> (m: Models)
    ensures
        sorted_text(views(m.speech@)),
        sorted_text(views(m.language@)),
        views(m.speech@).to_multiset() == views(names@).filter(|n: Seq<char>| is_speech_model(n)).to_multiset(),
        views(m.language@).to_multiset() == views(names@).filter(|n: Seq<char>| is_language_model(n)).to_multiset(),
{
    let ghost fs = |n: Seq<char>| is_speech_model(n);
    let ghost fl = |n: Seq<char>| is_language_model(n);
    let mut speech: Vec<String> = Vec::new();
    let mut language: Vec<String> = Vec::new();
    let mut i: usize = 0;
    while i < names.len()
        invariant
            i <= names@.len(),
            fs == (|n: Seq<char>| is_speech_model(n)),
            fl == (|n: Seq<char>| is_language_model(n)),
            views(speech@) == views(names@).take(i as int).filter(fs),
            views(language@) == views(names@).take(i as int).filter(fl),
        decreases names@.len() - i,
    {
        let name = &names[i];
        proof {
            assert(views(names@).take(i + 1) == views(names@).take(i as int).push(name@));
            views(names@).take(i as int).lemma_filter_push(name@, fs);
            views(names@).take(i as int).lemma_filter_push(name@, fl);
        }
        if ends_with(name.as_str(), ".gguf") {
            let ghost before = language@;
            language.push(name.clone());
            assert(views(language@) == views(before).push(name@));
        } else if ends_with(name.as_str(), ".bin") && !contains_str(name.as_str(), "silero") {
            let ghost before = speech@;
            speech.push(name.clone());
            assert(views(speech@) == views(before).push(name@));
        }
        i = i + 1;
    }
    assert(views(names@).take(names@.len() as int) == views(names@));
    Models { speech: sort_strings(speech), language: sort_strings(language) }
}

} // verus!
