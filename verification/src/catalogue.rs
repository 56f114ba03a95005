//! The models the app offers to download. A deliberately short, curated list:
//! nobody should have to know what a quantisation is.
use vstd::prelude::*;

use crate::text::{chars_of, parse_u64, same_text, spec_parse_u64, string_of, trim, trimmed};

verus! {

#[derive(Debug, Clone, Copy, PartialEq, Eq, Structural)]
pub enum Kind {
    Speech,
    Language,
    Support,
}

#[derive(Debug, Clone, Copy)]
pub struct Entry {
    pub id: &'static str,
    pub file: &'static str,
    pub kind: Kind,
    pub name: &'static str,
    pub note: &'static str,
    /// Approximate; the real size comes from the server when downloading.
    pub bytes: u64,
    /// Minimum sensible VRAM in GB. 0 runs on a CPU.
    pub vram: u32,
    pub url: &'static str,
    pub required: bool,
}

/// The catalogue, in the order the app lists it.
pub open spec fn catalogue() -> Seq<Entry> {
    seq![
        Entry {
            id: "vad",
            file: "ggml-silero-v5.1.2.bin",
            kind: Kind::Support,
            name: "Voice detection",
            note: "Finds where people are actually speaking. Without it transcripts fill with repeated nonsense during silence.",
            bytes: 885_098,
            vram: 0,
            url: "https://huggingface.co/ggml-org/whisper-vad/resolve/main/ggml-silero-v5.1.2.bin",
            required: true,
        },
        Entry {
            id: "whisper-turbo",
            file: "ggml-large-v3-turbo-q5_0.bin",
            kind: Kind::Speech,
            name: "Transcription — recommended",
            note: "Accurate and fast: about 130x realtime on a modern graphics card, so a hundred hours takes under an hour.",
            bytes: 574_041_195,
            vram: 2,
            url: "https://huggingface.co/ggerganov/whisper.cpp/resolve/main/ggml-large-v3-turbo-q5_0.bin",
            required: true,
        },
        Entry {
            id: "whisper-small",
            file: "ggml-small.en.bin",
            kind: Kind::Speech,
            name: "Transcription — small",
            note: "English only and rougher, but runs on a laptop with no graphics card.",
            bytes: 487_614_201,
            vram: 0,
            url: "https://huggingface.co/ggerganov/whisper.cpp/resolve/main/ggml-small.en.bin",
            required: false,
        },
        Entry {
            id: "qwen4b",
            file: "Qwen3-4B-Q4_K_M.gguf",
            kind: Kind::Language,
            name: "Chaptrs — light",
            note: "For 8 GB graphics cards. Shorter, vaguer chaptrs and names people less often.",
            bytes: 2_497_281_312,
            vram: 6,
            url: "https://huggingface.co/unsloth/Qwen3-4B-GGUF/resolve/main/Qwen3-4B-Q4_K_M.gguf",
            required: false,
        },
        Entry {
            id: "qwen8b",
            file: "Qwen3-8B-Q4_K_M.gguf",
            kind: Kind::Language,
            name: "Chaptrs — balanced",
            note: "For 12 GB cards. Good, but drops players' names more often than the larger one.",
            bytes: 5_027_784_512,
            vram: 10,
            url: "https://huggingface.co/unsloth/Qwen3-8B-GGUF/resolve/main/Qwen3-8B-Q4_K_M.gguf",
            required: false,
        },
        Entry {
            id: "qwen14b",
            file: "Qwen3-14B-Q4_K_M.gguf",
            kind: Kind::Language,
            name: "Chaptrs — recommended",
            note: "For 16 GB cards and up. Holds on to players' names, which is most of what makes a chaptr worth reading.",
            bytes: 9_001_753_984,
            vram: 14,
            url: "https://huggingface.co/unsloth/Qwen3-14B-GGUF/resolve/main/Qwen3-14B-Q4_K_M.gguf",
            required: true,
        },
    ]
}

/// Every entry of the catalogue.
pub fn entries() -> (r: Vec<Entry>)
    ensures
        r@ == catalogue(),
{
    vec![
        Entry {
            id: "vad",
            file: "ggml-silero-v5.1.2.bin",
            kind: Kind::Support,
            name: "Voice detection",
            note: "Finds where people are actually speaking. Without it transcripts fill with repeated nonsense during silence.",
            bytes: 885_098,
            vram: 0,
            url: "https://huggingface.co/ggml-org/whisper-vad/resolve/main/ggml-silero-v5.1.2.bin",
            required: true,
        },
        Entry {
            id: "whisper-turbo",
            file: "ggml-large-v3-turbo-q5_0.bin",
            kind: Kind::Speech,
            name: "Transcription — recommended",
            note: "Accurate and fast: about 130x realtime on a modern graphics card, so a hundred hours takes under an hour.",
            bytes: 574_041_195,
            vram: 2,
            url: "https://huggingface.co/ggerganov/whisper.cpp/resolve/main/ggml-large-v3-turbo-q5_0.bin",
            required: true,
        },
        Entry {
            id: "whisper-small",
            file: "ggml-small.en.bin",
            kind: Kind::Speech,
            name: "Transcription — small",
            note: "English only and rougher, but runs on a laptop with no graphics card.",
            bytes: 487_614_201,
            vram: 0,
            url: "https://huggingface.co/ggerganov/whisper.cpp/resolve/main/ggml-small.en.bin",
            required: false,
        },
        Entry {
            id: "qwen4b",
            file: "Qwen3-4B-Q4_K_M.gguf",
            kind: Kind::Language,
            name: "Chaptrs — light",
            note: "For 8 GB graphics cards. Shorter, vaguer chaptrs and names people less often.",
            bytes: 2_497_281_312,
            vram: 6,
            url: "https://huggingface.co/unsloth/Qwen3-4B-GGUF/resolve/main/Qwen3-4B-Q4_K_M.gguf",
            required: false,
        },
        Entry {
            id: "qwen8b",
            file: "Qwen3-8B-Q4_K_M.gguf",
            kind: Kind::Language,
            name: "Chaptrs — balanced",
            note: "For 12 GB cards. Good, but drops players' names more often than the larger one.",
            bytes: 5_027_784_512,
            vram: 10,
            url: "https://huggingface.co/unsloth/Qwen3-8B-GGUF/resolve/main/Qwen3-8B-Q4_K_M.gguf",
            required: false,
        },
        Entry {
            id: "qwen14b",
            file: "Qwen3-14B-Q4_K_M.gguf",
            kind: Kind::Language,
            name: "Chaptrs — recommended",
            note: "For 16 GB cards and up. Holds on to players' names, which is most of what makes a chaptr worth reading.",
            bytes: 9_001_753_984,
            vram: 14,
            url: "https://huggingface.co/unsloth/Qwen3-14B-GGUF/resolve/main/Qwen3-14B-Q4_K_M.gguf",
            required: true,
        },
    ]
}

pub open spec fn is_first_with_id(c: Seq<Entry>, id: Seq<char>, i: int) -> bool {
    0 <= i < c.len() && c[i].id@ == id && forall|j: int| 0 <= j < i ==> c[j].id@ != id
}

/// The catalogue entry with this id.
pub fn find(id: &str) -> (r: Option<Entry>)
    ensures
        r is None <==> forall|i: int| 0 <= i < catalogue().len() ==> catalogue()[i].id@ != id@,
        r matches Some(e) ==> exists|i: int| is_first_with_id(catalogue(), id@, i) && catalogue()[i] == e,
{
    let all = entries();
    let mut i: usize = 0;
    while i < all.len()
        invariant
            all@ == catalogue(),
            i <= all@.len(),
            forall|j: int| 0 <= j < i ==> all@[j].id@ != id@,
        decreases all@.len() - i,
    {
        if same_text(all[i].id, id) {
            assert(is_first_with_id(catalogue(), id@, i as int));
            return Some(all[i]);
        }
        i = i + 1;
    }
    None
}

/// A catalogue entry with what the model folder holds of it.
#[derive(Debug, Clone, Copy)]
pub struct CatalogueEntry {
    pub entry: Entry,
    pub installed: bool,
    pub on_disk: u64,
}

/// An entry is installed when its file exists with something in it.
pub fn catalogue_entry(entry: Entry, on_disk: u64) -> (c: CatalogueEntry)
    ensures
        c.entry == entry,
        c.on_disk == on_disk,
        c.installed == (on_disk > 0),
{
    CatalogueEntry { entry, installed: on_disk > 0, on_disk }
}

/// `text` up to its first line break.
pub open spec fn first_line(text: Seq<char>) -> Seq<char>
    decreases text.len(),
{
    if text.len() == 0 || text[0] == '\n' {
        seq![]
    } else {
        seq![text[0]] + first_line(text.drop_first())
    }
}

/// The GPU memory, in whole gigabytes, from `nvidia-smi`'s report of it in
/// megabytes: the first line, as a number that fits 32 bits.
pub open spec fn spec_vram_gb(report: Seq<char>) -> Option<u32> {
    match spec_parse_u64(trimmed(first_line(report))) {
        Some(mb) => if mb <= u32::MAX {
            Some((mb / 1024) as u32)
        } else {
            None
        },
        None => None,
    }
}

fn line_one(text: &str) -> (r: String)
    ensures
        r@ == first_line(text@),
{
    let v = chars_of(text);
    let mut e: usize = 0;
    while e < v.len() && v[e] != '\n'
        invariant
            v@ == text@,
            e <= v@.len(),
            forall|k: int| 0 <= k < e ==> v@[k] != '\n',
        decreases v@.len() - e,
    {
        e = e + 1;
    }
    proof {
        lemma_first_line(text@, e as int);
    }
    string_of(&v, 0, e)
}

proof fn lemma_first_line(s: Seq<char>, e: int)
    requires
        0 <= e <= s.len(),
        forall|k: int| 0 <= k < e ==> s[k] != '\n',
        e == s.len() || s[e] == '\n',
    ensures
        first_line(s) == s.subrange(0, e),
    decreases e,
{
    if e > 0 {
        let t = s.drop_first();
        assert forall|k: int| 0 <= k < e - 1 implies t[k] != '\n' by {
            assert(t[k] == s[k + 1]);
        }
        if e < s.len() {
            assert(t[e - 1] == s[e]);
        }
        lemma_first_line(t, e - 1);
        assert(seq![s[0]] + t.subrange(0, e - 1) == s.subrange(0, e));
    } else {
        assert(s.subrange(0, 0) == Seq::<char>::empty());
    }
}

/// Reads the GPU memory from `nvidia-smi --query-gpu=memory.total
/// --format=csv,noheader,nounits`.
pub fn vram_gb(report: &str) -> (r: Option<u32>)
    ensures
        r == spec_vram_gb(report@),
{
    let line = line_one(report);
    let t = trim(line.as_str());
    match parse_u64(t.as_str()) {
        Some(mb) => if mb <= 0xFFFF_FFFF {
            Some((mb / 1024) as u32)
        } else {
            None
        },
        None => None,
    }
}

} // verus!
