//! Model download catalogue: which files each engine needs and where they
//! come from, the size budgets, and the punctuation model's location.
//!
//! The transfers and the file system work happen outside the library.
use vstd::prelude::*;

use crate::asr::EngineKind;
use crate::text::{owned, push_str};

verus! {

pub const MIB: u64 = 1048576;

/// The pinned SHA-1 of the whisper.cpp large-v3-turbo Q5_0 weights.
pub const METAL_MODEL_SHA1: &'static str = "e050f7970618a659205450ad97eb95a18d69c9ee";

/// Download size estimate of each engine, in MB (the archive for Qwen3-ASR).
pub open spec fn download_size_spec(kind: EngineKind) -> int {
    match kind {
        EngineKind::ParaformerZh => 700,
        EngineKind::ZipformerEn => 400,
        EngineKind::WhisperBase => 280,
        EngineKind::WhisperSmall => 950,
        EngineKind::Qwen3Asr => 878,
        EngineKind::WhisperLargeV3TurboMetal => 547,
        EngineKind::AliyunCloud => 0,
    }
}

/// Expected download size in MB (for the UI); 0 for the cloud engine.
pub fn download_size_mb(kind: EngineKind) -> (n: u64)
    ensures
        n == download_size_spec(kind),
{
    match kind {
        EngineKind::ParaformerZh => 700,
        EngineKind::ZipformerEn => 400,
        EngineKind::WhisperBase => 280,
        EngineKind::WhisperSmall => 950,
        EngineKind::Qwen3Asr => 878,
        EngineKind::WhisperLargeV3TurboMetal => 547,
        EngineKind::AliyunCloud => 0,
    }
}

/// Approximate download size of the punctuation model in MB.
pub fn punct_download_size_mb() -> (n: u64)
    ensures
        n == 294,
{
    294
}

/// Peak free space a download needs: the download itself (twice for
/// Qwen3-ASR, which keeps the archive and the unpacked staging copy at once)
/// plus 256 MiB of headroom.
pub open spec fn required_free_spec(kind: EngineKind) -> int {
    let download = download_size_spec(kind) * MIB;
    let working = if kind == EngineKind::Qwen3Asr {
        download * 2
    } else {
        download
    };
    working + 256 * MIB
}

/// Bytes of free space a download of `kind` needs.
pub fn required_free_bytes(kind: EngineKind) -> (n: u64)
    ensures
        n == required_free_spec(kind),
{
    let download = download_size_mb(kind) * MIB;
    let working = if kind == EngineKind::Qwen3Asr {
        download * 2
    } else {
        download
    };
    working + 256 * MIB
}

/// Checks the free space before a download: `available` is what the file
/// system reports, `None` where it cannot be asked (the check is skipped).
/// A shortage comes back as (required, available) bytes.
pub fn check_download_space(kind: EngineKind, available: Option<u64>) -> (r: Result<(), (u64, u64)>)
    ensures
        match available {
            Some(a) => if a < required_free_spec(kind) {
                r == Err::<(), (u64, u64)>((required_free_spec(kind) as u64, a))
            } else {
                r is Ok
            },
            None => r is Ok,
        },
{
    let required = required_free_bytes(kind);
    match available {
        Some(a) => {
            if a < required {
                Err((required, a))
            } else {
                Ok(())
            }
        },
        None => Ok(()),
    }
}

/// Free space the punctuation model's download needs (archive and
/// unpacked model at once), in bytes.
pub const PUNCT_REQUIRED_FREE: u64 = 900 * MIB;

/// Smallest size a downloaded punctuation model may have; anything smaller
/// is a broken download.
pub const PUNCT_MIN_MODEL_BYTES: u64 = 200 * MIB;

/// The punctuation model's archive (GitHub release) and the single-file
/// fallback (Hugging Face).
pub const PUNCT_ARCHIVE_NAME: &'static str = "sherpa-onnx-punct-ct-transformer-zh-en-vocab272727-2024-04-12.tar.bz2";
pub const PUNCT_ARCHIVE_URL: &'static str = "https://github.com/k2-fsa/sherpa-onnx/releases/download/punctuation-models/sherpa-onnx-punct-ct-transformer-zh-en-vocab272727-2024-04-12.tar.bz2";
pub const PUNCT_FALLBACK_URL: &'static str = "https://huggingface.co/csukuangfj/sherpa-onnx-punct-ct-transformer-zh-en-vocab272727-2024-04-12/resolve/main/model.onnx";

/// Checks the free space before the punctuation model's download (900 MiB);
/// `None` where the file system cannot be asked (the check is skipped). A
/// shortage comes back as (required, available) bytes.
pub fn check_punct_space(available: Option<u64>) -> (r: Result<(), (u64, u64)>)
    ensures
        match available {
            Some(a) => if a < PUNCT_REQUIRED_FREE {
                r == Err::<(), (u64, u64)>((PUNCT_REQUIRED_FREE, a))
            } else {
                r is Ok
            },
            None => r is Ok,
        },
{
    match available {
        Some(a) => {
            if a < PUNCT_REQUIRED_FREE {
                Err((PUNCT_REQUIRED_FREE, a))
            } else {
                Ok(())
            }
        },
        None => Ok(()),
    }
}

/// Whether a downloaded punctuation model of `size` bytes is whole: at least
/// 200 MiB (the model is about 281 MiB).
pub fn punct_model_size_ok(size: u64) -> (b: bool)
    ensures
        b == (size >= PUNCT_MIN_MODEL_BYTES),
{
    size >= PUNCT_MIN_MODEL_BYTES
}

/// Hugging Face repository of the engines whose files come from one.
pub open spec fn hf_repo_spec(kind: EngineKind) -> Seq<char> {
    match kind {
        EngineKind::ParaformerZh => "csukuangfj/sherpa-onnx-streaming-paraformer-zh"@,
        EngineKind::ZipformerEn => "csukuangfj/sherpa-onnx-streaming-zipformer-en-2023-06-26"@,
        EngineKind::WhisperBase => "csukuangfj/sherpa-onnx-whisper-base"@,
        EngineKind::WhisperSmall => "csukuangfj/sherpa-onnx-whisper-small"@,
        _ => ""@,
    }
}

pub fn hf_repo(kind: EngineKind) -> (r: &'static str)
    ensures
        r@ == hf_repo_spec(kind),
{
    match kind {
        EngineKind::ParaformerZh => "csukuangfj/sherpa-onnx-streaming-paraformer-zh",
        EngineKind::ZipformerEn => "csukuangfj/sherpa-onnx-streaming-zipformer-en-2023-06-26",
        EngineKind::WhisperBase => "csukuangfj/sherpa-onnx-whisper-base",
        EngineKind::WhisperSmall => "csukuangfj/sherpa-onnx-whisper-small",
        EngineKind::Qwen3Asr => "",
        EngineKind::WhisperLargeV3TurboMetal => "",
        EngineKind::AliyunCloud => "",
    }
}

/// The five files of a sherpa Whisper model, without the size stem.
pub open spec fn whisper_suffixes() -> Seq<Seq<char>> {
    seq!["encoder.onnx"@, "decoder.onnx"@, "encoder.int8.onnx"@, "decoder.int8.onnx"@, "tokens.txt"@]
}

/// Download sources of an engine: (file name, explicit URL); an empty URL
/// means the file comes from the engine's Hugging Face repository. Qwen3-ASR
/// has one empty entry (it is fetched as a release archive).
pub open spec fn sources_spec(kind: EngineKind) -> Seq<(Seq<char>, Seq<char>)> {
    match kind {
        EngineKind::ParaformerZh => seq![
            ("encoder.onnx"@, ""@),
            ("decoder.onnx"@, ""@),
            ("encoder.int8.onnx"@, ""@),
            ("decoder.int8.onnx"@, ""@),
            ("tokens.txt"@, ""@),
        ],
        EngineKind::ZipformerEn => seq![
            ("encoder-epoch-99-avg-1-chunk-16-left-64.int8.onnx"@, ""@),
            ("decoder-epoch-99-avg-1-chunk-16-left-64.int8.onnx"@, ""@),
            ("joiner-epoch-99-avg-1-chunk-16-left-64.int8.onnx"@, ""@),
            ("bpe.model"@, ""@),
            ("tokens.txt"@, ""@),
        ],
        EngineKind::WhisperBase => whisper_suffixes().map_values(|s: Seq<char>| ("base-"@ + s, ""@)),
        EngineKind::WhisperSmall => whisper_suffixes().map_values(|s: Seq<char>| ("small-"@ + s, ""@)),
        EngineKind::Qwen3Asr => seq![(""@, ""@)],
        EngineKind::WhisperLargeV3TurboMetal => seq![
            (
                "ggml-large-v3-turbo-q5_0.bin"@,
                "https://huggingface.co/ggerganov/whisper.cpp/resolve/main/ggml-large-v3-turbo-q5_0.bin"@,
            ),
        ],
        EngineKind::AliyunCloud => Seq::empty(),
    }
}

pub open spec fn sources_view(v: Seq<(String, String)>) -> Seq<(Seq<char>, Seq<char>)> {
    v.map_values(|e: (String, String)| (e.0@, e.1@))
}

fn pair(a: &str, b: &str) -> (p: (String, String))
    ensures
        p.0@ == a@,
        p.1@ == b@,
{
    (owned(a), owned(b))
}

fn whisper_sources(stem: &str) -> (v: Vec<(String, String)>)
    ensures
        sources_view(v@) == whisper_suffixes().map_values(|s: Seq<char>| (stem@ + "-"@ + s, ""@)),
{
    let suffixes: [&str; 5] = ["encoder.onnx", "decoder.onnx", "encoder.int8.onnx", "decoder.int8.onnx", "tokens.txt"];
    let mut v: Vec<(String, String)> = Vec::new();
    let mut i: usize = 0;
    while i < 5
        invariant
            i <= 5,
            forall|k: int| 0 <= k < 5 ==> #[trigger] suffixes@[k]@ == whisper_suffixes()[k],
            sources_view(v@) == whisper_suffixes().subrange(0, i as int).map_values(
                |s: Seq<char>| (stem@ + "-"@ + s, ""@),
            ),
        decreases 5 - i,
    {
        let mut name = owned(stem);
        push_str(&mut name, "-");
        push_str(&mut name, suffixes[i]);
        let ghost before = v@;
        v.push((name, owned("")));
        proof {
            let f = |s: Seq<char>| (stem@ + "-"@ + s, ""@);
            let w = whisper_suffixes();
            assert(w.subrange(0, i + 1) =~= w.subrange(0, i as int).push(w[i as int]));
            assert(suffixes@[i as int]@ == w[i as int]);
            assert(sources_view(v@) =~= sources_view(before).push((stem@ + "-"@ + w[i as int], ""@)));
            assert(w.subrange(0, i + 1).map_values(f) =~= w.subrange(0, i as int).map_values(f).push(
                f(w[i as int]),
            ));
        }
        i += 1;
    }
    assert(whisper_suffixes().subrange(0, 5) =~= whisper_suffixes());
    v
}

/// The download sources of an engine (see [`sources_spec`]).
pub fn sources(kind: EngineKind) -> (v: Vec<(String, String)>)
    ensures
        sources_view(v@) == sources_spec(kind),
{
    match kind {
        EngineKind::ParaformerZh => {
            let v = vec![
                pair("encoder.onnx", ""),
                pair("decoder.onnx", ""),
                pair("encoder.int8.onnx", ""),
                pair("decoder.int8.onnx", ""),
                pair("tokens.txt", ""),
            ];
            assert(sources_view(v@) =~= sources_spec(kind));
            v
        },
        EngineKind::ZipformerEn => {
            let v = vec![
                pair("encoder-epoch-99-avg-1-chunk-16-left-64.int8.onnx", ""),
                pair("decoder-epoch-99-avg-1-chunk-16-left-64.int8.onnx", ""),
                pair("joiner-epoch-99-avg-1-chunk-16-left-64.int8.onnx", ""),
                pair("bpe.model", ""),
                pair("tokens.txt", ""),
            ];
            assert(sources_view(v@) =~= sources_spec(kind));
            v
        },
        EngineKind::WhisperBase => {
            let v = whisper_sources("base");
            proof {
                reveal_strlit("base");
                reveal_strlit("base-");
                reveal_strlit("-");
                assert("base"@ + "-"@ =~= "base-"@);
                assert(sources_view(v@) =~= sources_spec(kind));
            }
            v
        },
        EngineKind::WhisperSmall => {
            let v = whisper_sources("small");
            proof {
                reveal_strlit("small");
                reveal_strlit("small-");
                reveal_strlit("-");
                assert("small"@ + "-"@ =~= "small-"@);
                assert(sources_view(v@) =~= sources_spec(kind));
            }
            v
        },
        EngineKind::Qwen3Asr => {
            let v = vec![pair("", "")];
            assert(sources_view(v@) =~= sources_spec(kind));
            v
        },
        EngineKind::WhisperLargeV3TurboMetal => {
            let v = vec![
                pair(
                    "ggml-large-v3-turbo-q5_0.bin",
                    "https://huggingface.co/ggerganov/whisper.cpp/resolve/main/ggml-large-v3-turbo-q5_0.bin",
                ),
            ];
            assert(sources_view(v@) =~= sources_spec(kind));
            v
        },
        EngineKind::AliyunCloud => {
            let v: Vec<(String, String)> = Vec::new();
            assert(sources_view(v@) =~= sources_spec(kind));
            v
        },
    }
}

/// Where a file is fetched from: its explicit URL, or the repository's
/// `resolve/main` address.
pub open spec fn file_url_spec(repo: Seq<char>, file: Seq<char>, explicit: Seq<char>) -> Seq<char> {
    if explicit.len() == 0 {
        "https://huggingface.co/"@ + repo + "/resolve/main/"@ + file
    } else {
        explicit
    }
}

pub fn file_url(repo: &str, file: &str, explicit: &str) -> (r: String)
    ensures
        r@ == file_url_spec(repo@, file@, explicit@),
{
    if explicit.is_empty() {
        let mut u = owned("https://huggingface.co/");
        push_str(&mut u, repo);
        push_str(&mut u, "/resolve/main/");
        push_str(&mut u, file);
        u
    } else {
        owned(explicit)
    }
}

/// The files an engine download fetches, as (file name, URL): each source
/// with a name, in order, with its URL resolved.
pub open spec fn plan_of(kind: EngineKind, s: Seq<(Seq<char>, Seq<char>)>) -> Seq<(Seq<char>, Seq<char>)>
    decreases s.len(),
{
    if s.len() == 0 {
        Seq::empty()
    } else {
        let rest = plan_of(kind, s.drop_last());
        let e = s.last();
        if e.0.len() > 0 {
            rest.push((e.0, file_url_spec(hf_repo_spec(kind), e.0, e.1)))
        } else {
            rest
        }
    }
}

pub open spec fn download_plan_spec(kind: EngineKind) -> Seq<(Seq<char>, Seq<char>)> {
    plan_of(kind, sources_spec(kind))
}

/// The (file name, URL) pairs to fetch for an engine.
pub fn download_plan(kind: EngineKind) -> (v: Vec<(String, String)>)
    ensures
        sources_view(v@) == download_plan_spec(kind),
{
    let src = sources(kind);
    let repo = hf_repo(kind);
    let ghost s = sources_spec(kind);
    let mut v: Vec<(String, String)> = Vec::new();
    let mut i: usize = 0;
    while i < src.len()
        invariant
            i <= src.len(),
            sources_view(src@) == s,
            repo@ == hf_repo_spec(kind),
            sources_view(v@) == plan_of(kind, s.subrange(0, i as int)),
        decreases src.len() - i,
    {
        let ghost e = s[i as int];
        proof {
            assert(s.subrange(0, i + 1).drop_last() =~= s.subrange(0, i as int));
            assert(sources_view(src@)[i as int] == e);
        }
        let ghost before = v@;
        if !src[i].0.as_str().is_empty() {
            let url = file_url(repo, src[i].0.as_str(), src[i].1.as_str());
            v.push((owned(src[i].0.as_str()), url));
            assert(sources_view(v@) =~= sources_view(before).push(
                (e.0, file_url_spec(hf_repo_spec(kind), e.0, e.1)),
            ));
        }
        i += 1;
    }
    assert(s.subrange(0, src.len() as int) =~= s);
    v
}

/// A resumed transfer is one the server answered with 206 Partial Content
/// to a request that had bytes already; its total is the bytes on disk plus
/// the announced length (saturating). Returns (resumed, total).
pub open spec fn transfer_total_spec(status: u16, existing: u64, content_len: u64) -> (bool, int) {
    let resumed = status == 206 && existing > 0;
    (resumed, if resumed {
        if existing + content_len > u64::MAX {
            u64::MAX as int
        } else {
            existing + content_len
        }
    } else {
        content_len as int
    })
}

pub fn transfer_total(status: u16, existing: u64, content_len: u64) -> (r: (bool, u64))
    ensures
        (r.0, r.1 as int) == transfer_total_spec(status, existing, content_len),
{
    let resumed = status == 206 && existing > 0;
    let total = if resumed {
        existing.saturating_add(content_len)
    } else {
        content_len
    };
    (resumed, total)
}

/// The whisper.cpp weights file an engine loads (every whisper.cpp engine
/// of the catalogue uses the large-v3-turbo Q5_0 weights).
pub fn model_file(kind: EngineKind) -> (r: &'static str)
    ensures
        r@ == "ggml-large-v3-turbo-q5_0.bin"@,
{
    "ggml-large-v3-turbo-q5_0.bin"
}

/// Smallest size a complete whisper.cpp weights file can have (500 MiB).
pub fn min_model_bytes(kind: EngineKind) -> (n: u64)
    ensures
        n == 500 * MIB,
{
    500 * MIB
}

} // verus!
