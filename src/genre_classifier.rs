use vstd::prelude::*;

use crate::ranking::{is_ranking, ranks_before, rank_ascending, total_order_key, total_order_key_exec};

verus! {

/// How many genre labels the classifier scores.
pub const GENRE_COUNT: usize = 87;

/// Frames per patch of the log-mel spectrogram.
pub const PATCH_FRAMES: usize = 128;

/// Distance between the first frames of neighbouring patches.
pub const PATCH_STRIDE: usize = 64;

/// Samples per analysis window.
pub const N_FFT: usize = 1024;

/// Samples between neighbouring windows.
pub const HOP_LENGTH: usize = 512;

/// The genre label at position `i` of the classifier's output, for `i < 87`.
pub open spec fn genre_label_spec(i: usize) -> Seq<char> {
    match i {
        0 => "60s"@,
        1 => "70s"@,
        2 => "80s"@,
        3 => "90s"@,
        4 => "acidjazz"@,
        5 => "alternative"@,
        6 => "alternativerock"@,
        7 => "ambient"@,
        8 => "atmospheric"@,
        9 => "blues"@,
        10 => "bluesrock"@,
        11 => "bossanova"@,
        12 => "breakbeat"@,
        13 => "celtic"@,
        14 => "chanson"@,
        15 => "chillout"@,
        16 => "choir"@,
        17 => "classical"@,
        18 => "classicrock"@,
        19 => "club"@,
        20 => "contemporary"@,
        21 => "country"@,
        22 => "dance"@,
        23 => "darkambient"@,
        24 => "darkwave"@,
        25 => "deephouse"@,
        26 => "disco"@,
        27 => "downtempo"@,
        28 => "drumnbass"@,
        29 => "dub"@,
        30 => "dubstep"@,
        31 => "easylistening"@,
        32 => "edm"@,
        33 => "electronic"@,
        34 => "electronica"@,
        35 => "electropop"@,
        36 => "ethno"@,
        37 => "eurodance"@,
        38 => "experimental"@,
        39 => "folk"@,
        40 => "funk"@,
        41 => "fusion"@,
        42 => "groove"@,
        43 => "grunge"@,
        44 => "hard"@,
        45 => "hardrock"@,
        46 => "hiphop"@,
        47 => "house"@,
        48 => "idm"@,
        49 => "improvisation"@,
        50 => "indie"@,
        51 => "industrial"@,
        52 => "instrumentalpop"@,
        53 => "instrumentalrock"@,
        54 => "jazz"@,
        55 => "jazzfusion"@,
        56 => "latin"@,
        57 => "lounge"@,
        58 => "medieval"@,
        59 => "metal"@,
        60 => "minimal"@,
        61 => "newage"@,
        62 => "newwave"@,
        63 => "orchestral"@,
        64 => "pop"@,
        65 => "popfolk"@,
        66 => "poprock"@,
        67 => "postrock"@,
        68 => "progressive"@,
        69 => "psychedelic"@,
        70 => "punkrock"@,
        71 => "rap"@,
        72 => "reggae"@,
        73 => "rnb"@,
        74 => "rock"@,
        75 => "rocknroll"@,
        76 => "singersongwriter"@,
        77 => "soul"@,
        78 => "soundtrack"@,
        79 => "swing"@,
        80 => "symphonic"@,
        81 => "synthpop"@,
        82 => "techno"@,
        83 => "trance"@,
        84 => "triphop"@,
        85 => "world"@,
        _ => "worldfusion"@,
    }
}

/// The genre label at position `i` of the classifier's output.
pub fn genre_label(i: usize) -> (r: &'static str)
    requires
        i < GENRE_COUNT,
    ensures
        r@ == genre_label_spec(i),
{
    match i {
        0 => "60s",
        1 => "70s",
        2 => "80s",
        3 => "90s",
        4 => "acidjazz",
        5 => "alternative",
        6 => "alternativerock",
        7 => "ambient",
        8 => "atmospheric",
        9 => "blues",
        10 => "bluesrock",
        11 => "bossanova",
        12 => "breakbeat",
        13 => "celtic",
        14 => "chanson",
        15 => "chillout",
        16 => "choir",
        17 => "classical",
        18 => "classicrock",
        19 => "club",
        20 => "contemporary",
        21 => "country",
        22 => "dance",
        23 => "darkambient",
        24 => "darkwave",
        25 => "deephouse",
        26 => "disco",
        27 => "downtempo",
        28 => "drumnbass",
        29 => "dub",
        30 => "dubstep",
        31 => "easylistening",
        32 => "edm",
        33 => "electronic",
        34 => "electronica",
        35 => "electropop",
        36 => "ethno",
        37 => "eurodance",
        38 => "experimental",
        39 => "folk",
        40 => "funk",
        41 => "fusion",
        42 => "groove",
        43 => "grunge",
        44 => "hard",
        45 => "hardrock",
        46 => "hiphop",
        47 => "house",
        48 => "idm",
        49 => "improvisation",
        50 => "indie",
        51 => "industrial",
        52 => "instrumentalpop",
        53 => "instrumentalrock",
        54 => "jazz",
        55 => "jazzfusion",
        56 => "latin",
        57 => "lounge",
        58 => "medieval",
        59 => "metal",
        60 => "minimal",
        61 => "newage",
        62 => "newwave",
        63 => "orchestral",
        64 => "pop",
        65 => "popfolk",
        66 => "poprock",
        67 => "postrock",
        68 => "progressive",
        69 => "psychedelic",
        70 => "punkrock",
        71 => "rap",
        72 => "reggae",
        73 => "rnb",
        74 => "rock",
        75 => "rocknroll",
        76 => "singersongwriter",
        77 => "soul",
        78 => "soundtrack",
        79 => "swing",
        80 => "symphonic",
        81 => "synthpop",
        82 => "techno",
        83 => "trance",
        84 => "triphop",
        85 => "world",
        _ => "worldfusion",
    }
}

/// A genre label and the bit pattern of its confidence (an `f32` in [0, 1]).
pub struct GenreResult {
    pub label: String,
    pub confidence_bits: u32,
}

/// Why genre classification gave no result.
#[derive(Debug, PartialEq, Eq, Structural)]
pub enum GenreError {
    /// A model file is missing or could not be loaded.
    ClassifierInit,
    /// Inference failed or its output has the wrong shape.
    ClassifierRun,
}

/// Sort keys that put the highest confidence first.
pub open spec fn descending_keys(a: Seq<u32>) -> Seq<u64> {
    a.map_values(|b: u32| (0xFFFF_FFFF - total_order_key(b)) as u64)
}

/// The `top_k` labels with the highest confidence, highest first, ties in label order.
/// `activations` holds the bit patterns of the classifier's 87 confidences; any other
/// length is an inference failure.
pub fn top_genres(activations: &Vec<u32>, top_k: usize) -> (r: Result<Vec<GenreResult>, GenreError>)
    ensures
        r is Ok <==> activations@.len() == GENRE_COUNT,
        r is Err ==> r->Err_0 == GenreError::ClassifierRun,
        r is Ok ==> exists|order: Seq<usize>|
            #[trigger] is_ranking(descending_keys(activations@), top_k as int, order) && r->Ok_0@.len()
                == order.len() && forall|i: int|
                0 <= i < order.len() ==> (#[trigger] r->Ok_0@[i]).label@ == genre_label_spec(order[i])
                    && r->Ok_0@[i].confidence_bits == activations@[order[i] as int],
        r is Ok ==> r->Ok_0@.len() == if top_k < GENRE_COUNT { top_k } else { GENRE_COUNT },
        r is Ok ==> forall|i: int, j: int|
            0 <= i < j < r->Ok_0@.len() ==> total_order_key(r->Ok_0@[i].confidence_bits) >= total_order_key(
                r->Ok_0@[j].confidence_bits,
            ),
{
    if activations.len() != GENRE_COUNT {
        return Err(GenreError::ClassifierRun);
    }
    let mut keys: Vec<u64> = Vec::new();
    let mut i: usize = 0;
    while i < activations.len()
        invariant
            i <= activations@.len(),
            keys@ == descending_keys(activations@).subrange(0, i as int),
        decreases activations@.len() - i,
    {
        let k = total_order_key_exec(activations[i]);
        keys.push((0xFFFF_FFFFu32 - k) as u64);
        i = i + 1;
        assert(keys@ =~= descending_keys(activations@).subrange(0, i as int));
    }
    assert(keys@ =~= descending_keys(activations@));
    let order = rank_ascending(&keys, top_k);
    let mut out: Vec<GenreResult> = Vec::new();
    let mut j: usize = 0;
    while j < order.len()
        invariant
            j <= order@.len(),
            activations@.len() == GENRE_COUNT,
            keys@ == descending_keys(activations@),
            is_ranking(keys@, top_k as int, order@),
            out@.len() == j,
            forall|x: int|
                0 <= x < j ==> (#[trigger] out@[x]).label@ == genre_label_spec(order@[x])
                    && out@[x].confidence_bits == activations@[order@[x] as int],
        decreases order@.len() - j,
    {
        let p = order[j];
        let label = String::from_str(genre_label(p));
        out.push(GenreResult { label, confidence_bits: activations[p] });
        j = j + 1;
    }
    proof {
        assert forall|a: int, b: int| 0 <= a < b < out@.len() implies total_order_key(out@[a].confidence_bits)
            >= total_order_key(out@[b].confidence_bits) by {
            assert(ranks_before(keys@, order@[a] as int, order@[b] as int));
            assert(keys@[order@[a] as int] <= keys@[order@[b] as int]);
            assert(keys@[order@[a] as int] == (0xFFFF_FFFF - total_order_key(activations@[order@[a] as int])) as u64);
            assert(keys@[order@[b] as int] == (0xFFFF_FFFF - total_order_key(activations@[order@[b] as int])) as u64);
        }
    }
    Ok(out)
}

/// Genre results as the (label, confidence bits) pairs that track metadata stores.
pub fn to_metadata_format(results: &Vec<GenreResult>) -> (r: Vec<(String, u32)>)
    ensures
        r@.len() == results@.len(),
        forall|i: int|
            0 <= i < r@.len() ==> (#[trigger] r@[i]).0@ == results@[i].label@ && r@[i].1
                == results@[i].confidence_bits,
{
    let mut r: Vec<(String, u32)> = Vec::new();
    let mut i: usize = 0;
    while i < results.len()
        invariant
            i <= results@.len(),
            r@.len() == i,
            forall|x: int|
                0 <= x < i ==> (#[trigger] r@[x]).0@ == results@[x].label@ && r@[x].1
                    == results@[x].confidence_bits,
        decreases results@.len() - i,
    {
        r.push((results[i].label.clone(), results[i].confidence_bits));
        i = i + 1;
    }
    r
}

/// How many analysis windows of `N_FFT` samples, `HOP_LENGTH` apart, fit in `n` samples.
pub fn frame_count(n: usize) -> (r: usize)
    ensures
        n < N_FFT ==> r == 0,
        n >= N_FFT ==> r == (n - N_FFT) / (HOP_LENGTH as int) + 1,
{
    if n < N_FFT {
        0
    } else {
        (n - N_FFT) / HOP_LENGTH + 1
    }
}

/// The first frames of the patches cut from a spectrogram of `num_frames` frames:
/// 0, 64, 128, ... as long as a whole patch of 128 frames fits; none for a spectrogram
/// shorter than one patch.
pub fn patch_starts(num_frames: usize) -> (r: Vec<usize>)
    ensures
        num_frames < PATCH_FRAMES ==> r@.len() == 0,
        num_frames >= PATCH_FRAMES ==> r@.len() == (num_frames - PATCH_FRAMES) / (
        PATCH_STRIDE as int) + 1,
        forall|i: int| 0 <= i < r@.len() ==> r@[i] == PATCH_STRIDE * i && r@[i] + PATCH_FRAMES <= num_frames,
{
    let mut r: Vec<usize> = Vec::new();
    if num_frames < PATCH_FRAMES {
        return r;
    }
    let mut start: usize = 0;
    while start <= num_frames - PATCH_FRAMES
        invariant
            num_frames >= PATCH_FRAMES,
            start == PATCH_STRIDE * r@.len(),
            start <= num_frames - PATCH_FRAMES + PATCH_STRIDE,
            r@.len() <= (num_frames - PATCH_FRAMES) / (PATCH_STRIDE as int) + 1,
            start <= num_frames - PATCH_FRAMES ==> r@.len() <= (num_frames - PATCH_FRAMES) / (PATCH_STRIDE as int),
            start > num_frames - PATCH_FRAMES ==> r@.len() == (num_frames - PATCH_FRAMES) / (PATCH_STRIDE as int) + 1,
            forall|i: int| 0 <= i < r@.len() ==> r@[i] == PATCH_STRIDE * i && r@[i] + PATCH_FRAMES <= num_frames,
        decreases num_frames - start,
    {
        r.push(start);
        start = start + PATCH_STRIDE;
    }
    r
}

/// File name of the embedding model under the model directory.
pub fn embedding_model_file() -> (r: &'static str)
    ensures
        r@ == "discogs-effnet-bsdynamic-1.onnx"@,
{
    "discogs-effnet-bsdynamic-1.onnx"
}

/// File name of the genre classifier model under the model directory.
pub fn classifier_model_file() -> (r: &'static str)
    ensures
        r@ == "mtg_jamendo_genre-discogs-effnet.onnx"@,
{
    "mtg_jamendo_genre-discogs-effnet.onnx"
}

/// Whether genre classification is set up, and from which model directory.
pub struct ClassifierSetup {
    pub model_dir: Option<String>,
}

impl ClassifierSetup {
    /// Not set up.
    pub fn new() -> (r: Self)
        ensures
            r.model_dir is None,
    {
        ClassifierSetup { model_dir: None }
    }
}

/// Sets up classification from `model_dir` when both model files were found there. A
/// setup that is done already stays as it is; with a model missing nothing changes and
/// classification stays off, which is no error.
pub fn init_models(setup: &mut ClassifierSetup, model_dir: String, embedding_found: bool, classifier_found: bool)
    ensures
        old(setup).model_dir is Some ==> final(setup).model_dir == old(setup).model_dir,
        old(setup).model_dir is None && embedding_found && classifier_found ==> final(setup).model_dir
            == Some(model_dir),
        old(setup).model_dir is None && !(embedding_found && classifier_found) ==> final(setup).model_dir is None,
{
    if setup.model_dir.is_some() {
        return;
    }
    if embedding_found && classifier_found {
        setup.model_dir = Some(model_dir);
    }
}

/// Whether classification is set up.
pub fn is_initialized(setup: &ClassifierSetup) -> (r: bool)
    ensures
        r == setup.model_dir is Some,
{
    setup.model_dir.is_some()
}

/// The genres a classify run stores for one track: none when classification is not set
/// up or gave no result, else the results as metadata pairs. A failed inference is an error
/// of that track only.
pub fn genres_for_track(
    setup: &ClassifierSetup,
    outcome: Option<Result<Vec<GenreResult>, GenreError>>,
) -> (r: Result<Vec<(String, u32)>, GenreError>)
    ensures
        setup.model_dir is None ==> r is Ok && r->Ok_0@.len() == 0,
        setup.model_dir is Some && outcome is None ==> r is Ok && r->Ok_0@.len() == 0,
        setup.model_dir is Some && outcome is Some && outcome->0 is Err ==> r is Err && r->Err_0 == outcome->0->Err_0,
        setup.model_dir is Some && outcome is Some && outcome->0 is Ok ==> r is Ok && r->Ok_0@.len()
            == outcome->0->Ok_0@.len() && forall|i: int|
            0 <= i < r->Ok_0@.len() ==> (#[trigger] r->Ok_0@[i]).0@ == outcome->0->Ok_0@[i].label@
                && r->Ok_0@[i].1 == outcome->0->Ok_0@[i].confidence_bits,
{
    if !is_initialized(setup) {
        return Ok(Vec::new());
    }
    match outcome {
        None => Ok(Vec::new()),
        Some(Err(e)) => Err(e),
        Some(Ok(results)) => Ok(to_metadata_format(&results)),
    }
}

} // verus!
