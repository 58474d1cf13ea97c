//! Transcription: the catalogue of Whisper models, choosing the provider and
//! the active model, checking and decoding audio samples, and assembling the
//! transcript text from segments.
use vstd::prelude::*;
use vstd::string::*;
use crate::library::{path_exists, TranscriptionStatus};
use crate::text::{self, join_path, join_strings, owned, push_char, push_decimal, starts_with, trim_str};

verus! {

/// A Whisper model of the catalogue.
#[derive(Debug)]
pub struct WhisperModel {
    pub name: String,
    pub size_bytes: u64,
    pub downloaded: bool,
}

/// `ggml-<name>.bin`.
pub open spec fn model_file(name: Seq<char>) -> Seq<char> {
    "ggml-"@ + name + ".bin"@
}

/// The file name of the model called `name`.
pub fn model_file_name(name: &str) -> (s: String)
    ensures
        s@ == model_file(name@),
{
    let mut s = owned("ggml-");
    s.append(name);
    s.append(".bin");
    s
}

impl WhisperModel {
    /// The file name of the model on disk, e.g. `ggml-tiny.bin`.
    pub fn filename(&self) -> (s: String)
        ensures
            s@ == model_file(self.name@),
    {
        model_file_name(self.name.as_str())
    }

    /// The Hugging Face URL of the model file.
    pub fn download_url(&self) -> (s: String)
        ensures
            s@ == "https://huggingface.co/ggerganov/whisper.cpp/resolve/main/"@ + model_file(
                self.name@,
            ),
    {
        let mut s = owned("https://huggingface.co/ggerganov/whisper.cpp/resolve/main/");
        let f = self.filename();
        s.append(f.as_str());
        assert(s@ =~= "https://huggingface.co/ggerganov/whisper.cpp/resolve/main/"@ + model_file(
            self.name@,
        ));
        s
    }

    /// The name of the temporary file a download goes to.
    pub fn part_filename(&self) -> (s: String)
        ensures
            s@ == model_file(self.name@) + ".part"@,
    {
        let mut s = self.filename();
        s.append(".part");
        s
    }
}

/// The catalogue: name and approximate size of every known model.
pub open spec fn catalogue() -> Seq<(Seq<char>, u64)> {
    seq![
        ("tiny"@, 77_700_000u64),
        ("base"@, 147_000_000u64),
        ("small"@, 488_000_000u64),
        ("medium"@, 1_533_000_000u64),
        ("large-v3"@, 3_086_999_552u64),
    ]
}

/// Name and size of each model.
pub open spec fn model_entries(ms: Seq<WhisperModel>) -> Seq<(Seq<char>, u64)> {
    ms.map_values(|m: WhisperModel| (m.name@, m.size_bytes))
}

fn model(name: &str, size: u64) -> (m: WhisperModel)
    ensures
        m.name@ == name@,
        m.size_bytes == size,
        !m.downloaded,
{
    WhisperModel { name: owned(name), size_bytes: size, downloaded: false }
}

/// Every known Whisper model, none marked as downloaded.
pub fn all_models() -> (v: Vec<WhisperModel>)
    ensures
        model_entries(v@) == catalogue(),
        forall|i: int| 0 <= i < v@.len() ==> !(#[trigger] v@[i]).downloaded,
{
    let mut v = Vec::new();
    v.push(model("tiny", 77_700_000));
    v.push(model("base", 147_000_000));
    v.push(model("small", 488_000_000));
    v.push(model("medium", 1_533_000_000));
    v.push(model("large-v3", 3_086_999_552));
    assert(model_entries(v@) =~= catalogue());
    v
}

/// `models` with each `downloaded` flag set from `present`, position by
/// position; names and sizes are kept.
pub fn mark_downloaded(models: Vec<WhisperModel>, present: &Vec<bool>) -> (v: Vec<WhisperModel>)
    requires
        present@.len() == models@.len(),
    ensures
        model_entries(v@) == model_entries(models@),
        v@.len() == models@.len(),
        forall|i: int| 0 <= i < v@.len() ==> (#[trigger] v@[i]).downloaded == present@[i],
{
    let mut v: Vec<WhisperModel> = Vec::new();
    let n = models.len();
    let mut i: usize = 0;
    while i < n
        invariant
            n == models@.len(),
            present@.len() == n,
            i <= n,
            v@.len() == i,
            forall|k: int|
                0 <= k < i ==> (#[trigger] v@[k]).name@ == models@[k].name@ && v@[k].size_bytes
                    == models@[k].size_bytes && v@[k].downloaded == present@[k],
        decreases n - i,
    {
        let m = &models[i];
        v.push(WhisperModel { name: m.name.clone(), size_bytes: m.size_bytes, downloaded: present[i] });
        i += 1;
    }
    assert(model_entries(v@) =~= model_entries(models@));
    v
}

/// The catalogue with the `downloaded` flag set for the models whose file is
/// in `models_dir`: each model's file, in catalogue order, is looked for on the
/// disk, and what was found is marked by `mark_downloaded`.
pub fn list_available_models(models_dir: &str) -> (v: Vec<WhisperModel>)
    ensures
        model_entries(v@) == catalogue(),
{
    let models = all_models();
    let mut present: Vec<bool> = Vec::new();
    let n = models.len();
    let mut i: usize = 0;
    while i < n
        invariant
            n == models@.len(),
            i <= n,
            present@.len() == i,
        decreases n - i,
    {
        let f = models[i].filename();
        let p = join_path(models_dir, f.as_str());
        present.push(path_exists(p.as_str()));
        i += 1;
    }
    mark_downloaded(models, &present)
}

/// The models marked as downloaded, in order.
pub open spec fn downloaded_entries(ms: Seq<WhisperModel>) -> Seq<(Seq<char>, u64)> {
    model_entries(ms.filter(is_downloaded()))
}

/// The test for a model marked as downloaded.
pub open spec fn is_downloaded() -> spec_fn(WhisperModel) -> bool {
    |m: WhisperModel| m.downloaded
}

/// Keeps the models marked as downloaded.
pub fn downloaded_only(models: Vec<WhisperModel>) -> (v: Vec<WhisperModel>)
    ensures
        model_entries(v@) == downloaded_entries(models@),
        forall|i: int| 0 <= i < v@.len() ==> (#[trigger] v@[i]).downloaded,
{
    let mut v: Vec<WhisperModel> = Vec::new();
    let n = models.len();
    let mut i: usize = 0;
    let ghost pred = is_downloaded();
    while i < n
        invariant
            n == models@.len(),
            i <= n,
            pred == is_downloaded(),
            v@ == models@.take(i as int).filter(pred),
        decreases n - i,
    {
        proof {
            reveal_with_fuel(Seq::<_>::filter, 1);
            assert(models@.take(i + 1).drop_last() =~= models@.take(i as int));
        }
        if models[i].downloaded {
            let m = &models[i];
            v.push(WhisperModel { name: m.name.clone(), size_bytes: m.size_bytes, downloaded: true });
            proof {
                assert(v@.last() == models@[i as int]);
            }
        }
        i += 1;
    }
    assert(models@.take(n as int) =~= models@);
    proof {
        let f = models@.filter(pred);
        assert forall|i: int| 0 <= i < v@.len() implies (#[trigger] v@[i]).downloaded by {
            assert(f.contains(f[i]));
        }
    }
    v
}

/// `ks` picks the entries `es` out of `from`, in order and none twice: the
/// positions in `ks` increase and `es[j]` is `from[ks[j]]`.
pub open spec fn picks(ks: Seq<int>, es: Seq<(Seq<char>, u64)>, from: Seq<(Seq<char>, u64)>) -> bool {
    &&& ks.len() == es.len()
    &&& forall|j: int, k: int| 0 <= j < k < ks.len() ==> ks[j] < ks[k]
    &&& forall|j: int| 0 <= j < ks.len() ==> 0 <= #[trigger] ks[j] < from.len() && es[j] == from[ks[j]]
}

/// The models marked as downloaded are picked in order out of all the models.
proof fn lemma_downloaded_picks(s: Seq<WhisperModel>) -> (ks: Seq<int>)
    ensures
        picks(ks, downloaded_entries(s), model_entries(s)),
    decreases s.len(),
{
    reveal_with_fuel(Seq::<_>::filter, 1);
    if s.len() == 0 {
        assert(s.filter(is_downloaded()) =~= Seq::<WhisperModel>::empty());
        assert(downloaded_entries(s) =~= Seq::<(Seq<char>, u64)>::empty());
        Seq::empty()
    } else {
        let pre = s.drop_last();
        let ks0 = lemma_downloaded_picks(pre);
        let f0 = pre.filter(is_downloaded());
        let n = s.len() - 1;
        assert forall|k: int| 0 <= k < n implies model_entries(pre)[k] == model_entries(s)[k] by {}
        if s.last().downloaded {
            assert(s.filter(is_downloaded()) == f0.push(s.last()));
            let ks = ks0.push(n);
            assert(downloaded_entries(s) =~= downloaded_entries(pre).push((s.last().name@, s.last().size_bytes)));
            assert forall|j: int| 0 <= j < ks.len() implies 0 <= #[trigger] ks[j] < model_entries(s).len()
                && downloaded_entries(s)[j] == model_entries(s)[ks[j]] by {
                if j < ks0.len() {
                    assert(ks[j] == ks0[j]);
                }
            }
            ks
        } else {
            assert(s.filter(is_downloaded()) == f0);
            assert forall|j: int| 0 <= j < ks0.len() implies 0 <= #[trigger] ks0[j] < model_entries(s).len()
                && downloaded_entries(s)[j] == model_entries(s)[ks0[j]] by {}
            ks0
        }
    }
}

/// The models in `models_dir` that have been downloaded, in catalogue order;
/// which ones are found depends on the disk.
pub fn get_downloaded_models(models_dir: &str) -> (v: Vec<WhisperModel>)
    ensures
        forall|i: int| 0 <= i < v@.len() ==> (#[trigger] v@[i]).downloaded,
        forall|i: int| 0 <= i < v@.len() ==> catalogue().contains(((#[trigger] v@[i]).name@, v@[i].size_bytes)),
        exists|ks: Seq<int>| #[trigger] picks(ks, model_entries(v@), catalogue()),
{
    let all = list_available_models(models_dir);
    let ghost entries = model_entries(all@);
    let ghost f = all@.filter(is_downloaded());
    let v = downloaded_only(all);
    proof {
        broadcast use vstd::seq_lib::group_filter_ensures;

        assert(model_entries(v@).len() == v@.len());
        assert(model_entries(f).len() == f.len());
        assert forall|i: int| 0 <= i < v@.len() implies catalogue().contains(((#[trigger] v@[i]).name@, v@[i].size_bytes)) by {
            assert(model_entries(v@)[i] == model_entries(f)[i]);
            assert(f.contains(f[i]));
            all@.lemma_filter_contains_rev(is_downloaded(), f[i]);
            let k = choose|k: int| 0 <= k < all@.len() && all@[k] == f[i];
            assert(entries[k] == (v@[i].name@, v@[i].size_bytes));
            assert(catalogue()[k] == entries[k]);
        }
        let ks = lemma_downloaded_picks(all@);
        assert(picks(ks, model_entries(v@), catalogue()));
    }
    v
}

/// Whether the catalogue has a model called `name`.
pub open spec fn in_catalogue(name: Seq<char>) -> bool {
    exists|i: int| 0 <= i < catalogue().len() && #[trigger] catalogue()[i].0 == name
}

/// The catalogue's model called `name` (not marked as downloaded), or an
/// error naming an unknown model.
pub fn catalogue_model(name: &str) -> (r: Result<WhisperModel, String>)
    ensures
        r matches Ok(m) ==> m.name@ == name@ && catalogue().contains((m.name@, m.size_bytes)) && !m.downloaded,
        r is Err <==> !in_catalogue(name@),
        r matches Err(e) ==> e@ == "Unknown model: "@ + name@,
{
    let models = all_models();
    let n = models.len();
    let mut i: usize = 0;
    while i < n
        invariant
            n == models@.len(),
            model_entries(models@) == catalogue(),
            forall|k: int| 0 <= k < models@.len() ==> !(#[trigger] models@[k]).downloaded,
            i <= n,
            forall|k: int| 0 <= k < i ==> (#[trigger] catalogue()[k]).0 != name@,
        decreases n - i,
    {
        assert(model_entries(models@)[i as int] == (models@[i as int].name@, models@[i as int].size_bytes));
        if models[i].name == owned(name) {
            let found = &models[i];
            let m = WhisperModel { name: found.name.clone(), size_bytes: found.size_bytes, downloaded: false };
            assert(catalogue()[i as int] == (m.name@, m.size_bytes));
            assert(catalogue()[i as int].0 == name@);
            return Ok(m);
        }
        i += 1;
    }
    let mut e = owned("Unknown model: ");
    e.append(name);
    Err(e)
}

/// Where the selection of the active model is kept: `.active_model` in the
/// models directory.
pub fn active_model_file(models_dir: &str) -> (p: String)
    ensures
        p@ == text::path_join(models_dir@, ".active_model"@),
{
    join_path(models_dir, ".active_model")
}

/// Checks that model `name` can be made the active one: its file must be in
/// `models_dir` (a question to the disk). Returns the file to record the
/// selection in.
pub fn check_selectable_model(models_dir: &str, name: &str) -> (r: Result<String, String>)
    ensures
        r matches Ok(p) ==> p@ == text::path_join(models_dir@, ".active_model"@),
        r matches Err(e) ==> e@ == "Model '"@ + name@ + "' has not been downloaded yet"@,
{
    let file = model_file_name(name);
    let path = join_path(models_dir, file.as_str());
    if !path_exists(path.as_str()) {
        let mut e = owned("Model '");
        e.append(name);
        e.append("' has not been downloaded yet");
        return Err(e);
    }
    Ok(active_model_file(models_dir))
}

/// The model the stored selection designates: the trimmed contents of the
/// selection file, or `tiny` when there is none.
pub open spec fn selected_name(stored: Option<String>) -> Seq<char> {
    match stored {
        Some(s) => text::trim(s@),
        None => "tiny"@,
    }
}

/// A catalogue model's name, written as the selection, is read back as that
/// same name: catalogue names have no surrounding whitespace to trim.
pub proof fn lemma_selection_read_back(stored: Option<String>, name: Seq<char>)
    requires
        stored matches Some(s) && s@ == name,
        in_catalogue(name),
    ensures
        selected_name(stored) == name,
{
    let i = choose|i: int| 0 <= i < catalogue().len() && #[trigger] catalogue()[i].0 == name;
    reveal_strlit("tiny");
    reveal_strlit("base");
    reveal_strlit("small");
    reveal_strlit("medium");
    reveal_strlit("large-v3");
    assert(name.len() > 0 && !text::is_ws(name[0]) && !text::is_ws(name.last())) by {
        if i == 0 {
            assert(name == "tiny"@);
        } else if i == 1 {
            assert(name == "base"@);
        } else if i == 2 {
            assert(name == "small"@);
        } else if i == 3 {
            assert(name == "medium"@);
        } else {
            assert(name == "large-v3"@);
        }
    }
    text::lemma_trim_start_stop(name);
    text::lemma_trim_end_stop(name);
}

/// Some model of `models` is called `name`.
pub open spec fn has_model(models: Seq<WhisperModel>, name: Seq<char>) -> bool {
    exists|i: int| 0 <= i < models.len() && (#[trigger] models[i]).name@ == name
}

/// `models[i]` is the first model of `models` called `name`.
pub open spec fn first_named(models: Seq<WhisperModel>, name: Seq<char>, i: int) -> bool {
    &&& 0 <= i < models.len()
    &&& models[i].name@ == name
    &&& forall|k: int| 0 <= k < i ==> (#[trigger] models[k]).name@ != name
}

/// The name of the active model: the stored selection when `models` has it,
/// otherwise the default, `tiny`.
pub open spec fn active_name(stored: Option<String>, models: Seq<WhisperModel>) -> Seq<char> {
    if has_model(models, selected_name(stored)) {
        selected_name(stored)
    } else {
        "tiny"@
    }
}

/// The position of the first model called `name`, if any.
fn find_model(models: &Vec<WhisperModel>, name: &str) -> (r: Option<usize>)
    ensures
        r matches Some(i) ==> first_named(models@, name@, i as int),
        r is None ==> !has_model(models@, name@),
{
    let n = models.len();
    let mut i: usize = 0;
    while i < n
        invariant
            n == models@.len(),
            i <= n,
            forall|k: int| 0 <= k < i ==> (#[trigger] models@[k]).name@ != name@,
        decreases n - i,
    {
        if models[i].name == owned(name) {
            return Some(i);
        }
        i += 1;
    }
    None
}

/// Picks the active model from `models` given the contents of the selection
/// file (if it exists): the model it names, or the default `tiny` when there
/// is no selection or `models` has no model of that name. Fails only when the
/// default is missing too.
pub fn select_active_model(stored: Option<String>, models: &Vec<WhisperModel>) -> (r: Result<WhisperModel, String>)
    ensures
        r is Ok <==> has_model(models@, active_name(stored, models@)),
        r matches Ok(m) ==> exists|i: int| #[trigger] first_named(models@, active_name(stored, models@), i)
            && models@[i] == m,
        r matches Err(e) ==> e@ == "Active model '"@ + selected_name(stored)
            + "' is not in the catalogue"@,
{
    let name = match &stored {
        Some(s) => trim_str(s.as_str()),
        None => owned("tiny"),
    };
    let found = match find_model(models, name.as_str()) {
        Some(i) => Some(i),
        None => find_model(models, "tiny"),
    };
    match found {
        Some(i) => {
            let m = &models[i];
            let chosen = WhisperModel { name: m.name.clone(), size_bytes: m.size_bytes, downloaded: m.downloaded };
            assert(models@[i as int] == chosen);
            Ok(chosen)
        },
        None => {
            let mut e = owned("Active model '");
            e.append(name.as_str());
            e.append("' is not in the catalogue");
            Err(e)
        },
    }
}

/// Which transcription backend the settings select.
#[derive(Clone, Copy, Debug, PartialEq, Eq, Structural)]
pub enum ProviderKind {
    /// An OpenAI Whisper-compatible HTTP endpoint.
    Api,
    /// whisper.cpp in-process.
    Local,
}

/// `"api"` selects the HTTP provider; any other value the local one.
pub fn provider_kind(setting: &str) -> (k: ProviderKind)
    ensures
        k == (if setting@ == "api"@ {
            ProviderKind::Api
        } else {
            ProviderKind::Local
        }),
{
    if owned(setting) == owned("api") {
        ProviderKind::Api
    } else {
        ProviderKind::Local
    }
}

/// The provider that runs whisper.cpp in-process with a given model.
#[derive(Debug)]
pub struct LocalProvider {
    pub model: WhisperModel,
}

impl LocalProvider {
    /// A local provider for `model`.
    pub fn new(model: WhisperModel) -> (p: Self)
        ensures
            p.model == model,
    {
        LocalProvider { model }
    }
}

/// Tokens that are not words: blank ones, and markers starting with `[` or `<|`.
pub open spec fn special_token(t: Seq<char>) -> bool {
    let s = text::trim(t);
    s.len() == 0 || s[0] == '[' || text::has_prefix(s, "<|"@)
}

/// Whether a token is a special token to skip.
pub fn is_special_token(token: &str) -> (b: bool)
    ensures
        b == special_token(token@),
{
    let t = trim_str(token);
    if t.as_str().is_empty() {
        return true;
    }
    let bracket = starts_with(t.as_str(), "[");
    proof {
        reveal_strlit("[");
        if bracket {
            assert(t@.subrange(0, 1)[0] == t@[0]);
        } else if t@[0] == '[' {
            assert(t@.subrange(0, 1) =~= "["@);
        }
    }
    bracket || starts_with(t.as_str(), "<|")
}

/// The full text after adding one segment: a space goes between them unless
/// the full text is empty or the segment starts with a space; the segment is
/// added trimmed.
pub open spec fn with_segment(full: Seq<char>, seg: Seq<char>) -> Seq<char> {
    if full.len() > 0 && !(seg.len() > 0 && seg[0] == ' ') {
        full + seq![' '] + text::trim(seg)
    } else {
        full + text::trim(seg)
    }
}

/// Adds a segment's text to the full text of a transcript.
pub fn append_segment_text(full: &mut String, segment_text: &str)
    ensures
        final(full)@ == with_segment(old(full)@, segment_text@),
{
    let starts_space = starts_with(segment_text, " ");
    proof {
        reveal_strlit(" ");
        let sg = segment_text@;
        if starts_space {
            assert(sg.subrange(0, 1)[0] == sg[0]);
        } else if sg.len() > 0 && sg[0] == ' ' {
            assert(sg.subrange(0, 1) =~= " "@);
        }
    }
    if !full.as_str().is_empty() && !starts_space {
        push_char(full, ' ');
    }
    let t = trim_str(segment_text);
    full.append(t.as_str());
}

/// The full text built from the texts of a transcript's segments, one after
/// the other.
pub open spec fn full_text_of(segs: Seq<Seq<char>>) -> Seq<char>
    decreases segs.len(),
{
    if segs.len() == 0 {
        Seq::empty()
    } else {
        with_segment(full_text_of(segs.drop_last()), segs.last())
    }
}

/// The full text of a locally transcribed recording, from its segments' texts.
pub fn build_full_text(segment_texts: &Vec<String>) -> (s: String)
    ensures
        s@ == full_text_of(text::views(segment_texts@)),
{
    let mut full = String::new();
    let n = segment_texts.len();
    let mut i: usize = 0;
    while i < n
        invariant
            n == segment_texts.len(),
            i <= n,
            full@ == full_text_of(text::views(segment_texts@.take(i as int))),
        decreases n - i,
    {
        proof {
            let p = text::views(segment_texts@.take(i + 1));
            assert(p.drop_last() =~= text::views(segment_texts@.take(i as int)));
            assert(p.last() == segment_texts@[i as int]@);
        }
        append_segment_text(&mut full, segment_texts[i].as_str());
        i += 1;
    }
    assert(segment_texts@.take(n as int) =~= segment_texts@);
    full
}

/// The positions of the tokens that are kept as words: those that are not
/// special tokens, in order.
pub open spec fn kept_tokens(ts: Seq<Seq<char>>) -> Seq<usize>
    decreases ts.len(),
{
    if ts.len() == 0 {
        Seq::empty()
    } else {
        let rest = kept_tokens(ts.drop_last());
        if special_token(ts.last()) {
            rest
        } else {
            rest.push((ts.len() - 1) as usize)
        }
    }
}

/// Which of a segment's tokens become words: the positions of the tokens that
/// are not special tokens.
pub fn word_token_indices(token_texts: &Vec<String>) -> (v: Vec<usize>)
    ensures
        v@ == kept_tokens(text::views(token_texts@)),
{
    let mut v: Vec<usize> = Vec::new();
    let n = token_texts.len();
    let mut i: usize = 0;
    while i < n
        invariant
            n == token_texts.len(),
            i <= n,
            v@ == kept_tokens(text::views(token_texts@.take(i as int))),
        decreases n - i,
    {
        proof {
            let p = text::views(token_texts@.take(i + 1));
            assert(p.drop_last() =~= text::views(token_texts@.take(i as int)));
            assert(p.last() == token_texts@[i as int]@);
            assert(p.len() == i + 1);
        }
        if !is_special_token(token_texts[i].as_str()) {
            v.push(i);
        }
        i += 1;
    }
    assert(token_texts@.take(n as int) =~= token_texts@);
    v
}

/// The transcription status a meeting is left with after a run: done when the
/// run succeeded, failed otherwise.
pub fn status_after_run(succeeded: bool) -> (s: TranscriptionStatus)
    ensures
        succeeded ==> s == TranscriptionStatus::Done,
        !succeeded ==> s == TranscriptionStatus::Failed,
{
    if succeeded {
        TranscriptionStatus::Done
    } else {
        TranscriptionStatus::Failed
    }
}

/// The full text of a transcript returned by an API: the API's own text, or,
/// when it is empty, the segments' texts joined by spaces.
pub fn full_text_or_joined(api_text: String, segment_texts: &Vec<String>) -> (s: String)
    ensures
        api_text@.len() > 0 ==> s@ == api_text@,
        api_text@.len() == 0 ==> s@ == text::join(text::views(segment_texts@), " "@),
{
    if api_text.as_str().is_empty() {
        join_strings(segment_texts, " ")
    } else {
        api_text
    }
}

/// Why a WAV file cannot be transcribed, if it cannot: Whisper wants mono at 16 kHz.
pub fn wav_format_error(channels: u16, sample_rate: u32) -> (r: Option<String>)
    ensures
        channels != 1 ==> (r matches Some(e) && e@ == "Expected mono audio, got "@ + text::decimal(
            channels as nat,
        ) + " channels"@),
        channels == 1 && sample_rate != 16000 ==> (r matches Some(e) && e@
            == "Expected 16000 Hz sample rate, got "@ + text::decimal(sample_rate as nat)),
        channels == 1 && sample_rate == 16000 ==> r is None,
{
    if channels != 1 {
        let mut e = owned("Expected mono audio, got ");
        push_decimal(&mut e, channels as u64);
        e.append(" channels");
        return Some(e);
    }
    if sample_rate != 16000 {
        let mut e = owned("Expected 16000 Hz sample rate, got ");
        push_decimal(&mut e, sample_rate as u64);
        return Some(e);
    }
    None
}

/// The signed 16-bit value of two little-endian bytes.
pub open spec fn le_i16(lo: u8, hi: u8) -> int {
    let v = lo + 256 * hi;
    if v >= 32768 {
        v - 65536
    } else {
        v
    }
}

/// The number of samples taken from a frame: whole sample pairs in the data,
/// at most `n_samples`.
pub open spec fn samples_taken(len: nat, n_samples: nat) -> nat {
    if len / 2 < n_samples {
        len / 2
    } else {
        n_samples
    }
}

/// Appends the packed little-endian 16-bit samples of a decoded audio frame:
/// `n_samples` of them, or as many as the data holds if fewer.
pub fn append_samples(data: &[u8], n_samples: usize, buf: &mut Vec<i16>)
    ensures
        final(buf)@.len() == old(buf)@.len() + samples_taken(data@.len(), n_samples as nat),
        forall|i: int| 0 <= i < old(buf)@.len() ==> final(buf)@[i] == old(buf)@[i],
        forall|j: int|
            old(buf)@.len() <= j < final(buf)@.len() ==> #[trigger] final(buf)@[j] == le_i16(
                data@[2 * (j - old(buf)@.len())],
                data@[2 * (j - old(buf)@.len()) + 1],
            ),
{
    if n_samples == 0 {
        return;
    }
    let count = data.len() / 2;
    let take = if count < n_samples {
        count
    } else {
        n_samples
    };
    assert(2 * (data@.len() / 2) <= data@.len());
    let mut i: usize = 0;
    while i < take
        invariant
            take == samples_taken(data@.len(), n_samples as nat),
            take <= data@.len() / 2,
            2 * take <= data@.len(),
            data@.len() <= usize::MAX,
            i <= take,
            buf@.len() == old(buf)@.len() + i,
            forall|k: int| 0 <= k < old(buf)@.len() ==> buf@[k] == old(buf)@[k],
            forall|j: int|
                old(buf)@.len() <= j < buf@.len() ==> #[trigger] buf@[j] == le_i16(
                    data@[2 * (j - old(buf)@.len())],
                    data@[2 * (j - old(buf)@.len()) + 1],
                ),
        decreases take - i,
    {
        let lo = data[2 * i];
        let hi = data[2 * i + 1];
        let v: i32 = lo as i32 + 256 * (hi as i32);
        let s: i16 = if v >= 32768 {
            (v - 65536) as i16
        } else {
            v as i16
        };
        buf.push(s);
        i += 1;
    }
}

} // verus!
