//! Application settings: the sections of the configuration file, their
//! defaults, and the repair of values that make no sense.
use vstd::prelude::*;
use vstd::string::*;
use crate::text::{self, join_path, owned};

verus! {

/// General settings.
#[derive(Debug)]
pub struct GeneralSettings {
    pub recordings_dir: String,
    pub auto_meeting_name: String,
    pub start_minimized: bool,
}

/// Audio recording settings.
#[derive(Debug)]
pub struct AudioSettings {
    pub codec: String,
    pub bitrate: u32,
}

/// Video recording settings.
#[derive(Debug)]
pub struct VideoSettings {
    pub codec: String,
    pub backend: String,
    pub container: String,
    pub bitrate: u32,
    pub fps: u32,
    pub resolution: String,
}

/// Transcription settings.
#[derive(Debug)]
pub struct TranscriptionSettings {
    pub provider: String,
    pub api_url: String,
    pub api_key: String,
    pub model: String,
}

/// Retrieval and chat settings.
#[derive(Debug)]
pub struct RagSettings {
    pub embeddings_url: String,
    pub embeddings_api_key: String,
    pub embeddings_model: String,
    pub chat_url: String,
    pub chat_api_key: String,
    pub chat_model: String,
    pub chunk_size: u32,
    pub top_k: u32,
}

/// Top-level application settings, one field per section of the file.
#[derive(Debug)]
pub struct AppSettings {
    pub general: GeneralSettings,
    pub audio: AudioSettings,
    pub video: VideoSettings,
    pub transcription: TranscriptionSettings,
    pub rag: RagSettings,
}

/// The user's home directory.
/// Trusted: `dirs::home_dir` (on Unix a non-empty `$HOME`, else a non-empty
/// home from the password database, else nothing), converted with
/// `to_string_lossy`, which keeps a non-empty path non-empty. Which directory
/// it finds depends on the environment and is left open.
#[verifier::external_body]
pub fn home_dir() -> (h: Option<String>)
    ensures
        h matches Some(s) ==> s@.len() > 0,
{
    dirs::home_dir().map(|p| p.to_string_lossy().to_string())
}

/// The home directory: the one `home_dir` found, else the value of `$HOME`
/// when the variable is set (even to nothing), else `/tmp/hlusra`.
pub fn home_or_env_fallback(found: Option<String>, env_home: Option<String>) -> (r: String)
    ensures
        found matches Some(h) ==> r@ == h@,
        found is None ==> (env_home matches Some(e) ==> r@ == e@),
        found is None && env_home is None ==> r@ == "/tmp/hlusra"@,
{
    match found {
        Some(h) => h,
        None => match env_home {
            Some(e) => e,
            None => owned("/tmp/hlusra"),
        },
    }
}

/// The home directory, given the value of `$HOME` (`None` when it is not set
/// or not Unicode): the one `home_dir` finds, else that value, else
/// `/tmp/hlusra`. It is empty only when `home_dir` finds none and `$HOME` is
/// set to nothing.
pub fn resolve_home_dir(env_home: Option<String>) -> (r: String)
    ensures
        r@.len() > 0 || (env_home matches Some(e) && r@ == e@),
        env_home is None ==> r@.len() > 0,
{
    let h = home_dir();
    proof {
        reveal_strlit("/tmp/hlusra");
    }
    home_or_env_fallback(h, env_home)
}

/// `<home>/Hlusra/recordings`.
pub open spec fn recordings_dir_under(home: Seq<char>) -> Seq<char> {
    text::path_join(text::path_join(home, "Hlusra"@), "recordings"@)
}

/// The recordings directory under a given home directory.
pub fn default_recordings_dir(home: &str) -> (p: String)
    ensures
        p@ == recordings_dir_under(home@),
{
    let a = join_path(home, "Hlusra");
    join_path(a.as_str(), "recordings")
}

/// The recordings directory to use: the configured one when the settings
/// loaded (`Some`) and it is not empty, otherwise `<home>/Hlusra/recordings`.
pub fn chosen_recordings_dir(configured: Option<String>, home: &str) -> (p: String)
    ensures
        (configured matches Some(d) && d@.len() > 0) ==> p@ == configured->0@,
        !(configured matches Some(d) && d@.len() > 0) ==> p@ == recordings_dir_under(home@),
{
    match configured {
        Some(d) => {
            if d.as_str().is_empty() {
                proof {
                    broadcast use vstd::string::group_string_axioms;
                }
                default_recordings_dir(home)
            } else {
                proof {
                    broadcast use vstd::string::group_string_axioms;
                    assert(d@.len() > 0) by {
                        if d@.len() == 0 {
                            assert(d@ =~= Seq::<char>::empty());
                        }
                    }
                }
                d
            }
        },
        None => default_recordings_dir(home),
    }
}

/// The default meeting-name template.
pub open spec fn default_meeting_name() -> Seq<char> {
    "Reunião {date} {time}"@
}

impl GeneralSettings {
    /// The general defaults for a given home directory.
    pub fn with_home(home: &str) -> (g: Self)
        ensures
            g.recordings_dir@ == recordings_dir_under(home@),
            g.auto_meeting_name@ == default_meeting_name(),
            !g.start_minimized,
    {
        GeneralSettings {
            recordings_dir: default_recordings_dir(home),
            auto_meeting_name: owned("Reunião {date} {time}"),
            start_minimized: false,
        }
    }
}

impl Default for GeneralSettings {
    /// Recordings under `~/Hlusra/recordings`, the default name template, not
    /// minimized. The home is the one `home_dir` finds, else `/tmp/hlusra`:
    /// the environment is not read here, so a caller that has the value of
    /// `$HOME` builds the defaults with `with_home(&resolve_home_dir(..))`.
    fn default() -> (g: Self)
        ensures
            exists|home: Seq<char>| g.recordings_dir@ == recordings_dir_under(home),
            g.auto_meeting_name@ == default_meeting_name(),
            !g.start_minimized,
    {
        let home = resolve_home_dir(None);
        GeneralSettings::with_home(home.as_str())
    }
}

impl Default for AudioSettings {
    fn default() -> (a: Self)
        ensures
            a.codec@ == "opus"@,
            a.bitrate == 64000,
    {
        AudioSettings { codec: owned("opus"), bitrate: 64000 }
    }
}

impl Default for VideoSettings {
    fn default() -> (v: Self)
        ensures
            v.codec@ == "h265"@,
            v.backend@ == "vaapi"@,
            v.container@ == "mkv"@,
            v.bitrate == 2_000_000,
            v.fps == 15,
            v.resolution@ == "720p"@,
    {
        VideoSettings {
            codec: owned("h265"),
            backend: owned("vaapi"),
            container: owned("mkv"),
            bitrate: 2_000_000,
            fps: 15,
            resolution: owned("720p"),
        }
    }
}

impl Default for TranscriptionSettings {
    fn default() -> (t: Self)
        ensures
            t.provider@ == "local"@,
            t.api_url@ == Seq::<char>::empty(),
            t.api_key@ == Seq::<char>::empty(),
            t.model@ == "base"@,
    {
        TranscriptionSettings {
            provider: owned("local"),
            api_url: String::new(),
            api_key: String::new(),
            model: owned("base"),
        }
    }
}

impl Default for RagSettings {
    fn default() -> (r: Self)
        ensures
            r.embeddings_url@ == Seq::<char>::empty(),
            r.embeddings_api_key@ == Seq::<char>::empty(),
            r.embeddings_model@ == Seq::<char>::empty(),
            r.chat_url@ == Seq::<char>::empty(),
            r.chat_api_key@ == Seq::<char>::empty(),
            r.chat_model@ == Seq::<char>::empty(),
            r.chunk_size == 500,
            r.top_k == 5,
    {
        RagSettings {
            embeddings_url: String::new(),
            embeddings_api_key: String::new(),
            embeddings_model: String::new(),
            chat_url: String::new(),
            chat_api_key: String::new(),
            chat_model: String::new(),
            chunk_size: 500,
            top_k: 5,
        }
    }
}

/// The settings a fresh installation starts with.
pub open spec fn is_default_settings(s: AppSettings) -> bool {
    &&& exists|home: Seq<char>| s.general.recordings_dir@ == recordings_dir_under(home)
    &&& s.general.auto_meeting_name@ == default_meeting_name()
    &&& !s.general.start_minimized
    &&& s.audio.codec@ == "opus"@
    &&& s.audio.bitrate == 64000
    &&& s.video.codec@ == "h265"@
    &&& s.video.backend@ == "vaapi"@
    &&& s.video.container@ == "mkv"@
    &&& s.video.bitrate == 2_000_000
    &&& s.video.fps == 15
    &&& s.video.resolution@ == "720p"@
    &&& s.transcription.provider@ == "local"@
    &&& s.transcription.api_url@ == Seq::<char>::empty()
    &&& s.transcription.api_key@ == Seq::<char>::empty()
    &&& s.transcription.model@ == "base"@
    &&& s.rag.embeddings_url@ == Seq::<char>::empty()
    &&& s.rag.embeddings_api_key@ == Seq::<char>::empty()
    &&& s.rag.embeddings_model@ == Seq::<char>::empty()
    &&& s.rag.chat_url@ == Seq::<char>::empty()
    &&& s.rag.chat_api_key@ == Seq::<char>::empty()
    &&& s.rag.chat_model@ == Seq::<char>::empty()
    &&& s.rag.chunk_size == 500
    &&& s.rag.top_k == 5
}

impl Default for AppSettings {
    fn default() -> (s: Self)
        ensures
            is_default_settings(s),
    {
        AppSettings {
            general: GeneralSettings::default(),
            audio: AudioSettings::default(),
            video: VideoSettings::default(),
            transcription: TranscriptionSettings::default(),
            rag: RagSettings::default(),
        }
    }
}

/// A field that is 0 is reset to `fallback`.
pub open spec fn nonzero_or(v: u32, fallback: u32) -> u32 {
    if v == 0 {
        fallback
    } else {
        v
    }
}

/// The warnings `validate` reports, in order, given the directory an empty
/// recordings directory is reset to.
pub open spec fn validation_warnings(s: AppSettings, dir: Seq<char>) -> Seq<Seq<char>> {
    (if s.video.fps == 0 {
        seq!["video.fps was 0, reset to 15"@]
    } else {
        Seq::empty()
    }) + (if s.rag.chunk_size == 0 {
        seq!["rag.chunk_size was 0, reset to 500"@]
    } else {
        Seq::empty()
    }) + (if s.rag.top_k == 0 {
        seq!["rag.top_k was 0, reset to 5"@]
    } else {
        Seq::empty()
    }) + (if s.audio.bitrate == 0 {
        seq!["audio.bitrate was 0, reset to 64000"@]
    } else {
        Seq::empty()
    }) + (if s.video.bitrate == 0 {
        seq!["video.bitrate was 0, reset to 2000000"@]
    } else {
        Seq::empty()
    }) + (if s.general.recordings_dir@.len() == 0 {
        seq!["general.recordings_dir was empty, reset to "@ + dir]
    } else {
        Seq::empty()
    })
}

/// `after` is `before` with the nonsensical values repaired: zero frame rate,
/// chunk size, top-k and bitrates get their defaults, an empty recordings
/// directory becomes `dir`; nothing else changes.
pub open spec fn repaired(before: AppSettings, after: AppSettings, dir: Seq<char>) -> bool {
    &&& after.video.fps == nonzero_or(before.video.fps, 15)
    &&& after.rag.chunk_size == nonzero_or(before.rag.chunk_size, 500)
    &&& after.rag.top_k == nonzero_or(before.rag.top_k, 5)
    &&& after.audio.bitrate == nonzero_or(before.audio.bitrate, 64000)
    &&& after.video.bitrate == nonzero_or(before.video.bitrate, 2_000_000)
    &&& after.general.recordings_dir@ == if before.general.recordings_dir@.len() == 0 {
        dir
    } else {
        before.general.recordings_dir@
    }
    &&& after.general.auto_meeting_name == before.general.auto_meeting_name
    &&& after.general.start_minimized == before.general.start_minimized
    &&& after.audio.codec == before.audio.codec
    &&& after.video.codec == before.video.codec
    &&& after.video.backend == before.video.backend
    &&& after.video.container == before.video.container
    &&& after.video.resolution == before.video.resolution
    &&& after.transcription == before.transcription
    &&& after.rag.embeddings_url == before.rag.embeddings_url
    &&& after.rag.embeddings_api_key == before.rag.embeddings_api_key
    &&& after.rag.embeddings_model == before.rag.embeddings_model
    &&& after.rag.chat_url == before.rag.chat_url
    &&& after.rag.chat_api_key == before.rag.chat_api_key
    &&& after.rag.chat_model == before.rag.chat_model
}

fn push_warning(w: &mut Vec<String>, s: String)
    ensures
        text::views(final(w)@) == text::views(old(w)@).push(s@),
{
    w.push(s);
    assert(text::views(w@) =~= text::views(old(w)@).push(s@));
}

impl AppSettings {
    /// Repairs invalid values, resetting an empty recordings directory to
    /// `default_dir`, and returns one warning per repaired value.
    pub fn validate_with_default_dir(&mut self, default_dir: &str) -> (warnings: Vec<String>)
        ensures
            repaired(*old(self), *final(self), default_dir@),
            text::views(warnings@) == validation_warnings(*old(self), default_dir@),
    {
        let mut warnings: Vec<String> = Vec::new();
        if self.video.fps == 0 {
            push_warning(&mut warnings, owned("video.fps was 0, reset to 15"));
            self.video.fps = 15;
        }
        if self.rag.chunk_size == 0 {
            push_warning(&mut warnings, owned("rag.chunk_size was 0, reset to 500"));
            self.rag.chunk_size = 500;
        }
        if self.rag.top_k == 0 {
            push_warning(&mut warnings, owned("rag.top_k was 0, reset to 5"));
            self.rag.top_k = 5;
        }
        if self.audio.bitrate == 0 {
            push_warning(&mut warnings, owned("audio.bitrate was 0, reset to 64000"));
            self.audio.bitrate = 64000;
        }
        if self.video.bitrate == 0 {
            push_warning(&mut warnings, owned("video.bitrate was 0, reset to 2000000"));
            self.video.bitrate = 2_000_000;
        }
        if self.general.recordings_dir.as_str().is_empty() {
            let mut msg = owned("general.recordings_dir was empty, reset to ");
            msg.append(default_dir);
            push_warning(&mut warnings, msg);
            self.general.recordings_dir = owned(default_dir);
        }
        assert(text::views(warnings@) =~= validation_warnings(*old(self), default_dir@));
        warnings
    }

    /// Repairs invalid values and returns one warning per repaired value; an
    /// empty recordings directory is reset to the default one under the home
    /// directory that `home_dir` finds (else `/tmp/hlusra`; the environment is
    /// not read here, see `validate_with_default_dir`).
    pub fn validate(&mut self) -> (warnings: Vec<String>)
        ensures
            exists|home: Seq<char>|
                {
                    &&& repaired(*old(self), *final(self), recordings_dir_under(home))
                    &&& text::views(warnings@) == validation_warnings(
                        *old(self),
                        recordings_dir_under(home),
                    )
                },
    {
        let home = if self.general.recordings_dir.as_str().is_empty() {
            resolve_home_dir(None)
        } else {
            String::new()
        };
        let dir = default_recordings_dir(home.as_str());
        self.validate_with_default_dir(dir.as_str())
    }
}

/// Repairing settings is idempotent: a second `validate` changes nothing and
/// reports nothing.
pub proof fn lemma_validate_idempotent(a: AppSettings, b: AppSettings, c: AppSettings, d1: Seq<char>, d2: Seq<char>)
    requires
        repaired(a, b, d1),
        repaired(b, c, d2),
        d1.len() > 0,
    ensures
        c.video.fps == b.video.fps,
        c.rag.chunk_size == b.rag.chunk_size,
        c.rag.top_k == b.rag.top_k,
        c.audio.bitrate == b.audio.bitrate,
        c.video.bitrate == b.video.bitrate,
        c.general.recordings_dir@ == b.general.recordings_dir@,
        validation_warnings(b, d2) == Seq::<Seq<char>>::empty(),
{
    assert(validation_warnings(b, d2) =~= Seq::<Seq<char>>::empty());
}

} // verus!
