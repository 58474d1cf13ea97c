//! Recording configuration: encoder backends and codecs, the GStreamer element
//! of each pair, which encoders are available, and the order in which encoders
//! are tried.
use vstd::prelude::*;
use vstd::string::*;
use crate::library::TrackInfo;
use crate::text::owned;

verus! {

/// Hardware or software encoder families.
#[derive(Clone, Copy, Debug, PartialEq, Eq, Hash, Structural)]
pub enum EncoderBackend {
    Vaapi,
    Cuda,
    Vulkan,
    Software,
}

/// Video codecs.
#[derive(Clone, Copy, Debug, PartialEq, Eq, Structural)]
pub enum VideoCodec {
    H264,
    H265,
    Av1,
}

/// State of the recorder.
#[derive(Clone, Copy, Debug, PartialEq, Eq, Structural)]
pub enum RecordingState {
    Idle,
    Recording,
    Stopped,
}

/// Video encoder configuration.
#[derive(Clone, Copy, Debug)]
pub struct VideoConfig {
    pub codec: VideoCodec,
    pub backend: EncoderBackend,
    pub bitrate: u32,
    pub fps: u32,
    pub width: u32,
    pub height: u32,
}

/// Audio encoder configuration.
#[derive(Clone, Copy, Debug)]
pub struct AudioConfig {
    pub bitrate: u32,
}

impl Default for VideoConfig {
    /// H.265 through VA-API at 2 Mbit/s, 15 frames per second, 1280x720.
    fn default() -> (c: Self)
        ensures
            c.codec == VideoCodec::H265,
            c.backend == EncoderBackend::Vaapi,
            c.bitrate == 2_000_000,
            c.fps == 15,
            c.width == 1280,
            c.height == 720,
    {
        VideoConfig {
            codec: VideoCodec::H265,
            backend: EncoderBackend::Vaapi,
            bitrate: 2_000_000,
            fps: 15,
            width: 1280,
            height: 720,
        }
    }
}

impl Default for AudioConfig {
    /// Opus at 64 kbit/s.
    fn default() -> (c: Self)
        ensures
            c.bitrate == 64_000,
    {
        AudioConfig { bitrate: 64_000 }
    }
}

/// The GStreamer element that encodes `codec` with `backend`.
pub open spec fn element_name(b: EncoderBackend, c: VideoCodec) -> Seq<char> {
    match (b, c) {
        (EncoderBackend::Vaapi, VideoCodec::H264) => "vaapih264enc"@,
        (EncoderBackend::Vaapi, VideoCodec::H265) => "vaapih265enc"@,
        (EncoderBackend::Vaapi, VideoCodec::Av1) => "vaapiav1enc"@,
        (EncoderBackend::Cuda, VideoCodec::H264) => "nvh264enc"@,
        (EncoderBackend::Cuda, VideoCodec::H265) => "nvh265enc"@,
        (EncoderBackend::Cuda, VideoCodec::Av1) => "nvav1enc"@,
        (EncoderBackend::Vulkan, VideoCodec::H264) => "vulkanh264enc"@,
        (EncoderBackend::Vulkan, VideoCodec::H265) => "vulkanh265enc"@,
        (EncoderBackend::Vulkan, VideoCodec::Av1) => "vulkanav1enc"@,
        (EncoderBackend::Software, VideoCodec::H264) => "x264enc"@,
        (EncoderBackend::Software, VideoCodec::H265) => "x265enc"@,
        (EncoderBackend::Software, VideoCodec::Av1) => "svtav1enc"@,
    }
}

impl EncoderBackend {
    /// Name of the GStreamer encoder element for `codec` on this backend.
    pub fn gst_element_name(&self, codec: &VideoCodec) -> (s: &'static str)
        ensures
            s@ == element_name(*self, *codec),
    {
        match (self, codec) {
            (EncoderBackend::Vaapi, VideoCodec::H264) => "vaapih264enc",
            (EncoderBackend::Vaapi, VideoCodec::H265) => "vaapih265enc",
            (EncoderBackend::Vaapi, VideoCodec::Av1) => "vaapiav1enc",
            (EncoderBackend::Cuda, VideoCodec::H264) => "nvh264enc",
            (EncoderBackend::Cuda, VideoCodec::H265) => "nvh265enc",
            (EncoderBackend::Cuda, VideoCodec::Av1) => "nvav1enc",
            (EncoderBackend::Vulkan, VideoCodec::H264) => "vulkanh264enc",
            (EncoderBackend::Vulkan, VideoCodec::H265) => "vulkanh265enc",
            (EncoderBackend::Vulkan, VideoCodec::Av1) => "vulkanav1enc",
            (EncoderBackend::Software, VideoCodec::H264) => "x264enc",
            (EncoderBackend::Software, VideoCodec::H265) => "x265enc",
            (EncoderBackend::Software, VideoCodec::Av1) => "svtav1enc",
        }
    }
}

/// The lower-case name of a backend, as settings and the encoder list write it.
pub open spec fn backend_key_text(b: EncoderBackend) -> Seq<char> {
    match b {
        EncoderBackend::Vaapi => "vaapi"@,
        EncoderBackend::Cuda => "cuda"@,
        EncoderBackend::Vulkan => "vulkan"@,
        EncoderBackend::Software => "software"@,
    }
}

/// The lower-case name of a codec, as settings and the encoder list write it.
pub open spec fn codec_key_text(c: VideoCodec) -> Seq<char> {
    match c {
        VideoCodec::H264 => "h264"@,
        VideoCodec::H265 => "h265"@,
        VideoCodec::Av1 => "av1"@,
    }
}

impl EncoderBackend {
    /// The backend's lower-case name.
    pub fn key(&self) -> (s: &'static str)
        ensures
            s@ == backend_key_text(*self),
    {
        match self {
            EncoderBackend::Vaapi => "vaapi",
            EncoderBackend::Cuda => "cuda",
            EncoderBackend::Vulkan => "vulkan",
            EncoderBackend::Software => "software",
        }
    }
}

impl VideoCodec {
    /// The codec's lower-case name.
    pub fn key(&self) -> (s: &'static str)
        ensures
            s@ == codec_key_text(*self),
    {
        match self {
            VideoCodec::H264 => "h264",
            VideoCodec::H265 => "h265",
            VideoCodec::Av1 => "av1",
        }
    }
}

/// The backends in the order they are probed and tried.
pub open spec fn backend_order() -> Seq<EncoderBackend> {
    seq![EncoderBackend::Vaapi, EncoderBackend::Cuda, EncoderBackend::Vulkan, EncoderBackend::Software]
}

/// The codecs in the order they are probed.
pub open spec fn codec_order() -> Seq<VideoCodec> {
    seq![VideoCodec::H264, VideoCodec::H265, VideoCodec::Av1]
}

/// The backends in the order they are probed and tried.
pub fn backends() -> (v: Vec<EncoderBackend>)
    ensures
        v@ == backend_order(),
{
    let mut v = Vec::new();
    v.push(EncoderBackend::Vaapi);
    v.push(EncoderBackend::Cuda);
    v.push(EncoderBackend::Vulkan);
    v.push(EncoderBackend::Software);
    assert(v@ =~= backend_order());
    v
}

/// The codecs in the order they are probed.
pub fn codecs() -> (v: Vec<VideoCodec>)
    ensures
        v@ == codec_order(),
{
    let mut v = Vec::new();
    v.push(VideoCodec::H264);
    v.push(VideoCodec::H265);
    v.push(VideoCodec::Av1);
    assert(v@ =~= codec_order());
    v
}

/// The element names to look up, backend by backend, codec by codec; entry
/// `3 * b + c` belongs to backend `b` and codec `c` of the two orders.
pub fn encoder_element_names() -> (v: Vec<&'static str>)
    ensures
        v@.len() == 12,
        forall|b: int, c: int|
            0 <= b < 4 && 0 <= c < 3 ==> (#[trigger] v@[3 * b + c])@ == element_name(
                backend_order()[b],
                codec_order()[c],
            ),
{
    let bs = backends();
    let cs = codecs();
    let mut v: Vec<&'static str> = Vec::new();
    let mut b: usize = 0;
    while b < 4
        invariant
            bs@ == backend_order(),
            cs@ == codec_order(),
            b <= 4,
            v@.len() == 3 * b,
            forall|i: int, j: int|
                0 <= i < b && 0 <= j < 3 ==> (#[trigger] v@[3 * i + j])@ == element_name(
                    backend_order()[i],
                    codec_order()[j],
                ),
        decreases 4 - b,
    {
        let mut c: usize = 0;
        while c < 3
            invariant
                bs@ == backend_order(),
                cs@ == codec_order(),
                b < 4,
                c <= 3,
                v@.len() == 3 * b + c,
                forall|i: int, j: int|
                    0 <= i < b && 0 <= j < 3 ==> (#[trigger] v@[3 * i + j])@ == element_name(
                        backend_order()[i],
                        codec_order()[j],
                    ),
                forall|j: int|
                    0 <= j < c ==> (#[trigger] v@[3 * b + j])@ == element_name(
                        backend_order()[b as int],
                        codec_order()[j],
                    ),
            decreases 3 - c,
        {
            v.push(bs[b].gst_element_name(&cs[c]));
            c += 1;
        }
        b += 1;
    }
    v
}

/// Position of a codec in the codec order.
pub open spec fn codec_index(c: VideoCodec) -> int {
    match c {
        VideoCodec::H264 => 0,
        VideoCodec::H265 => 1,
        VideoCodec::Av1 => 2,
    }
}

/// Position of a backend in the backend order.
pub open spec fn backend_index(b: EncoderBackend) -> int {
    match b {
        EncoderBackend::Vaapi => 0,
        EncoderBackend::Cuda => 1,
        EncoderBackend::Vulkan => 2,
        EncoderBackend::Software => 3,
    }
}

/// Whether the element of backend number `b` and codec `c` was found.
pub open spec fn codec_found(found: Seq<bool>, b: int) -> spec_fn(VideoCodec) -> bool {
    |c: VideoCodec| found[3 * b + codec_index(c)]
}

/// The codecs found for backend number `b`, in codec order.
pub open spec fn found_codecs(found: Seq<bool>, b: int) -> Seq<VideoCodec> {
    codec_order().filter(codec_found(found, b))
}

/// Whether a backend has at least one codec found.
pub open spec fn backend_found(found: Seq<bool>) -> spec_fn(EncoderBackend) -> bool {
    |b: EncoderBackend| found_codecs(found, backend_index(b)).len() > 0
}

/// The entry of a backend in the availability list.
pub open spec fn availability_entry(found: Seq<bool>) -> spec_fn(EncoderBackend) -> (EncoderBackend, Seq<VideoCodec>) {
    |b: EncoderBackend| (b, found_codecs(found, backend_index(b)))
}

/// The availability list: each backend with at least one codec found, with
/// those codecs, backends and codecs in probe order.
pub open spec fn availability(found: Seq<bool>) -> Seq<(EncoderBackend, Seq<VideoCodec>)> {
    backend_order().filter(backend_found(found)).map_values(availability_entry(found))
}

/// The availability list with its codec lists as sequences.
pub open spec fn availability_view(r: Seq<(EncoderBackend, Vec<VideoCodec>)>) -> Seq<(EncoderBackend, Seq<VideoCodec>)> {
    r.map_values(|e: (EncoderBackend, Vec<VideoCodec>)| (e.0, e.1@))
}

/// Groups the encoders that were found by backend.
pub fn probe_available(found: &Vec<bool>) -> (r: Vec<(EncoderBackend, Vec<VideoCodec>)>)
    requires
        found@.len() == 12,
    ensures
        availability_view(r@) == availability(found@),
{
    let bs = backends();
    let cs = codecs();
    let mut r: Vec<(EncoderBackend, Vec<VideoCodec>)> = Vec::new();
    let mut b: usize = 0;
    while b < 4
        invariant
            bs@ == backend_order(),
            cs@ == codec_order(),
            found@.len() == 12,
            b <= 4,
            availability_view(r@) == backend_order().take(b as int).filter(backend_found(found@)).map_values(
                availability_entry(found@),
            ),
        decreases 4 - b,
    {
        let backend = bs[b];
        assert(backend_index(backend) == b);
        let mut list: Vec<VideoCodec> = Vec::new();
        let mut c: usize = 0;
        while c < 3
            invariant
                bs@ == backend_order(),
                cs@ == codec_order(),
                found@.len() == 12,
                b < 4,
                c <= 3,
                list@ == codec_order().take(c as int).filter(codec_found(found@, b as int)),
            decreases 3 - c,
        {
            let codec = cs[c];
            assert(codec_index(codec) == c);
            proof {
                reveal_with_fuel(Seq::<_>::filter, 1);
                assert(codec_order().take(c + 1).drop_last() =~= codec_order().take(c as int));
            }
            if found[3 * b + c] {
                list.push(codec);
            }
            c += 1;
        }
        assert(codec_order().take(3) =~= codec_order());
        assert(list@ == found_codecs(found@, backend_index(backend)));
        let ghost old_r = r@;
        proof {
            reveal_with_fuel(Seq::<_>::filter, 1);
            assert(backend_order().take(b + 1).drop_last() =~= backend_order().take(b as int));
        }
        if list.len() > 0 {
            r.push((backend, list));
            proof {
                let pre = backend_order().take(b as int).filter(backend_found(found@));
                assert(backend_order().take(b + 1).filter(backend_found(found@)) =~= pre.push(backend));
                assert(availability_view(r@) =~= availability_view(old_r).push(
                    availability_entry(found@)(backend),
                ));
                assert(pre.push(backend).map_values(availability_entry(found@)) =~= pre.map_values(
                    availability_entry(found@),
                ).push(availability_entry(found@)(backend)));
            }
        }
        b += 1;
    }
    assert(backend_order().take(4) =~= backend_order());
    r
}

/// Whether `available` lists `codec` for `backend`.
pub open spec fn offers(available: Seq<(EncoderBackend, Vec<VideoCodec>)>, backend: EncoderBackend, codec: VideoCodec) -> bool {
    exists|i: int| 0 <= i < available.len() && (#[trigger] available[i]).0 == backend && available[i].1@.contains(codec)
}

fn offers_exec(available: &Vec<(EncoderBackend, Vec<VideoCodec>)>, backend: EncoderBackend, codec: VideoCodec) -> (r: bool)
    ensures
        r == offers(available@, backend, codec),
{
    let n = available.len();
    let mut i: usize = 0;
    while i < n
        invariant
            n == available@.len(),
            i <= n,
            forall|k: int| 0 <= k < i ==> !((#[trigger] available@[k]).0 == backend && available@[k].1@.contains(codec)),
        decreases n - i,
    {
        let entry = &available[i];
        if entry.0 == backend {
            let m = entry.1.len();
            let mut j: usize = 0;
            while j < m
                invariant
                    n == available@.len(),
                    i < n,
                    *entry == available@[i as int],
                    entry.0 == backend,
                    m == entry.1@.len(),
                    j <= m,
                    forall|k: int| 0 <= k < j ==> entry.1@[k] != codec,
                decreases m - j,
            {
                if entry.1[j] == codec {
                    assert(entry.1@[j as int] == codec);
                    assert(available@[i as int].0 == backend && available@[i as int].1@.contains(codec));
                    return true;
                }
                j += 1;
            }
            assert(!entry.1@.contains(codec));
        }
        i += 1;
    }
    false
}

/// The order in which encoders are tried for `codec`: the preferred backend
/// first, then every other backend that offers the codec, in probe order.
pub open spec fn fallback_order(
    preferred: EncoderBackend,
    codec: VideoCodec,
    available: Seq<(EncoderBackend, Vec<VideoCodec>)>,
) -> Seq<EncoderBackend> {
    seq![preferred] + backend_order().filter(fallback_candidate(preferred, codec, available))
}

/// A backend other than the preferred one that offers the codec.
pub open spec fn fallback_candidate(
    preferred: EncoderBackend,
    codec: VideoCodec,
    available: Seq<(EncoderBackend, Vec<VideoCodec>)>,
) -> spec_fn(EncoderBackend) -> bool {
    |b: EncoderBackend| b != preferred && offers(available, b, codec)
}

/// The backends to try, in order, when creating a video encoder for `codec`.
pub fn fallback_backends(
    preferred: EncoderBackend,
    codec: VideoCodec,
    available: &Vec<(EncoderBackend, Vec<VideoCodec>)>,
) -> (v: Vec<EncoderBackend>)
    ensures
        v@ == fallback_order(preferred, codec, available@),
{
    let bs = backends();
    let mut v: Vec<EncoderBackend> = Vec::new();
    v.push(preferred);
    let ghost pred = fallback_candidate(preferred, codec, available@);
    let mut i: usize = 0;
    while i < 4
        invariant
            bs@ == backend_order(),
            i <= 4,
            pred == fallback_candidate(preferred, codec, available@),
            v@ == seq![preferred] + backend_order().take(i as int).filter(pred),
        decreases 4 - i,
    {
        let b = bs[i];
        proof {
            reveal_with_fuel(Seq::<_>::filter, 1);
            assert(backend_order().take(i + 1).drop_last() =~= backend_order().take(i as int));
        }
        if b != preferred && offers_exec(available, b, codec) {
            v.push(b);
        }
        i += 1;
        assert(v@ =~= seq![preferred] + backend_order().take(i as int).filter(pred));
    }
    assert(backend_order().take(4) =~= backend_order());
    v
}

/// The backends to try begin with the preferred one, which is not tried again;
/// after it comes every other backend for which some entry of `available` lists
/// the codec, and no other, in probe order (Vaapi, Cuda, Vulkan, Software),
/// whether or not the preferred backend lists the codec itself.
pub proof fn lemma_fallback_order_tries_every_offer(
    preferred: EncoderBackend,
    codec: VideoCodec,
    available: Seq<(EncoderBackend, Vec<VideoCodec>)>,
)
    ensures
        fallback_order(preferred, codec, available).len() >= 1,
        fallback_order(preferred, codec, available)[0] == preferred,
        forall|b: EncoderBackend| b != preferred ==> (
            fallback_order(preferred, codec, available).subrange(
                1,
                fallback_order(preferred, codec, available).len() as int,
            ).contains(b) <==> exists|i: int|
                0 <= i < available.len() && (#[trigger] available[i]).0 == b
                    && available[i].1@.contains(codec)),
        forall|k: int| 1 <= k < fallback_order(preferred, codec, available).len()
            ==> #[trigger] fallback_order(preferred, codec, available)[k] != preferred,
        forall|k1: int, k2: int| 1 <= k1 < k2 < fallback_order(preferred, codec, available).len()
            ==> probe_rank(fallback_order(preferred, codec, available)[k1])
                < probe_rank(fallback_order(preferred, codec, available)[k2]),
{
    let pred = fallback_candidate(preferred, codec, available);
    let o = fallback_order(preferred, codec, available);
    let bo = backend_order();
    let f = bo.filter(pred);
    assert(o.subrange(1, o.len() as int) =~= f);
    assert(o[0] == preferred);
    assert forall|b: EncoderBackend| b != preferred implies (f.contains(b) <==> offers(available, b, codec)) by {
        if offers(available, b, codec) {
            let k = probe_rank(b);
            assert(bo[k] == b);
            bo.lemma_filter_contains(pred, k);
        }
        if f.contains(b) {
            let j = choose|j: int| 0 <= j < f.len() && f[j] == b;
            bo.lemma_filter_pred(pred, j);
        }
    }
    assert forall|k: int| 1 <= k < o.len() implies #[trigger] o[k] != preferred by {
        assert(o[k] == f[k - 1]);
        bo.lemma_filter_pred(pred, k - 1);
    }
    assert forall|k1: int, k2: int| 0 <= k1 < k2 < bo.len() implies probe_rank(bo[k1]) < probe_rank(bo[k2]) by {}
    lemma_filter_rank_increasing(bo, pred);
    assert forall|k1: int, k2: int| 1 <= k1 < k2 < o.len()
        implies probe_rank(o[k1]) < probe_rank(o[k2]) by {
        assert(o[k1] == f[k1 - 1]);
        assert(o[k2] == f[k2 - 1]);
    }
}

proof fn lemma_filter_rank_increasing(s: Seq<EncoderBackend>, pred: spec_fn(EncoderBackend) -> bool)
    requires
        forall|k1: int, k2: int| 0 <= k1 < k2 < s.len() ==> probe_rank(s[k1]) < probe_rank(s[k2]),
    ensures
        forall|k1: int, k2: int| 0 <= k1 < k2 < s.filter(pred).len()
            ==> probe_rank(s.filter(pred)[k1]) < probe_rank(s.filter(pred)[k2]),
        forall|k: int| 0 <= k < s.filter(pred).len() ==> s.contains(#[trigger] s.filter(pred)[k]),
    decreases s.len(),
{
    reveal_with_fuel(Seq::<_>::filter, 1);
    if s.len() > 0 {
        let pre = s.drop_last();
        assert forall|k1: int, k2: int| 0 <= k1 < k2 < pre.len() implies probe_rank(pre[k1]) < probe_rank(pre[k2]) by {
            assert(pre[k1] == s[k1] && pre[k2] == s[k2]);
        }
        lemma_filter_rank_increasing(pre, pred);
        let fp = pre.filter(pred);
        let f = s.filter(pred);
        assert forall|k: int| 0 <= k < fp.len() implies probe_rank(#[trigger] fp[k]) < probe_rank(s.last()) by {
            assert(pre.contains(fp[k]));
            let i = choose|i: int| 0 <= i < pre.len() && pre[i] == fp[k];
            assert(s[i] == fp[k]);
        }
        assert forall|k: int| 0 <= k < f.len() implies s.contains(#[trigger] f[k]) by {
            if k < fp.len() {
                assert(f[k] == fp[k]);
                assert(pre.contains(fp[k]));
                let i = choose|i: int| 0 <= i < pre.len() && pre[i] == fp[k];
                assert(s[i] == fp[k]);
            } else {
                assert(f[k] == s[s.len() - 1]);
            }
        }
        assert forall|k1: int, k2: int| 0 <= k1 < k2 < f.len() implies probe_rank(f[k1]) < probe_rank(f[k2]) by {
            if k2 < fp.len() {
                assert(f[k1] == fp[k1] && f[k2] == fp[k2]);
            } else {
                assert(f[k1] == fp[k1]);
                assert(f[k2] == s.last());
            }
        }
    }
}

/// Position of a backend in probe order, written out.
pub open spec fn probe_rank(b: EncoderBackend) -> int {
    match b {
        EncoderBackend::Vaapi => 0,
        EncoderBackend::Cuda => 1,
        EncoderBackend::Vulkan => 2,
        EncoderBackend::Software => 3,
    }
}

/// The bitrate property given to the encoder, in kbit/s: every backend but
/// Vulkan takes one.
pub fn encoder_bitrate_kbps(backend: EncoderBackend, bitrate: u32) -> (r: Option<u32>)
    ensures
        backend is Vulkan ==> r is None,
        !(backend is Vulkan) ==> r == Some((bitrate / 1000) as u32),
{
    match backend {
        EncoderBackend::Vulkan => None,
        _ => Some(bitrate / 1000),
    }
}

/// The audio tracks of every recording: the microphone on track 0 and the
/// system audio on track 1, both Opus.
pub fn recording_tracks() -> (v: Vec<TrackInfo>)
    ensures
        v@.len() == 2,
        v@[0].index == 0 && v@[0].label@ == "mic"@ && v@[0].codec@ == "opus"@,
        v@[1].index == 1 && v@[1].label@ == "system"@ && v@[1].codec@ == "opus"@,
{
    let mut v: Vec<TrackInfo> = Vec::new();
    v.push(TrackInfo { index: 0, label: owned("mic"), codec: owned("opus") });
    v.push(TrackInfo { index: 1, label: owned("system"), codec: owned("opus") });
    v
}

} // verus!
