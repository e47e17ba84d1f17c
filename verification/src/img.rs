//! The candidate artwork flowing through the pipeline: its format, its
//! strictly-forward decode state machine, and the decode/sample step that
//! turns raw bytes into a display preview and a fixed-size comparison
//! sample.

use vstd::prelude::*;
use vstd::string::StrSliceExecFns;

use crate::compare::{SimSample, SAMPLE_DIM};
use crate::imageio::{
    clone_decoded, crop, decode_image, decode_outcome, encode_image, resize_to_fit, thumbnail,
    thumbnail_exact, to_luma_bytes, to_rgba_bytes, DecodeFailed, DecodedImg, EncodeFailed,
};
use crate::source::Source;

verus! {

/// Side length bound of the preview thumbnail shown in the list.
pub const PREVIEW_DIM: u32 = 200;

/// Settings chosen by the user for the image finally written into the file.
#[derive(Clone, Copy, Debug)]
pub struct ImageSettings {
    pub downscale: u32,
    pub square: bool,
    pub jpg: bool,
}

impl Default for ImageSettings {
    /// Downscale to at most 1200 rows, crop square, re-encode as JPEG.
    fn default() -> (r: Self)
        ensures
            r.downscale == 1200,
            r.jpg,
            r.square,
    {
        Self { downscale: 1200, jpg: true, square: true }
    }
}

/// The container format of a candidate's full-size image.
#[derive(Clone, Copy, Debug, PartialEq, Eq, Structural)]
pub enum ImgFormat {
    Jpeg,
    Png,
}

/// ASCII upper-case letters fold to lower case; everything else is kept.
pub open spec fn ascii_lower_char(c: char) -> char {
    if 'A' <= c && c <= 'Z' {
        (((c as u8) + 32) as char)
    } else {
        c
    }
}

/// A sequence folded to ASCII lower case.
pub open spec fn ascii_lower(s: Seq<char>) -> Seq<char> {
    s.map_values(|c: char| ascii_lower_char(c))
}

/// The needle occurs in the haystack starting at position `i`.
pub open spec fn contains_at(hay: Seq<char>, needle: Seq<char>, i: int) -> bool {
    0 <= i && i + needle.len() <= hay.len() && hay.subrange(i, i + needle.len()) == needle
}

/// The needle occurs somewhere in the haystack.
pub open spec fn seq_contains(hay: Seq<char>, needle: Seq<char>) -> bool {
    exists|i: int| contains_at(hay, needle, i)
}

/// Index of the first `'?'` or `'#'`, or the length when there is none:
/// everything before it is the URL without query and fragment.
pub open spec fn stop_idx(u: Seq<char>) -> int
    decreases u.len(),
{
    if u.len() == 0 {
        0
    } else if u[0] == '?' || u[0] == '#' {
        0
    } else {
        1 + stop_idx(u.drop_first())
    }
}

/// One past the last `'.'`, or 0 when there is none: the file extension of
/// a cleaned URL starts there.
pub open spec fn ext_start(u: Seq<char>) -> int
    decreases u.len(),
{
    if u.len() == 0 {
        0
    } else if u[u.len() - 1] == '.' {
        u.len() as int
    } else {
        ext_start(u.drop_last())
    }
}

/// The format a URL announces: the extension of the URL without query and
/// fragment decides when it is a known one; otherwise the whole URL is
/// searched for a known extension; otherwise JPEG is assumed.
pub open spec fn from_url_spec(u: Seq<char>) -> ImgFormat {
    let clean = u.take(stop_idx(u));
    let ext = ascii_lower(clean.subrange(ext_start(clean), clean.len() as int));
    if ext == "jpg"@ || ext == "jpeg"@ {
        ImgFormat::Jpeg
    } else if ext == "png"@ {
        ImgFormat::Png
    } else {
        let whole = ascii_lower(u);
        if seq_contains(whole, ".png"@) {
            ImgFormat::Png
        } else if seq_contains(whole, ".jpg"@) || seq_contains(whole, ".jpeg"@) {
            ImgFormat::Jpeg
        } else {
            ImgFormat::Jpeg
        }
    }
}

proof fn lemma_stop_idx_props(u: Seq<char>)
    ensures
        0 <= stop_idx(u) <= u.len(),
        forall|k: int| 0 <= k < stop_idx(u) ==> u[k] != '?' && u[k] != '#',
        stop_idx(u) < u.len() ==> u[stop_idx(u)] == '?' || u[stop_idx(u)] == '#',
    decreases u.len(),
{
    if u.len() > 0 && !(u[0] == '?' || u[0] == '#') {
        lemma_stop_idx_props(u.drop_first());
        assert(forall|k: int| 1 <= k < stop_idx(u) ==> u[k] == u.drop_first()[k - 1]);
    }
}

proof fn lemma_ext_start_props(u: Seq<char>)
    ensures
        0 <= ext_start(u) <= u.len(),
        ext_start(u) > 0 ==> u[ext_start(u) - 1] == '.',
        forall|k: int| ext_start(u) <= k < u.len() ==> u[k] != '.',
    decreases u.len(),
{
    if u.len() > 0 && u[u.len() - 1] != '.' {
        lemma_ext_start_props(u.drop_last());
        assert(forall|k: int| 0 <= k < u.len() - 1 ==> u[k] == u.drop_last()[k]);
    }
}

/// Collect the characters of a string.
fn str_chars(s: &str) -> (v: Vec<char>)
    ensures
        v@ == s@,
{
    let n = s.unicode_len();
    let mut v: Vec<char> = Vec::new();
    let mut i: usize = 0;
    while i < n
        invariant
            n == s@.len(),
            i <= n,
            v@.len() == i,
            forall|k: int| 0 <= k < i ==> v@[k] == s@[k],
        decreases n - i,
    {
        v.push(s.get_char(i));
        i += 1;
    }
    proof {
        assert(v@ =~= s@);
    }
    v
}

/// Whether the character sequence equals the pattern.
fn chars_eq(v: &Vec<char>, pat: &str) -> (r: bool)
    ensures
        r == (v@ == pat@),
{
    let n = pat.unicode_len();
    if v.len() != n {
        return false;
    }
    let mut i: usize = 0;
    while i < n
        invariant
            n == pat@.len(),
            v@.len() == n,
            i <= n,
            forall|k: int| 0 <= k < i ==> v@[k] == pat@[k],
        decreases n - i,
    {
        if v[i] != pat.get_char(i) {
            return false;
        }
        i += 1;
    }
    proof {
        assert(v@ =~= pat@);
    }
    true
}

/// Whether the pattern occurs in the character sequence.
fn chars_contain(hay: &Vec<char>, pat: &str) -> (r: bool)
    ensures
        r == seq_contains(hay@, pat@),
{
    let n = pat.unicode_len();
    if n > hay.len() {
        proof {
            assert(forall|i: int| !contains_at(hay@, pat@, i));
        }
        return false;
    }
    let mut i: usize = 0;
    let hlen: usize = hay.len();
    proof {
        assert(hay@.len() <= usize::MAX);
    }
    let end = hlen - n;
    loop
        invariant
            n == pat@.len(),
            n <= hay@.len(),
            hay@.len() <= usize::MAX,
            end == hay@.len() - n,
            0 <= i <= end,
            forall|k: int| 0 <= k < i ==> !contains_at(hay@, pat@, k),
        decreases end - i,
    {
        let mut j: usize = 0;
        let mut ok = true;
        while j < n
            invariant
                n == pat@.len(),
                i + n <= hay@.len(),
                hay@.len() <= usize::MAX,
                j <= n,
                ok <==> (forall|k: int| 0 <= k < j ==> hay@[i + k] == pat@[k]),
            decreases n - j,
        {
            if hay[i + j] != pat.get_char(j) {
                proof {
                    assert(hay@[i + j as int] != pat@[j as int]);
                }
                ok = false;
            }
            j += 1;
        }
        if ok {
            proof {
                assert(hay@.subrange(i as int, i + n) =~= pat@);
                assert(contains_at(hay@, pat@, i as int));
            }
            return true;
        }
        proof {
            let k = choose|k: int| 0 <= k < n && hay@[i + k] != pat@[k];
            assert(hay@.subrange(i as int, i + n)[k] != pat@[k]);
            assert(!contains_at(hay@, pat@, i as int));
        }
        if i == end {
            proof {
                assert(forall|k: int| contains_at(hay@, pat@, k) ==> 0 <= k <= end);
            }
            return false;
        }
        i += 1;
    }
}

/// Fold a character sequence to ASCII lower case.
fn lower_chars(v: &Vec<char>) -> (r: Vec<char>)
    ensures
        r@ == ascii_lower(v@),
{
    let mut r: Vec<char> = Vec::new();
    let mut i: usize = 0;
    while i < v.len()
        invariant
            i <= v@.len(),
            r@.len() == i,
            forall|k: int| 0 <= k < i ==> r@[k] == ascii_lower_char(v@[k]),
        decreases v@.len() - i,
    {
        let c = v[i];
        if 'A' <= c && c <= 'Z' {
            r.push((((c as u8) + 32) as char));
        } else {
            r.push(c);
        }
        i += 1;
    }
    proof {
        assert(r@ =~= ascii_lower(v@));
    }
    r
}

impl ImgFormat {
    /// The file extension this format is saved under.
    pub fn to_str(self) -> (s: &'static str)
        ensures
            self is Png ==> s@ == "png"@,
            self is Jpeg ==> s@ == "jpg"@,
    {
        match self {
            Self::Png => "png",
            Self::Jpeg => "jpg",
        }
    }

    /// Guess the format a URL points at, by its extension first and by a
    /// search over the whole URL as a fallback; JPEG when neither decides.
    /// Case-insensitive over ASCII.
    pub fn from_url(url: &str) -> (r: Self)
        ensures
            r == from_url_spec(url@),
    {
        let chars = str_chars(url);
        proof {
            lemma_stop_idx_props(url@);
        }
        let n = chars.len();
        let mut stop: usize = n;
        let mut i: usize = 0;
        while i < stop
            invariant
                chars@ == url@,
                n == chars@.len(),
                stop == n || (stop < n && (chars@[stop as int] == '?' || chars@[stop as int]
                    == '#')),
                i <= stop,
                forall|k: int| 0 <= k < i ==> chars@[k] != '?' && chars@[k] != '#',
            decreases stop - i,
        {
            let c = chars[i];
            if c == '?' || c == '#' {
                stop = i;
            } else {
                i += 1;
            }
        }
        proof {
            // both `stop` and `stop_idx` are the first query or fragment mark
            if stop < stop_idx(url@) {
                assert(url@[stop as int] != '?' && url@[stop as int] != '#');
            }
            if stop_idx(url@) < stop {
                assert(url@[stop_idx(url@)] != '?' && url@[stop_idx(url@)] != '#');
            }
            assert(stop == stop_idx(url@));
        }
        let ghost clean = url@.take(stop_idx(url@));
        proof {
            lemma_ext_start_props(clean);
        }
        let mut dot: usize = 0;
        let mut i: usize = stop;
        while i > 0
            invariant_except_break
                dot == 0,
            invariant
                chars@ == url@,
                stop <= chars@.len(),
                i <= stop,
                dot <= i,
                dot > 0 ==> chars@[dot - 1] == '.',
                forall|k: int| i <= k < stop ==> chars@[k] != '.',
            ensures
                0 <= dot <= stop,
                dot > 0 ==> chars@[dot - 1] == '.',
                forall|k: int| dot <= k < stop ==> chars@[k] != '.',
            decreases i,
        {
            if chars[i - 1] == '.' {
                dot = i;
                break;
            }
            i -= 1;
        }
        proof {
            assert(forall|k: int| 0 <= k < clean.len() ==> clean[k] == url@[k]);
            if dot < ext_start(clean) {
                assert(clean[ext_start(clean) - 1] == '.');
            }
            if ext_start(clean) < dot {
                assert(clean[dot - 1] != '.');
            }
            assert(dot == ext_start(clean));
        }
        let mut ext: Vec<char> = Vec::new();
        let mut i: usize = dot;
        while i < stop
            invariant
                chars@ == url@,
                dot <= i <= stop <= chars@.len(),
                ext@.len() == i - dot,
                forall|k: int| 0 <= k < i - dot ==> ext@[k] == chars@[dot + k],
            decreases stop - i,
        {
            ext.push(chars[i]);
            i += 1;
        }
        proof {
            assert(ext@ =~= clean.subrange(ext_start(clean), clean.len() as int));
        }
        let ext = lower_chars(&ext);
        if chars_eq(&ext, "jpg") || chars_eq(&ext, "jpeg") {
            return ImgFormat::Jpeg;
        }
        if chars_eq(&ext, "png") {
            return ImgFormat::Png;
        }
        let whole = lower_chars(&chars);
        if chars_contain(&whole, ".png") {
            return ImgFormat::Png;
        }
        if chars_contain(&whole, ".jpg") || chars_contain(&whole, ".jpeg") {
            return ImgFormat::Jpeg;
        }
        ImgFormat::Jpeg
    }
}

/// A small RGBA pixel buffer ready for display.
#[derive(Clone)]
pub struct RgbaBuf {
    pub w: u32,
    pub h: u32,
    pub data: Vec<u8>,
}

impl RgbaBuf {
    /// Four bytes per pixel.
    pub open spec fn wf(self) -> bool {
        self.data@.len() == 4 * self.w * self.h
    }
}

/// How far a candidate's image has progressed. The states only ever move
/// forward: raw bytes are decoded into either a kept image or, where
/// fallback URLs promise a better copy, into the list of those URLs; a
/// preview is later downloaded and decoded in place.
pub enum ImageProgress {
    /// Raw bytes of a small copy, with fallback URLs of the full image.
    RawPreview(Vec<String>, Vec<u8>),
    /// Raw bytes of the image itself.
    Raw(Vec<u8>),
    /// The small copy was decoded and kept only as a preview; the full
    /// image waits behind these URLs.
    Preview(Vec<String>),
    /// The full image, decoded.
    Decoded(DecodedImg),
}

/// How far along the one-way decode pipeline a state is.
pub open spec fn progress_rank(p: ImageProgress) -> int {
    match p {
        ImageProgress::RawPreview(_, _) => 0,
        ImageProgress::Raw(_) => 0,
        ImageProgress::Preview(_) => 1,
        ImageProgress::Decoded(_) => 2,
    }
}

/// The raw byte payload a not-yet-decoded candidate carries.
pub open spec fn raw_payload(p: ImageProgress) -> Seq<u8> {
    match p {
        ImageProgress::Raw(b) => b@,
        ImageProgress::RawPreview(_, b) => b@,
        _ => Seq::empty(),
    }
}

/// The library's format tag for a sniffed container format.
pub open spec fn sniffed_format(png: bool) -> ImgFormat {
    if png {
        ImgFormat::Png
    } else {
        ImgFormat::Jpeg
    }
}

impl ImageProgress {
    /// Short state tag for log lines.
    pub fn dbg(&self) -> (r: String)
        ensures
            self is RawPreview ==> r@ == "RawP"@,
            self is Raw ==> r@ == "Raw"@,
            self is Preview ==> r@ == "Prev"@,
            self is Decoded ==> r@ == "Dec"@,
    {
        match self {
            Self::RawPreview(_, _) => "RawP".to_owned(),
            Self::Raw(_) => "Raw".to_owned(),
            Self::Preview(_) => "Prev".to_owned(),
            Self::Decoded(_) => "Dec".to_owned(),
        }
    }
}

/// What clustering sees of a candidate: its identity, the weight of its
/// source, and the bytes of its similarity sample, if it has one.
#[verifier::ext_equal]
pub struct CandView {
    pub hash: u64,
    pub weight: int,
    pub sample: Option<Seq<u8>>,
}

/// The candidate list as clustering sees it.
pub open spec fn cviews(imgs: Seq<SongImg>) -> Seq<CandView> {
    imgs.map_values(|i: SongImg| i.cview())
}

/// Identity handle of a candidate, stable for its lifetime.
pub type ImgHash = u64;

/// Index of a candidate in a song's candidate list.
pub type ImgId = usize;

/// Relies on `rand::random`: a pseudo-random 64-bit value. Nothing is
/// promised of it; it serves as a practically-unique identity handle.
#[verifier::external_body]
pub(crate) fn fresh_hash() -> u64 {
    rand::random()
}

/// One proposed cover-art candidate.
pub struct SongImg {
    /// Identity handle used for selection and menu state.
    pub hash: ImgHash,
    /// Format of the full image; a preview's format is guessed separately.
    pub orig_format: ImgFormat,
    /// The provider and query kind that produced the candidate.
    pub src: Source,
    /// The decode state machine.
    pub image: ImageProgress,
    /// Width and height of the full image, known once it is decoded.
    pub orig_res: Option<(u32, u32)>,
    /// Small RGBA thumbnail for display.
    pub preview: Option<RgbaBuf>,
    /// Fixed-size grayscale sample for clustering; `None` exempts the
    /// candidate from clustering (local art is never merged with web art).
    pub sample: Option<SimSample>,
    /// Free-text provenance shown to the user.
    pub feedback: String,
}

impl SongImg {
    /// What clustering sees of this candidate.
    pub open spec fn cview(self) -> CandView {
        CandView {
            hash: self.hash,
            weight: crate::source::weight_of(self.src),
            sample: match self.sample {
                Some(s) => Some(s.data@),
                None => None,
            },
        }
    }

    /// A fresh candidate: nothing decoded yet, a fresh identity.
    pub fn new(format: ImgFormat, image: ImageProgress, src: Source, feedback: String) -> (r: Self)
        ensures
            r.orig_format == format,
            r.image == image,
            r.src == src,
            r.feedback == feedback,
            r.orig_res is None,
            r.preview is None,
            r.sample is None,
    {
        Self {
            image,
            orig_format: format,
            hash: fresh_hash(),
            src,
            orig_res: None,
            preview: None,
            sample: None,
            feedback,
        }
    }

    /// The decoded full image.
    pub fn decoded(&self) -> (r: DecodedImg)
        requires
            self.image is Decoded,
        ensures
            r.width() == self.image->Decoded_0.width(),
            r.height() == self.image->Decoded_0.height(),
    {
        match &self.image {
            ImageProgress::Decoded(d) => clone_decoded(d),
            _ => vstd::pervasive::unreached(),
        }
    }

    /// Decode the raw bytes, build the display preview and — unless the
    /// candidate is exempt local art — the fixed-size comparison sample.
    /// It succeeds exactly when the bytes decode as an image.
    ///
    /// Raw bytes of the image itself become the decoded image with its
    /// resolution recorded; raw bytes of a small copy are dropped in favour
    /// of the fallback URLs, which stay for a later full download. Either
    /// way the state machine only moves forward.
    pub fn decode_and_sample(self) -> (r: Result<SongImg, DecodeFailed>)
        requires
            self.image is Raw || self.image is RawPreview,
        ensures
            r is Ok <==> decode_outcome(raw_payload(self.image)) is Some,
            r is Ok && self.image is Raw ==> (r->Ok_0).orig_res == Some(
                (
                    (decode_outcome(raw_payload(self.image))->0).0,
                    (decode_outcome(raw_payload(self.image))->0).1,
                ),
            ),
            r is Ok ==> {
                let out = r->Ok_0;
                &&& out.hash == self.hash
                &&& out.src == self.src
                &&& out.orig_format == self.orig_format
                &&& out.feedback == self.feedback
                &&& (self.image is Raw ==> out.image is Decoded && out.orig_res is Some)
                &&& (self.image is RawPreview ==> out.image is Preview
                    && out.image->Preview_0@ == self.image->RawPreview_0@
                    && out.orig_res == self.orig_res)
                &&& progress_rank(out.image) > progress_rank(self.image)
                &&& out.preview is Some && out.preview->0.wf()
                &&& (out.sample is Some <==> !(self.src is LocalFile))
                &&& (out.sample is Some ==> out.sample->0.wf())
            },
    {
        let Self { hash, orig_format, src, image, orig_res, preview: _, sample: _, feedback } =
            self;
        let (urls, bytes): (Option<Vec<String>>, Vec<u8>) = match image {
            ImageProgress::Raw(b) => (None, b),
            ImageProgress::RawPreview(u, b) => (Some(u), b),
            _ => {
                return Err(DecodeFailed);
            },
        };
        let decoded = match decode_image(&bytes) {
            Ok((d, _)) => d,
            Err(e) => {
                return Err(e);
            },
        };
        let (image, orig_res) = if let Some(u) = urls {
            (ImageProgress::Preview(u), orig_res)
        } else {
            (ImageProgress::Decoded(clone_decoded(&decoded)), Some((decoded.w(), decoded.h())))
        };

        let thumb = thumbnail(&decoded, PREVIEW_DIM, PREVIEW_DIM);
        let (tw, th) = (thumb.w(), thumb.h());
        let preview = RgbaBuf { w: tw, h: th, data: to_rgba_bytes(&thumb) };

        // centre square of the thumbnail, then the exact comparison size
        let square = if tw > th {
            crop(&thumb, tw / 2 - th / 2, 0, th, th)
        } else if th > tw {
            crop(&thumb, 0, th / 2 - tw / 2, tw, tw)
        } else {
            thumb
        };
        let square = thumbnail_exact(&square, SAMPLE_DIM, SAMPLE_DIM);

        let sample = match src {
            Source::LocalFile => None,
            _ => Some(SimSample { data: to_luma_bytes(&square) }),
        };

        Ok(
            Self {
                hash,
                orig_format,
                src,
                image,
                orig_res,
                preview: Some(preview),
                sample,
                feedback,
            },
        )
    }

    /// Replace a preview-state candidate by the decoded full image whose
    /// bytes were just downloaded; it succeeds exactly when the bytes
    /// decode. The format announced by the URL is taken first, then
    /// corrected by what the decoder sniffed from the bytes. On failure the
    /// candidate keeps its state, with only the announced format recorded.
    pub fn preview_to_decoded(&mut self, bytes: Vec<u8>, format: ImgFormat) -> (r: Result<
        (),
        DecodeFailed,
    >)
        ensures
            final(self).hash == old(self).hash,
            final(self).src == old(self).src,
            final(self).feedback == old(self).feedback,
            final(self).preview == old(self).preview,
            final(self).sample == old(self).sample,
            r is Ok <==> decode_outcome(bytes@) is Some,
            r is Ok ==> final(self).image is Decoded && final(self).orig_res == Some(
                ((decode_outcome(bytes@)->0).0, (decode_outcome(bytes@)->0).1),
            ) && final(self).orig_format == sniffed_format((decode_outcome(bytes@)->0).2),
            r is Err ==> final(self).image == old(self).image && final(self).orig_res == old(
                self,
            ).orig_res && final(self).orig_format == format,
    {
        self.orig_format = format;
        let (decoded, png) = match decode_image(&bytes) {
            Ok(p) => p,
            Err(e) => {
                return Err(e);
            },
        };
        // the URL extension may have lied; trust the sniffed format
        self.orig_format = if png {
            ImgFormat::Png
        } else {
            ImgFormat::Jpeg
        };
        self.orig_res = Some((decoded.w(), decoded.h()));
        self.image = ImageProgress::Decoded(decoded);
        Ok(())
    }

    /// Width and height after the square crop that `apply_settings` makes.
    pub open spec fn settings_crop_dims(&self, set: ImageSettings) -> (int, int) {
        let w = self.image->Decoded_0.width() as int;
        let h = self.image->Decoded_0.height() as int;
        if set.square && w > h {
            (h, h)
        } else {
            (w, h)
        }
    }

    /// Crop the decoded image square if asked, then downscale it if it is
    /// taller than the chosen bound.
    fn apply_settings(&self, set: &ImageSettings) -> (r: DecodedImg)
        requires
            self.image is Decoded,
        ensures
            ({
                let (w1, h1) = self.settings_crop_dims(*set);
                &&& (set.downscale >= h1 ==> r.width() == w1 && r.height() == h1)
                &&& (1 <= set.downscale < h1 ==> 1 <= r.height() <= set.downscale && 1 <= r.width()
                    <= 9999)
                &&& (set.downscale == 0 && h1 >= 1 ==> r.height() == 1 && 1 <= r.width() <= 9999)
            }),
    {
        let raw = self.decoded();
        let (w, h) = (raw.w(), raw.h());
        let cropped = if set.square && w > h {
            crop(&raw, w / 2 - h / 2, 0, h, h)
        } else {
            raw
        };
        let ch = cropped.h();
        if set.downscale < ch {
            resize_to_fit(&cropped, 9999, set.downscale)
        } else {
            cropped
        }
    }

    /// The preview of the final image, as it would be written with the
    /// given settings.
    pub fn final_img_preview(&self, set: ImageSettings) -> (r: RgbaBuf)
        requires
            self.image is Decoded,
        ensures
            r.wf(),
            ({
                let (w1, h1) = self.settings_crop_dims(set);
                &&& (set.downscale >= h1 ==> r.w == w1 && r.h == h1)
                &&& (1 <= set.downscale < h1 ==> 1 <= r.h <= set.downscale && 1 <= r.w <= 9999)
                &&& (set.downscale == 0 && h1 >= 1 ==> r.h == 1 && 1 <= r.w <= 9999)
            }),
    {
        let scaled = self.apply_settings(&set);
        let (w, h) = (scaled.w(), scaled.h());
        RgbaBuf { w, h, data: to_rgba_bytes(&scaled) }
    }

    /// Encode the final image under the chosen settings: the bytes to write
    /// into the file, the format they are in, and a preview of them. The
    /// format is JPEG when re-encoding is asked for, else the candidate's
    /// own; a JPEG within the format's dimension range always encodes.
    pub fn final_img(&self, set: &ImageSettings) -> (r: Result<
        (Vec<u8>, ImgFormat, RgbaBuf),
        EncodeFailed,
    >)
        requires
            self.image is Decoded,
        ensures
            r is Ok ==> r->Ok_0.1 == (
            if set.jpg {
                ImgFormat::Jpeg
            } else {
                self.orig_format
            }),
            r is Ok ==> r->Ok_0.2.wf() && 1 <= r->Ok_0.2.w <= 2 * PREVIEW_DIM && 1 <= r->Ok_0.2.h
                <= PREVIEW_DIM,
            ({
                let (w1, h1) = self.settings_crop_dims(*set);
                let format = if set.jpg {
                    ImgFormat::Jpeg
                } else {
                    self.orig_format
                };
                &&& (format is Jpeg && set.downscale >= h1 ==> (r is Ok <==> 1 <= w1 <= 65535 && 1
                    <= h1 <= 65535))
                &&& (format is Jpeg && 1 <= set.downscale < h1 && set.downscale <= 65535 ==> r
                    is Ok)
                &&& (format is Png && set.downscale >= h1 && (w1 == 0 || h1 == 0) ==> r is Err)
            }),
    {
        let scaled = self.apply_settings(set);

        let preview = thumbnail(&scaled, 2 * PREVIEW_DIM, PREVIEW_DIM);
        let (pw, ph) = (preview.w(), preview.h());
        let handle = RgbaBuf { w: pw, h: ph, data: to_rgba_bytes(&preview) };

        let format = if set.jpg {
            ImgFormat::Jpeg
        } else {
            self.orig_format
        };
        let bytes = match encode_image(&scaled, matches!(format, ImgFormat::Png)) {
            Ok(b) => b,
            Err(e) => {
                return Err(e);
            },
        };
        Ok((bytes, format, handle))
    }
}

} // verus!
