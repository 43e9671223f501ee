//! Screen-share video frames and their encoder.
//!
//! Frames are raw RGBA pixels; they are downscaled to fit a configured
//! bound (keeping aspect ratio), converted to RGB, and compressed as JPEG,
//! which keeps every frame independently decodable. The keyframe cadence
//! and the quality adaptation are bookkeeping over the frame counter and
//! the observed output sizes.

use vstd::prelude::*;

verus! {

/// One raw video frame.
#[derive(Debug)]
pub struct VideoFrame {
    /// Width in pixels.
    pub width: u32,
    /// Height in pixels.
    pub height: u32,
    /// RGBA pixel bytes, row-major.
    pub data: Vec<u8>,
}

impl VideoFrame {
    /// Frame from raw RGBA bytes.
    pub fn new(width: u32, height: u32, data: Vec<u8>) -> (r: VideoFrame)
        ensures
            r.width == width,
            r.height == height,
            r.data@ == data@,
    {
        VideoFrame { width, height, data }
    }

    /// Size of the raw frame in bytes.
    pub fn size(&self) -> (r: usize)
        ensures
            r == self.data@.len(),
    {
        self.data.len()
    }
}

/// Encoder settings.
#[derive(Debug)]
pub struct EncoderConfig {
    /// Target bitrate in kbit/s (guides quality adaptation).
    pub bitrate_kbps: u32,
    /// Target frame rate.
    pub fps: u32,
    /// Frames wider than this are downscaled.
    pub max_width: u32,
    /// Frames taller than this are downscaled.
    pub max_height: u32,
    /// JPEG quality, 1 to 100.
    pub quality: u8,
}

impl Default for EncoderConfig {
    /// Sharp screen content at 15 frames per second within 1920 x 1080.
    fn default() -> (r: EncoderConfig)
        ensures
            r.bitrate_kbps == 4000,
            r.fps == 15,
            r.max_width == 1920,
            r.max_height == 1080,
            r.quality == 85,
    {
        EncoderConfig { bitrate_kbps: 4000, fps: 15, max_width: 1920, max_height: 1080, quality: 85 }
    }
}

/// One encoded frame.
#[derive(Debug)]
pub struct EncodedFrame {
    /// JPEG bytes.
    pub data: Vec<u8>,
    /// Encoded width.
    pub width: u32,
    /// Encoded height.
    pub height: u32,
    /// Whether this frame starts a keyframe interval.
    pub is_keyframe: bool,
    /// Position in the stream, starting at 0.
    pub frame_number: u64,
}

impl EncodedFrame {
    /// Size of the encoded frame in bytes.
    pub fn size(&self) -> (r: usize)
        ensures
            r == self.data@.len(),
    {
        self.data.len()
    }
}

/// Pixels of the RGBA image `data` downscaled to `tw` by `th`.
pub uninterp spec fn resized_rgba(data: Seq<u8>, w: int, h: int, tw: int, th: int) -> Seq<u8>;

/// JPEG bytes of an RGB image at the given quality.
pub uninterp spec fn jpeg_bytes_of(rgb: Seq<u8>, w: int, h: int, quality: int) -> Seq<u8>;

/// Relies on the image crate's `ImageBuffer::from_raw` (which accepts any
/// buffer of exactly `w * h * 4` bytes, so it cannot fail here) and
/// `imageops::resize` with the triangle filter: the result is a `tw` by
/// `th` RGBA image determined by the arguments alone.
#[verifier::external_body]
fn resize_rgba(data: &Vec<u8>, w: u32, h: u32, tw: u32, th: u32) -> (r: Option<Vec<u8>>)
    requires
        data@.len() == 4 * w * h,
        1 <= tw,
        1 <= th,
        4 * tw * th <= 0x4_0000_0000,
    ensures
        r matches Some(v) ==> v@ == resized_rgba(data@, w as int, h as int, tw as int, th as int)
            && v@.len() == 4 * tw * th,
        r is Some,
{
    let img: image::ImageBuffer<image::Rgba<u8>, Vec<u8>> = image::ImageBuffer::from_raw(
        w,
        h,
        data.clone(),
    )?;
    let resized = image::imageops::resize(&img, tw, th, image::imageops::FilterType::Triangle);
    Some(resized.into_raw())
}

/// Relies on the image crate's `JpegEncoder::new_with_quality` and
/// `write_image` for RGB input: deterministic JPEG bytes of the image.
/// With an exact buffer, dimensions within JPEG's 65535 limit, and a
/// growable in-memory sink, the encoder cannot fail.
#[verifier::external_body]
fn jpeg_encode_rgb(rgb: &Vec<u8>, w: u32, h: u32, quality: u8) -> (r: Result<Vec<u8>, String>)
    requires
        rgb@.len() == 3 * w * h,
        1 <= w <= 65535,
        1 <= h <= 65535,
    ensures
        r matches Ok(v) ==> v@ == jpeg_bytes_of(rgb@, w as int, h as int, quality as int),
        r is Ok,
{
    let mut jpeg_data: Vec<u8> = Vec::new();
    let mut cursor = std::io::Cursor::new(&mut jpeg_data);
    let encoder = image::codecs::jpeg::JpegEncoder::new_with_quality(&mut cursor, quality);
    match image::ImageEncoder::write_image(
        encoder,
        rgb,
        w,
        h,
        image::ExtendedColorType::Rgb8,
    ) {
        Ok(()) => Ok(jpeg_data),
        Err(e) => Err(format!("JPEG encoding failed: {}", e)),
    }
}

/// RGB bytes of an RGBA image: every fourth byte (alpha) dropped.
pub open spec fn rgb_of(rgba: Seq<u8>) -> Seq<u8> {
    Seq::new((rgba.len() / 4 * 3) as nat, |i: int| rgba[(i / 3) * 4 + (i % 3)])
}

/// Drop the alpha channel of an RGBA pixel buffer.
pub fn rgba_to_rgb(rgba: &Vec<u8>) -> (r: Vec<u8>)
    requires
        rgba@.len() % 4 == 0,
        rgba@.len() <= 0x4_0000_0000,
    ensures
        r@ == rgb_of(rgba@),
{
    let rl: usize = rgba.len();
    let px: usize = rl / 4;
    let mut out: Vec<u8> = Vec::new();
    let mut p: usize = 0;
    while p < px
        invariant
            p <= px,
            px == rgba@.len() / 4,
            rgba@.len() % 4 == 0,
            rgba@.len() <= 0x4_0000_0000,
            rgba@.len() <= usize::MAX,
            out@.len() == 3 * p,
            forall|i: int| 0 <= i < out@.len() ==> out@[i] == rgba@[(i / 3) * 4 + (i % 3)],
        decreases px - p,
    {
        proof {
            assert(4 * p + 3 < rgba@.len()) by (nonlinear_arith)
                requires
                    0 <= p < px,
                    px == rgba@.len() / 4,
                    rgba@.len() % 4 == 0,
            ;
            assert(((3 * p + 0) / 3) * 4 + ((3 * p + 0) % 3) == 4 * p + 0) by (nonlinear_arith);
            assert(((3 * p + 1) / 3) * 4 + ((3 * p + 1) % 3) == 4 * p + 1) by (nonlinear_arith);
            assert(((3 * p + 2) / 3) * 4 + ((3 * p + 2) % 3) == 4 * p + 2) by (nonlinear_arith);
        }
        out.push(rgba[4 * p]);
        out.push(rgba[4 * p + 1]);
        out.push(rgba[4 * p + 2]);
        p = p + 1;
    }
    proof {
        assert(out@ =~= rgb_of(rgba@));
    }
    out
}

/// Downscaled dimensions within the configured bounds, keeping aspect
/// ratio; a frame already within bounds is untouched. Integer arithmetic;
/// dimensions never drop below 1.
pub open spec fn spec_target_size(w: int, h: int, mw: int, mh: int) -> (int, int) {
    if w <= mw && h <= mh {
        (w, h)
    } else if mw * h <= mh * w {
        // width is the binding constraint
        (if mw >= 1 {
            mw
        } else {
            1
        }, if h * mw / w >= 1 {
            h * mw / w
        } else {
            1
        })
    } else {
        (if w * mh / h >= 1 {
            w * mh / h
        } else {
            1
        }, if mh >= 1 {
            mh
        } else {
            1
        })
    }
}

/// Video encoder: target-size computation, keyframe cadence, quality
/// adaptation, and the JPEG compression step.
pub struct VideoEncoder {
    /// Current settings (quality adapts over time).
    pub config: EncoderConfig,
    /// Frames encoded so far.
    pub frame_count: u64,
    /// A keyframe every this many frames (two seconds' worth).
    pub keyframe_interval: u64,
}

impl VideoEncoder {
    /// The cadence is fixed at creation from the frame rate.
    pub open spec fn wf(&self) -> bool {
        &&& self.config.fps > 0
        &&& self.keyframe_interval == 2 * self.config.fps
    }

    /// Encoder with the given settings; keyframes every two seconds.
    pub fn new(config: EncoderConfig) -> (r: VideoEncoder)
        requires
            config.fps > 0,
        ensures
            r.wf(),
            r.config == config,
            r.frame_count == 0,
    {
        let keyframe_interval: u64 = (config.fps as u64) * 2;
        proof {
            assert(2 * config.fps == (config.fps as u64) * 2) by (nonlinear_arith);
        }
        VideoEncoder { config, frame_count: 0, keyframe_interval }
    }

    /// Encoder with the default settings.
    pub fn with_defaults() -> (r: VideoEncoder)
        ensures
            r.wf(),
            r.config.fps == 15,
            r.frame_count == 0,
    {
        VideoEncoder::new(EncoderConfig::default())
    }

    /// The configured frame rate.
    pub fn fps(&self) -> (r: u32)
        ensures
            r == self.config.fps,
    {
        self.config.fps
    }

    /// Milliseconds between frames at the configured rate.
    pub fn frame_interval_ms(&self) -> (r: u64)
        requires
            self.config.fps > 0,
        ensures
            r == 1000u64 / self.config.fps as u64,
    {
        1000 / (self.config.fps as u64)
    }

    /// Whether the next encoded frame starts a keyframe interval.
    pub fn should_be_keyframe(&self) -> (r: bool)
        requires
            self.wf(),
        ensures
            r == (self.frame_count % self.keyframe_interval == 0),
    {
        self.frame_count % self.keyframe_interval == 0
    }

    /// Downscaled dimensions for a frame, within the configured bounds.
    pub fn calculate_target_size(&self, width: u32, height: u32) -> (r: (u32, u32))
        requires
            1 <= width <= 65535,
            1 <= height <= 65535,
        ensures
            (r.0 as int, r.1 as int) == spec_target_size(
                width as int,
                height as int,
                self.config.max_width as int,
                self.config.max_height as int,
            ),
            1 <= r.0 <= 65535,
            1 <= r.1 <= 65535,
    {
        let w: u64 = width as u64;
        let h: u64 = height as u64;
        let mw: u64 = self.config.max_width as u64;
        let mh: u64 = self.config.max_height as u64;
        if width <= self.config.max_width && height <= self.config.max_height {
            return (width, height);
        }
        proof {
            assert((mw as int) * (h as int) <= 0xFFFF_FFFFint * 65535 && (mh as int) * (w as int)
                <= 0xFFFF_FFFFint * 65535) by (nonlinear_arith)
                requires
                    mw as int <= 0xFFFF_FFFF,
                    h as int <= 65535,
                    mh as int <= 0xFFFF_FFFF,
                    w as int <= 65535,
            ;
        }
        if mw * h <= mh * w {
            // width-limited: the frame is wider than the bound allows
            proof {
                if w <= mw {
                    // then the height bound is the one exceeded, which
                    // contradicts this branch
                    assert(h > mh);
                    assert(mh * w <= mh * mw) by (nonlinear_arith)
                        requires
                            w <= mw,
                            mh >= 0,
                    ;
                    assert(mh * mw < h * mw) by (nonlinear_arith)
                        requires
                            mh < h,
                            mw >= 1,
                    ;
                    assert(false);
                }
                assert(mw < w);
                assert((h as int) * (mw as int) / (w as int) <= h as int) by (nonlinear_arith)
                    requires
                        (mw as int) < (w as int),
                        (w as int) >= 1,
                        (h as int) >= 0,
                ;
            }
            let nh: u64 = h * mw / w;
            let nw: u32 = if mw >= 1 {
                self.config.max_width
            } else {
                1
            };
            let nh32: u32 = if nh >= 1 {
                nh as u32
            } else {
                1
            };
            (nw, nh32)
        } else {
            proof {
                if h <= mh {
                    // then the width bound is the one exceeded, which
                    // contradicts this branch
                    assert(w > mw);
                    assert(mw * h <= mw * mh) by (nonlinear_arith)
                        requires
                            h <= mh,
                            mw >= 0,
                    ;
                    assert(mw * mh < w * mh) by (nonlinear_arith)
                        requires
                            mw < w,
                            mh >= 1,
                    ;
                    assert(mw * mh == mh * mw && w * mh == mh * w) by (nonlinear_arith);
                    assert(false);
                }
                assert(mh < h);
                assert((w as int) * (mh as int) / (h as int) <= w as int) by (nonlinear_arith)
                    requires
                        (mh as int) < (h as int),
                        (h as int) >= 1,
                        (w as int) >= 0,
                ;
            }
            let nw: u64 = w * mh / h;
            let nh: u32 = if mh >= 1 {
                self.config.max_height
            } else {
                1
            };
            let nw32: u32 = if nw >= 1 {
                nw as u32
            } else {
                1
            };
            (nw32, nh)
        }
    }

    /// Encode one frame: downscale if needed, drop alpha, compress as
    /// JPEG. The frame counter advances whether or not compression
    /// succeeds; a failed frame is dropped and the stream continues.
    pub fn encode(&mut self, frame: &VideoFrame) -> (r: Result<EncodedFrame, String>)
        requires
            old(self).wf(),
            1 <= frame.width <= 65535,
            1 <= frame.height <= 65535,
            old(self).frame_count < u64::MAX,
        ensures
            final(self).wf(),
            final(self).config == old(self).config,
            final(self).frame_count == old(self).frame_count + 1,
            r is Err <==> frame.data@.len() != 4 * frame.width * frame.height,
            r matches Ok(e) ==> {
                let (tw, th) = spec_target_size(
                    frame.width as int,
                    frame.height as int,
                    old(self).config.max_width as int,
                    old(self).config.max_height as int,
                );
                let source = if tw != frame.width || th != frame.height {
                    resized_rgba(frame.data@, frame.width as int, frame.height as int, tw, th)
                } else {
                    frame.data@
                };
                &&& frame.data@.len() == 4 * frame.width * frame.height
                &&& e.width == tw && e.height == th
                &&& e.is_keyframe == (old(self).frame_count % old(self).keyframe_interval == 0)
                &&& e.frame_number == old(self).frame_count
                &&& e.data@ == jpeg_bytes_of(
                    rgb_of(source),
                    tw,
                    th,
                    old(self).config.quality as int,
                )
            },
    {
        let is_keyframe: bool = self.should_be_keyframe();
        let frame_number: u64 = self.frame_count;
        self.frame_count = self.frame_count + 1;
        let ghost gw = frame.width as int;
        let ghost gh = frame.height as int;
        proof {
            assert(4 * gw * gh <= 4 * 65535 * 65535) by (nonlinear_arith)
                requires
                    1 <= gw <= 65535,
                    1 <= gh <= 65535,
            ;
            assert(0 <= 4 * gw * gh) by (nonlinear_arith)
                requires
                    1 <= gw,
                    1 <= gh,
            ;
        }
        let expected: u64 = 4u64 * (frame.width as u64) * (frame.height as u64);
        if (frame.data.len() as u64) != expected {
            return Err("frame buffer does not match its dimensions".to_string());
        }
        let (tw, th) = self.calculate_target_size(frame.width, frame.height);
        let ghost gt = tw as int;
        let ghost gu = th as int;
        proof {
            assert(0 < 4 * gt * gu <= 0x4_0000_0000) by (nonlinear_arith)
                requires
                    1 <= gt <= 65535,
                    1 <= gu <= 65535,
            ;
        }
        let rgba: Vec<u8> = if tw != frame.width || th != frame.height {
            match resize_rgba(&frame.data, frame.width, frame.height, tw, th) {
                Some(v) => {
                    proof {
                        assert(v@.len() == 4 * gt * gu);
                    }
                    v
                },
                None => {
                    return Err("could not build an image from the frame".to_string());
                },
            }
        } else {
            let c = frame.data.clone();
            proof {
                assert(c@ =~= frame.data@);
                assert(gt == gw && gu == gh);
                assert(c@.len() == 4 * gt * gu);
            }
            c
        };
        proof {
            let pr = gt * gu;
            assert(4 * gt * gu == 4 * pr && 3 * gt * gu == 3 * pr) by (nonlinear_arith)
                requires
                    pr == gt * gu,
            ;
            vstd::arithmetic::div_mod::lemma_div_multiples_vanish(pr, 4);
            vstd::arithmetic::div_mod::lemma_mod_multiples_basic(pr, 4);
            assert(4 * pr == pr * 4) by (nonlinear_arith);
            assert((4 * pr) % 4 == 0 && (4 * pr) / 4 == pr);
            assert(rgba@.len() == 4 * gt * gu);
        }
        let rgb: Vec<u8> = rgba_to_rgb(&rgba);
        proof {
            assert(rgb@.len() == rgba@.len() / 4 * 3);
            assert(rgb@.len() == 3 * gt * gu);
        }
        let data: Vec<u8> = match jpeg_encode_rgb(&rgb, tw, th, self.config.quality) {
            Ok(v) => v,
            Err(e) => {
                return Err(e);
            },
        };
        Ok(EncodedFrame { data, width: tw, height: th, is_keyframe, frame_number })
    }

    /// Nudge the JPEG quality toward the configured bitrate: a frame twice
    /// the per-frame budget lowers quality by 5 (floor 30), one under half
    /// the budget raises it by 5 (ceiling 90).
    pub fn adapt_quality(&mut self, encoded_size: usize)
        requires
            old(self).wf(),
        ensures
            final(self).wf(),
            final(self).frame_count == old(self).frame_count,
            final(self).keyframe_interval == old(self).keyframe_interval,
            ({
                let target = (old(self).config.bitrate_kbps as int * 1000 / 8 / old(
                    self,
                ).config.fps as int) * 8;
                let q0 = old(self).config.quality as int;
                let q1 = final(self).config.quality as int;
                &&& (encoded_size > 2 * target && q0 > 30 ==> q1 == q0 - 5)
                &&& (!(encoded_size > 2 * target && q0 > 30) && encoded_size < target / 2 && q0
                    < 90 ==> q1 == q0 + 5)
                &&& (!(encoded_size > 2 * target && q0 > 30) && !(encoded_size < target / 2 && q0
                    < 90) ==> q1 == q0)
            }),
            final(self).config.bitrate_kbps == old(self).config.bitrate_kbps,
            final(self).config.fps == old(self).config.fps,
            final(self).config.max_width == old(self).config.max_width,
            final(self).config.max_height == old(self).config.max_height,
    {
        let target: u64 = ((self.config.bitrate_kbps as u64) * 1000 / 8 / (self.config.fps as u64))
            * 8;
        if (encoded_size as u64) > target * 2 && self.config.quality > 30 {
            self.config.quality = self.config.quality - 5;
        } else if (encoded_size as u64) < target / 2 && self.config.quality < 90 {
            self.config.quality = self.config.quality + 5;
        }
    }

    /// Restart the frame counter (when a new stream begins).
    pub fn reset(&mut self)
        requires
            old(self).wf(),
        ensures
            final(self).wf(),
            final(self).frame_count == 0,
            final(self).config == old(self).config,
            final(self).keyframe_interval == old(self).keyframe_interval,
    {
        self.frame_count = 0;
    }
}

/// Running statistics of a screen stream.
#[derive(Debug)]
pub struct StreamStats {
    /// Frames sent so far.
    pub frames_sent: u64,
    /// Total encoded bytes sent.
    pub total_bytes: u64,
    /// Average encoded frame size.
    pub avg_frame_size: u64,
}

impl StreamStats {
    /// Zeroed statistics.
    pub fn new() -> (r: StreamStats)
        ensures
            r.frames_sent == 0,
            r.total_bytes == 0,
            r.avg_frame_size == 0,
    {
        StreamStats { frames_sent: 0, total_bytes: 0, avg_frame_size: 0 }
    }

    /// Account one sent frame and refresh the average.
    pub fn record_frame(&mut self, frame_bytes: u64)
        requires
            old(self).frames_sent < u64::MAX,
            old(self).total_bytes + frame_bytes <= u64::MAX,
        ensures
            final(self).frames_sent == old(self).frames_sent + 1,
            final(self).total_bytes == old(self).total_bytes + frame_bytes,
            final(self).avg_frame_size == final(self).total_bytes / final(self).frames_sent,
    {
        self.frames_sent = self.frames_sent + 1;
        self.total_bytes = self.total_bytes + frame_bytes;
        self.avg_frame_size = self.total_bytes / self.frames_sent;
    }
}

/// Base64-encoded frame as handed to a stream viewer.
#[derive(Debug)]
pub struct EncodedFrameData {
    /// Base64 of the JPEG bytes.
    pub data: String,
    /// Frame width.
    pub width: u32,
    /// Frame height.
    pub height: u32,
    /// Whether this frame starts a keyframe interval.
    pub is_keyframe: bool,
    /// Position in the stream.
    pub frame_number: u64,
    /// Capture time in milliseconds.
    pub timestamp: u64,
}

impl EncodedFrameData {
    /// Package an encoded frame for a stream viewer: the JPEG bytes as
    /// base64 text, with the frame's geometry and the capture time.
    pub fn from_frame(frame: &EncodedFrame, timestamp: u64) -> (r: EncodedFrameData)
        ensures
            r.data@ == crate::session::b64_of(frame.data@),
            r.width == frame.width,
            r.height == frame.height,
            r.is_keyframe == frame.is_keyframe,
            r.frame_number == frame.frame_number,
            r.timestamp == timestamp,
    {
        EncodedFrameData {
            data: crate::session::b64_encode(&frame.data),
            width: frame.width,
            height: frame.height,
            is_keyframe: frame.is_keyframe,
            frame_number: frame.frame_number,
            timestamp,
        }
    }
}

/// Snapshot of streaming statistics for the UI.
#[derive(Debug)]
pub struct StreamStatsResponse {
    /// Whether a stream is running.
    pub is_streaming: bool,
    /// Current frame rate.
    pub fps: u32,
    /// Frames sent so far.
    pub frames_sent: u64,
    /// Total encoded bytes sent.
    pub total_bytes: u64,
    /// Average encoded frame size.
    pub avg_frame_size: u64,
}

} // verus!
