//! The frames of the blur stage and the PPM form in which they cross over to
//! the face-blurring transform and to the sink.

use vstd::prelude::*;

verus! {

/// Why a frame could not be blurred.
#[derive(Debug, Clone, Copy, PartialEq, Eq, Structural)]
pub enum BlurError {
    /// The transform handed back a pixel buffer of another size.
    SizeMismatch,
}

/// What a frame is: its size and its pixels, row by row, three bytes each.
pub struct RgbFrameView {
    pub width: nat,
    pub height: nat,
    pub data: Seq<u8>,
}

/// A decoded picture in packed 24-bit RGB.
#[derive(Debug)]
pub struct RgbFrame {
    width: u32,
    height: u32,
    data: Vec<u8>,
}

impl View for RgbFrame {
    type V = RgbFrameView;

    closed spec fn view(&self) -> RgbFrameView {
        RgbFrameView { width: self.width as nat, height: self.height as nat, data: self.data@ }
    }
}

/// The decimal digits of `n` in ASCII, without leading zeros.
pub open spec fn decimal(n: nat) -> Seq<u8>
    decreases n,
{
    if n < 10 {
        seq![(48 + n) as u8]
    } else {
        decimal(n / 10) + seq![(48 + n % 10) as u8]
    }
}

/// The bytes `P6`, a line feed, the width, a space, the height, a line
/// feed, `255` and a line feed: the header of a binary PPM image.
pub open spec fn ppm_header(width: nat, height: nat) -> Seq<u8> {
    seq![0x50u8, 0x36u8, 0x0Au8] + decimal(width) + seq![0x20u8] + decimal(height) + seq![
        0x0Au8,
        0x32u8,
        0x35u8,
        0x35u8,
        0x0Au8,
    ]
}

/// A frame as a binary PPM image: the header, then the pixels as they are.
pub open spec fn ppm_image(frame: RgbFrameView) -> Seq<u8> {
    ppm_header(frame.width, frame.height) + frame.data
}

/// Appends the decimal digits of `n` to `buf`.
pub fn push_decimal(buf: &mut Vec<u8>, n: u32)
    ensures
        final(buf)@ == old(buf)@ + decimal(n as nat),
    decreases n,
{
    if n >= 10 {
        push_decimal(buf, n / 10);
    }
    let digit: u8 = 48 + (n % 10) as u8;
    buf.push(digit);
    proof {
        if n >= 10 {
            assert(old(buf)@ + decimal(n as nat / 10) + seq![digit] == old(buf)@ + (decimal(
                n as nat / 10,
            ) + seq![digit]));
        } else {
            assert(old(buf)@.push(digit) == old(buf)@ + seq![digit]);
        }
    }
}

impl RgbFrame {
    /// Whether the pixel buffer has three bytes for each pixel, no more and
    /// no less. Every frame that exists is so.
    pub open spec fn well_formed(&self) -> bool {
        self@.data.len() == 3 * self@.width * self@.height
    }

    #[verifier::type_invariant]
    closed spec fn three_bytes_a_pixel(&self) -> bool {
        self.data@.len() == 3 * (self.width as nat) * (self.height as nat)
    }

    /// A frame of the given size over the given pixels, where there are
    /// exactly three bytes for each pixel; otherwise nothing.
    pub fn new(width: u32, height: u32, data: Vec<u8>) -> (r: Option<Self>)
        ensures
            match r {
                Some(frame) => frame.well_formed() && frame@ == (RgbFrameView {
                    width: width as nat,
                    height: height as nat,
                    data: data@,
                }),
                None => data@.len() != 3 * (width as nat) * (height as nat),
            },
    {
        assert(width as u128 * height as u128 <= 0xffff_ffff * 0xffff_ffff) by (nonlinear_arith)
            requires
                width <= 0xffff_ffff,
                height <= 0xffff_ffff,
        ;
        let pixels: u128 = width as u128 * height as u128;
        let wanted: u128 = 3 * pixels;
        assert(wanted == 3 * (width as nat) * (height as nat)) by (nonlinear_arith)
            requires
                wanted == 3 * pixels,
                pixels == width as u128 * height as u128,
        ;
        if data.len() as u128 == wanted {
            Some(Self { width, height, data })
        } else {
            None
        }
    }

    /// The number of pixels in a row.
    pub fn width(&self) -> (w: u32)
        ensures
            w == self@.width,
    {
        self.width
    }

    /// The number of rows.
    pub fn height(&self) -> (h: u32)
        ensures
            h == self@.height,
    {
        self.height
    }

    /// The pixels, row by row.
    pub fn data(&self) -> (d: &[u8])
        ensures
            d@ == self@.data,
            self.well_formed(),
    {
        proof {
            use_type_invariant(self);
        }
        self.data.as_slice()
    }
}

/// A frame as a binary PPM image: the header, then three bytes for each pixel.
pub fn frame_to_ppm_format(frame: RgbFrame) -> (buf: Vec<u8>)
    ensures
        buf@ == ppm_image(frame@),
        buf@.len() == ppm_header(frame@.width, frame@.height).len() + 3 * frame@.width
            * frame@.height,
{
    proof {
        use_type_invariant(&frame);
    }
    let mut buf: Vec<u8> = Vec::new();
    buf.push(0x50);
    buf.push(0x36);
    buf.push(0x0A);
    push_decimal(&mut buf, frame.width);
    buf.push(0x20);
    push_decimal(&mut buf, frame.height);
    buf.push(0x0A);
    buf.push(0x32);
    buf.push(0x35);
    buf.push(0x35);
    buf.push(0x0A);
    assert(buf@ =~= ppm_header(frame@.width, frame@.height));
    buf.extend_from_slice(frame.data.as_slice());
    buf
}

/// The name of the file that the sink writes the frame of the given number
/// to: `blurred_frame_`, the number, and `.ppm`.
pub open spec fn sink_file_name_bytes(n: nat) -> Seq<u8> {
    seq![
        0x62u8, 0x6Cu8, 0x75u8, 0x72u8, 0x72u8, 0x65u8, 0x64u8, 0x5Fu8, 0x66u8, 0x72u8, 0x61u8,
        0x6Du8, 0x65u8, 0x5Fu8,
    ] + decimal(n) + seq![0x2Eu8, 0x70u8, 0x70u8, 0x6Du8]
}

/// The name of the file for the frame of the given number, in ASCII.
pub fn sink_file_name(n: u32) -> (name: Vec<u8>)
    ensures
        name@ == sink_file_name_bytes(n as nat),
{
    let prefix: [u8; 14] = [
        0x62, 0x6C, 0x75, 0x72, 0x72, 0x65, 0x64, 0x5F, 0x66, 0x72, 0x61, 0x6D, 0x65, 0x5F,
    ];
    let suffix: [u8; 4] = [0x2E, 0x70, 0x70, 0x6D];
    let mut name: Vec<u8> = Vec::new();
    name.extend_from_slice(prefix.as_slice());
    push_decimal(&mut name, n);
    name.extend_from_slice(suffix.as_slice());
    assert(name@ =~= sink_file_name_bytes(n as nat));
    name
}

/// The frame that the blur stage sends on for the pixels `blurred` that the
/// transform gave for a frame of the given size: a frame of that size over
/// those pixels where their number fits, and an error where it does not.
pub fn blurred_frame(width: u32, height: u32, blurred: Vec<u8>) -> (r: Result<RgbFrame, BlurError>)
    ensures
        match r {
            Ok(frame) => frame.well_formed() && frame@ == (RgbFrameView {
                width: width as nat,
                height: height as nat,
                data: blurred@,
            }),
            Err(e) => e == BlurError::SizeMismatch && blurred@.len() != 3 * (width as nat) * (
            height as nat),
        },
{
    match RgbFrame::new(width, height, blurred) {
        Some(frame) => Ok(frame),
        None => Err(BlurError::SizeMismatch),
    }
}

/// Blurs one frame: remembers its size, hands it as a PPM image to
/// `transform`, and makes a frame of the same size from the pixels that come
/// back.
pub fn blur_a_frame<F: Fn(Vec<u8>) -> Vec<u8>>(frame: RgbFrame, transform: F) -> (r: Result<
    RgbFrame,
    BlurError,
>)
    requires
        forall|ppm: Vec<u8>| ppm@ == ppm_image(frame@) ==> call_requires(transform, (ppm,)),
    ensures
        exists|ppm: Vec<u8>, blurred: Vec<u8>|
            {
                &&& ppm@ == ppm_image(frame@)
                &&& #[trigger] call_ensures(transform, (ppm,), blurred)
                &&& match r {
                    Ok(out) => out.well_formed() && out@ == (RgbFrameView {
                        width: frame@.width,
                        height: frame@.height,
                        data: blurred@,
                    }),
                    Err(e) => e == BlurError::SizeMismatch && blurred@.len() != 3 * frame@.width
                        * frame@.height,
                }
            },
{
    let width: u32 = frame.width;
    let height: u32 = frame.height;
    let ppm = frame_to_ppm_format(frame);
    let blurred = transform(ppm);
    blurred_frame(width, height, blurred)
}

} // verus!
