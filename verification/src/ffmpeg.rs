//! Arguments for the ffmpeg run that pads the video on the left and burns
//! the subtitles in.
use vstd::prelude::*;

use crate::text::{chars_of, decimal, push_decimal, push_str};

verus! {

/// Settings of the burn-in run.
pub struct BurnInParams {
    pub panel_width: u32,
    pub video_width: u32,
    pub video_height: u32,
    /// Directory of font files for libass, if any.
    pub fonts_dir: Option<String>,
    pub crf: u8,
    pub preset: String,
}

/// Why the filter graph cannot be written.
#[derive(Debug)]
pub enum BurnInError {
    /// The subtitle path (given) holds a single quote, which the filter syntax cannot carry.
    QuoteInAssPath(String),
    /// The fonts directory holds a single quote.
    QuoteInFontsDir,
}

/// Whether `s` holds a single quote.
pub open spec fn has_quote(s: Seq<char>) -> bool {
    exists|k: int| 0 <= k < s.len() && s[k] == '\''
}

/// `pad=W:H:X:0:black,`: the output is the panel and the video side by side,
/// the video shifted right by the panel's width, the panel black.
pub open spec fn pad_filter(p: BurnInParams) -> Seq<char> {
    "pad="@ + decimal((p.panel_width + p.video_width) as nat) + seq![':'] + decimal(p.video_height as nat) + seq![':']
        + decimal(p.panel_width as nat) + ":0:black,"@
}

/// The `subtitles` filter for the script at `ass_path` (UTF-8), with the
/// fonts directory when one is given.
pub open spec fn subtitles_filter(ass_path: Seq<char>, fonts_dir: Option<Seq<char>>) -> Seq<char> {
    "subtitles='"@ + ass_path + "':charenc=UTF-8"@ + match fonts_dir {
        Some(d) => ":fontsdir='"@ + d + seq!['\''],
        None => Seq::empty(),
    }
}

/// The fonts directory's text, if any.
pub open spec fn fonts_dir_view(p: BurnInParams) -> Option<Seq<char>> {
    match p.fonts_dir {
        Some(d) => Some(d@),
        None => None,
    }
}

/// The ffmpeg arguments between the input and the output: the filter graph,
/// libx264 with the preset and CRF, and a copied audio stream.
pub open spec fn burn_in_args_spec(p: BurnInParams, ass_path: Seq<char>) -> Seq<Seq<char>> {
    seq![
        "-vf"@,
        pad_filter(p) + subtitles_filter(ass_path, fonts_dir_view(p)),
        "-c:v"@,
        "libx264"@,
        "-preset"@,
        p.preset@,
        "-crf"@,
        decimal(p.crf as nat),
        "-c:a"@,
        "copy"@,
    ]
}

/// Whether `s` holds a single quote.
fn contains_quote(s: &str) -> (b: bool)
    ensures
        b == has_quote(s@),
{
    let chars = chars_of(s);
    let mut k: usize = 0;
    while k < chars.len()
        invariant
            k <= chars@.len(),
            chars@ == s@,
            forall|q: int| 0 <= q < k ==> chars@[q] != '\'',
        decreases chars@.len() - k,
    {
        if chars[k] == '\'' {
            return true;
        }
        k = k + 1;
    }
    false
}

/// A string holding `s`.
fn owned(s: &str) -> (r: String)
    ensures
        r@ == s@,
{
    let mut r = String::new();
    push_str(&mut r, s);
    assert(r@ =~= s@);
    r
}

/// The ffmpeg arguments that pad the video with the black panel on its left
/// and burn in the script at `ass_path` (to be put between `-i input` and the
/// output).  A single quote in the script's path or in the fonts directory
/// cannot be written in the filter graph and is refused, the path first.
pub fn burn_in_args(p: &BurnInParams, ass_path: &str) -> (r: Result<Vec<String>, BurnInError>)
    requires
        p.panel_width + p.video_width <= u32::MAX,
    ensures
        match r {
            Ok(args) => !has_quote(ass_path@) && !(fonts_dir_view(*p) matches Some(d) && has_quote(d))
                && args@.map_values(|a: String| a@) == burn_in_args_spec(*p, ass_path@),
            Err(BurnInError::QuoteInAssPath(a)) => has_quote(ass_path@) && a@ == ass_path@,
            Err(BurnInError::QuoteInFontsDir) => !has_quote(ass_path@) && (fonts_dir_view(*p) matches Some(d)
                && has_quote(d)),
        },
{
    if contains_quote(ass_path) {
        return Err(BurnInError::QuoteInAssPath(owned(ass_path)));
    }
    let w_out = p.panel_width + p.video_width;
    let mut vf = String::new();
    push_str(&mut vf, "pad=");
    push_decimal(&mut vf, w_out as u64);
    vf.push(':');
    push_decimal(&mut vf, p.video_height as u64);
    vf.push(':');
    push_decimal(&mut vf, p.panel_width as u64);
    push_str(&mut vf, ":0:black,");
    push_str(&mut vf, "subtitles='");
    push_str(&mut vf, ass_path);
    push_str(&mut vf, "':charenc=UTF-8");
    let ghost base = vf@;
    match &p.fonts_dir {
        Some(d) => {
            if contains_quote(d.as_str()) {
                return Err(BurnInError::QuoteInFontsDir);
            }
            push_str(&mut vf, ":fontsdir='");
            push_str(&mut vf, d.as_str());
            vf.push('\'');
        },
        None => {},
    }
    assert(vf@ =~= pad_filter(*p) + subtitles_filter(ass_path@, fonts_dir_view(*p)));
    let mut crf = String::new();
    push_decimal(&mut crf, p.crf as u64);
    assert(crf@ =~= decimal(p.crf as nat));
    let mut args: Vec<String> = Vec::new();
    args.push(owned("-vf"));
    args.push(vf);
    args.push(owned("-c:v"));
    args.push(owned("libx264"));
    args.push(owned("-preset"));
    args.push(p.preset.clone());
    args.push(owned("-crf"));
    args.push(crf);
    args.push(owned("-c:a"));
    args.push(owned("copy"));
    assert(args@.map_values(|a: String| a@) =~= burn_in_args_spec(*p, ass_path@));
    Ok(args)
}

} // verus!
